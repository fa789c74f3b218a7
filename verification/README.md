# ra_engine

The deterministic core of a real-time strategy battle, written in Verus:
every public function states what it returns or changes over plain values
(spec functions and views), and Verus proves the code meets it.

## Layout

- `src/commands/` — the command payloads, their wire format and codec.
- `src/command_checks.rs`, `src/command_apply.rs`, `src/production_orders.rs` —
  checking a tick's commands and carrying them out, with duplicates and
  rejects recorded per batch; unit production charged and queued as it goes.
- `src/movement.rs`, `src/repath.rs`, `src/navigation.rs`, `src/navigation_laws.rs` —
  the movement phase, path planning around other units, facings and the cell
  beside a footprint.
- `src/engagement.rs`, `src/damage.rs`, `src/effects.rs` — combat, capture,
  infiltration and damage.
- `src/production.rs`, `src/factories.rs`, `src/economy.rs`, `src/repairs.rs` —
  pay-as-you-build, factories, refinery income, repairs.
- `src/capabilities.rs`, `src/snapshot.rs`, `src/tech_tree.rs` — what the
  sidebar may order, bound to the buildings alive now.
- `src/triggers.rs`, `src/trigger_*.rs`, `src/action_route.rs`, `src/house_actions.rs`,
  `src/script_teams.rs`, `src/team_spawn.rs`, `src/script_commands.rs`,
  `src/ai*.rs` — map triggers, scripted teams and the skirmish AI.
- `src/ecs/` — the entity/component store and its laws.
- `src/digest.rs`, `src/session_orders.rs`, `src/outcome.rs` — the lockstep
  digest, orders on a selection, match outcome.
- `src/powers.rs`, `src/super_weapons.rs`, `src/terrain_spawn.rs`,
  `src/battle.rs` — super weapons, the lightning storm and ore trees.

Laws that span several calls are public proof functions named `law_*`.
`tests/` runs the library on concrete values; `app/` holds the few
floating-point helpers Verus does not take.
