//! Unit commands from scripted-team orders.

use ra_engine::commands::{EntityId, GameCommand};
use ra_engine::script_commands::{script_order_commands, MemberFacts};
use ra_engine::script_teams::{ScriptOrder, SCRIPT_ACTION_ATTACK_WAYPOINT, SCRIPT_ACTION_DEPLOY, SCRIPT_ACTION_MOVE_TO_WAYPOINT};

fn fact(alive: bool, player: Option<u8>, hostile: Option<u64>) -> MemberFacts {
    MemberFacts { alive, player, hostile_near: hostile }
}

#[test]
fn moves_then_attacks_then_deploys_for_living_seated_members() {
    let orders = vec![
        ScriptOrder { action: SCRIPT_ACTION_ATTACK_WAYPOINT, argument: 2, members: vec![1, 2] },
        ScriptOrder { action: SCRIPT_ACTION_MOVE_TO_WAYPOINT, argument: 3, members: vec![3, 4] },
        ScriptOrder { action: SCRIPT_ACTION_DEPLOY, argument: 0, members: vec![5, 6] },
    ];
    let facts = vec![
        vec![fact(true, Some(1), Some(9)), fact(true, Some(1), None)],
        vec![fact(true, Some(0), None), fact(false, Some(0), None)],
        vec![fact(true, None, None), fact(true, Some(2), None)],
    ];
    let wps = vec![Some((8, 8)), Some((4, 5)), None];
    let cmds = script_order_commands(&orders, &facts, &wps);
    assert_eq!(
        cmds,
        vec![
            (0, GameCommand::MoveTo { entity: EntityId(3), x: 4, y: 5 }),
            (1, GameCommand::Attack { attacker: EntityId(1), target: EntityId(9) }),
            (2, GameCommand::Deploy { entity: EntityId(6) }),
        ]
    );
}

#[test]
fn orders_without_their_waypoint_give_nothing() {
    let orders = vec![
        ScriptOrder { action: SCRIPT_ACTION_MOVE_TO_WAYPOINT, argument: 7, members: vec![3] },
        ScriptOrder { action: SCRIPT_ACTION_ATTACK_WAYPOINT, argument: 7, members: vec![1] },
    ];
    let facts = vec![vec![fact(true, Some(0), None)], vec![fact(true, Some(0), Some(4))]];
    assert!(script_order_commands(&orders, &facts, &[None, None]).is_empty());
}
