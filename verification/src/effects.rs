//! Timed invulnerability (Iron Curtain, force shield): granting it,
//! counting it down, and the area grant of the curtain.

use vstd::prelude::*;

use crate::ai::{chebyshev, chebyshev_u16};
use crate::entities::{is_mobile, mobile, EntityKind};

verus! {

/// An entity as the invulnerability rules read it.
#[derive(Clone, Copy, Debug)]
pub struct ShieldedEntity {
    pub id: u64,
    /// Has health and is not dead.
    pub alive: bool,
    /// Kind from its identity (none: no identity).
    pub kind: Option<EntityKind>,
    /// Owning house id, if any.
    pub owner: Option<u32>,
    pub cell: Option<(u16, u16)>,
    /// Ticks of invulnerability left, when it has the buff.
    pub invulnerable: Option<u32>,
}

/// Whether an entity is invulnerable now.
pub open spec fn shielded(e: ShieldedEntity) -> bool {
    e.invulnerable matches Some(r) && r > 0
}

/// Whether entity `e` is invulnerable now.
pub fn is_invulnerable(e: &ShieldedEntity) -> (r: bool)
    ensures
        r == shielded(*e),
{
    match e.invulnerable {
        Some(r) => r > 0,
        None => false,
    }
}

/// `e` after one tick: a buff with at most one tick left goes, a longer one
/// counts down (entities without identity keep theirs).
pub open spec fn ticked(e: ShieldedEntity) -> ShieldedEntity {
    match (e.kind, e.invulnerable) {
        (Some(_), Some(r)) => ShieldedEntity {
            invulnerable: if r <= 1 {
                None
            } else {
                Some((r - 1) as u32)
            },
            ..e
        },
        _ => e,
    }
}

/// One tick of every invulnerability buff (see [`ticked`]).
pub fn tick_timed_invulnerability(es: &mut Vec<ShieldedEntity>)
    ensures
        final(es)@ == old(es)@.map_values(|e: ShieldedEntity| ticked(e)),
{
    let mut i: usize = 0;
    while i < es.len()
        invariant
            i <= es@.len(),
            es@.len() == old(es)@.len(),
            forall|k: int| 0 <= k < i ==> #[trigger] es@[k] == ticked(old(es)@[k]),
            forall|k: int| i <= k < es@.len() ==> #[trigger] es@[k] == old(es)@[k],
        decreases es@.len() - i,
    {
        let e = es[i];
        if e.kind.is_some() {
            if let Some(r) = e.invulnerable {
                let next = if r <= 1 {
                    None
                } else {
                    Some(r - 1)
                };
                es.set(i, ShieldedEntity { invulnerable: next, ..e });
            }
        }
        i = i + 1;
    }
    assert(es@ =~= old(es)@.map_values(|e: ShieldedEntity| ticked(e)));
}

/// `e` after a grant of `duration` ticks: a buff is raised to at least
/// `duration`; an entity without one gets it; a zero grant changes nothing.
pub open spec fn granted(e: ShieldedEntity, duration: u32) -> ShieldedEntity {
    if duration == 0 {
        e
    } else {
        ShieldedEntity {
            invulnerable: match e.invulnerable {
                Some(r) => Some(if r > duration {
                    r
                } else {
                    duration
                }),
                None => Some(duration),
            },
            ..e
        }
    }
}

/// Grants entity `e` invulnerability for `duration` ticks (see
/// [`granted`]).
pub fn grant_invulnerability(e: &mut ShieldedEntity, duration: u32)
    ensures
        *final(e) == granted(*old(e), duration),
{
    if duration == 0 {
        return;
    }
    let next = match e.invulnerable {
        Some(r) => if r > duration {
            r
        } else {
            duration
        },
        None => duration,
    };
    e.invulnerable = Some(next);
}

/// Entity `e` is covered by a curtain of house `house` centred on `(x, y)`
/// with `radius`: a living entity of that house, a structure for the force
/// shield (`structures_only`) or a mobile unit otherwise, within the radius
/// (Chebyshev distance).
pub open spec fn curtain_covers(
    e: ShieldedEntity,
    house: Option<u32>,
    x: u16,
    y: u16,
    radius: i32,
    structures_only: bool,
) -> bool {
    &&& e.alive
    &&& e.kind matches Some(k) && (if structures_only {
        k == EntityKind::Structure
    } else {
        mobile(k)
    })
    &&& e.owner is Some && e.owner == house
    &&& e.cell matches Some(c) && chebyshev(c.0, c.1, x, y) <= radius
}

/// The entities after a curtain: each covered one is granted `duration`
/// ticks (nothing at all for a zero duration).
pub open spec fn curtained(
    es: Seq<ShieldedEntity>,
    house: Option<u32>,
    x: u16,
    y: u16,
    radius: i32,
    structures_only: bool,
    duration: u32,
) -> Seq<ShieldedEntity> {
    es.map_values(
        |e: ShieldedEntity|
            if curtain_covers(e, house, x, y, radius, structures_only) {
                granted(e, duration)
            } else {
                e
            },
    )
}

fn covers(e: &ShieldedEntity, house: Option<u32>, x: u16, y: u16, radius: i32, structures_only: bool) -> (r: bool)
    ensures
        r == curtain_covers(*e, house, x, y, radius, structures_only),
{
    if !e.alive {
        return false;
    }
    let k = match e.kind {
        Some(k) => k,
        None => {
            return false;
        },
    };
    let kind_ok = if structures_only {
        match k {
            EntityKind::Structure => true,
            _ => false,
        }
    } else {
        is_mobile(k)
    };
    if !kind_ok {
        return false;
    }
    let owner_ok = match (e.owner, house) {
        (Some(o), Some(h)) => o == h,
        _ => false,
    };
    if !owner_ok {
        return false;
    }
    match e.cell {
        Some(c) => {
            let d = chebyshev_u16(c.0, c.1, x, y);
            (d as i64) <= (radius as i64)
        },
        None => false,
    }
}

/// Iron Curtain (or force shield, `structures_only`) of house `house` at
/// `(x, y)` (see [`curtained`]).
pub fn apply_iron_curtain_at(
    es: &mut Vec<ShieldedEntity>,
    house: Option<u32>,
    x: u16,
    y: u16,
    radius: i32,
    structures_only: bool,
    duration: u32,
)
    ensures
        final(es)@ == curtained(old(es)@, house, x, y, radius, structures_only, duration),
{
    if duration == 0 {
        assert(old(es)@ =~= curtained(old(es)@, house, x, y, radius, structures_only, duration));
        return;
    }
    let mut i: usize = 0;
    while i < es.len()
        invariant
            i <= es@.len(),
            es@.len() == old(es)@.len(),
            forall|k: int|
                0 <= k < i ==> #[trigger] es@[k] == (if curtain_covers(old(es)@[k], house, x, y, radius, structures_only) {
                    granted(old(es)@[k], duration)
                } else {
                    old(es)@[k]
                }),
            forall|k: int| i <= k < es@.len() ==> #[trigger] es@[k] == old(es)@[k],
        decreases es@.len() - i,
    {
        let mut e = es[i];
        if covers(&e, house, x, y, radius, structures_only) {
            grant_invulnerability(&mut e, duration);
            es.set(i, e);
        }
        i = i + 1;
    }
    assert(es@ =~= curtained(old(es)@, house, x, y, radius, structures_only, duration));
}

/// `e` after `n` ticks.
pub open spec fn ticked_times(e: ShieldedEntity, n: nat) -> ShieldedEntity
    decreases n,
{
    if n == 0 {
        e
    } else {
        ticked(ticked_times(e, (n - 1) as nat))
    }
}

/// A grant of `duration` ticks to an identified entity keeps it
/// invulnerable for the next `duration - 1` ticks, and it is gone after
/// `duration` ticks when nothing longer was running.
pub proof fn law_grant_lasts_its_duration(e: ShieldedEntity, duration: u32, n: nat)
    requires
        e.kind is Some,
        duration > 0,
    ensures
        n < duration ==> shielded(ticked_times(granted(e, duration), n)),
        n < duration ==> ticked_times(granted(e, duration), n).invulnerable.unwrap() >= duration - n,
        (e.invulnerable is None || e.invulnerable.unwrap() <= duration) && n >= duration ==> !shielded(
            ticked_times(granted(e, duration), n),
        ),
{
    lemma_ticked_exact(granted(e, duration), n);
}

/// The buff after `n` ticks: `r - n` ticks left while `n < r`, gone after.
proof fn lemma_ticked_exact(e: ShieldedEntity, n: nat)
    requires
        e.kind is Some,
    ensures
        ticked_times(e, n).kind == e.kind,
        ticked_times(e, n).invulnerable == match e.invulnerable {
            Some(r) => if n == 0 {
                Some(r)
            } else if n < r {
                Some((r - n) as u32)
            } else {
                None::<u32>
            },
            None => None::<u32>,
        },
    decreases n,
{
    if n > 0 {
        lemma_ticked_exact(e, (n - 1) as nat);
        let p = ticked_times(e, (n - 1) as nat);
        assert(ticked_times(e, n) == ticked(p));
    }
}

} // verus!
