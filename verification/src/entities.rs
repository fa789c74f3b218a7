//! What the gameplay queries read of each simulated entity: whether it is
//! alive, who owns it, and what it is.

use vstd::prelude::*;

use crate::text::{
    eq_ignore_ascii_case, lemma_upper_of_is_upper_text, same_text, text_eq_ignore_ascii_case, to_ascii_upper, upper_text,
};

verus! {

/// Broad kind of a map entity.
#[derive(Clone, Copy, Debug, PartialEq, Eq, Structural)]
pub enum EntityKind {
    Structure,
    Unit,
    Infantry,
    Aircraft,
    /// Anything else placed on the map (terrain objects, overlays, ...).
    Other,
}

/// Kind, type id and map tag of an entity.
#[derive(Clone, Debug)]
pub struct EntityIdentity {
    pub kind: EntityKind,
    pub type_id: String,
    /// Tag the map attached to it (binds it to triggers).
    pub tag: Option<u32>,
}

/// One entity as the rule queries see it. An entity without health counts
/// as dead.
#[derive(Clone, Debug)]
pub struct EntityRecord {
    /// Has health and is not dead.
    pub alive: bool,
    /// Owning house, if any.
    pub owner: Option<String>,
    /// Kind and type, if known.
    pub identity: Option<EntityIdentity>,
    /// Cell it stands on, if it has a position.
    pub cell: Option<(u16, u16)>,
}

/// Alive and owned by exactly `house`.
pub open spec fn alive_owned_by(e: EntityRecord, house: Seq<char>) -> bool {
    &&& e.alive
    &&& e.owner matches Some(o)
    &&& o@ == house
}

/// Counts as one of `house`'s `type_key` for a build limit.
pub open spec fn counts_as_type(e: EntityRecord, house: Seq<char>, type_key: Seq<char>) -> bool {
    &&& alive_owned_by(e, house)
    &&& e.identity matches Some(i)
    &&& text_eq_ignore_ascii_case(i.type_id@, type_key)
}

/// Number of `house`'s living entities of type `type_key` (ASCII case
/// ignored), structures and units alike.
pub open spec fn type_count(es: Seq<EntityRecord>, house: Seq<char>, type_key: Seq<char>) -> nat
    decreases es.len(),
{
    if es.len() == 0 {
        0
    } else {
        type_count(es.drop_last(), house, type_key) + if counts_as_type(es.last(), house, type_key) {
            1nat
        } else {
            0nat
        }
    }
}

/// Whether the entity is alive and owned by exactly `house`.
fn is_alive_owned_by(e: &EntityRecord, house: &str) -> (r: bool)
    ensures
        r == alive_owned_by(*e, house@),
{
    if !e.alive {
        return false;
    }
    match &e.owner {
        Some(o) => same_text(o.as_str(), house),
        None => false,
    }
}

/// How many of `house`'s living entities are of type `type_key` (ASCII case
/// ignored); the count as an `i32`.
pub fn living_type_count(entities: &[EntityRecord], house: &str, type_key: &str) -> (n: i32)
    ensures
        n == type_count(entities@, house@, type_key@) as i32,
{
    let mut count: usize = 0;
    let mut i: usize = 0;
    while i < entities.len()
        invariant
            i <= entities@.len(),
            count == type_count(entities@.take(i as int), house@, type_key@),
        decreases entities@.len() - i,
    {
        let e = &entities[i];
        let hit = is_alive_owned_by(e, house) && match &e.identity {
            Some(id) => eq_ignore_ascii_case(id.type_id.as_str(), type_key),
            None => false,
        };
        proof {
            assert(entities@.take(i + 1).drop_last() =~= entities@.take(i as int));
            lemma_type_count_le(entities@.take(i as int), house@, type_key@);
        }
        if hit {
            count = count + 1;
        }
        i = i + 1;
    }
    assert(entities@.take(i as int) =~= entities@);
    count as i32
}

/// A count never exceeds the number of entities.
proof fn lemma_type_count_le(es: Seq<EntityRecord>, house: Seq<char>, type_key: Seq<char>)
    ensures
        type_count(es, house, type_key) <= es.len(),
    decreases es.len(),
{
    if es.len() > 0 {
        lemma_type_count_le(es.drop_last(), house, type_key);
    }
}

/// Whether `house` already has `build_limit` living `type_key`s (a limit of
/// zero or less means no limit).
pub fn build_limit_reached(entities: &[EntityRecord], house: &str, type_key: &str, build_limit: i32) -> (r: bool)
    ensures
        r == (build_limit > 0 && type_count(entities@, house@, type_key@) as i32 >= build_limit),
{
    build_limit > 0 && living_type_count(entities, house, type_key) >= build_limit
}

/// Type ids of `house`'s living structures, in entity order.
pub open spec fn structure_ids(es: Seq<EntityRecord>, house: Seq<char>) -> Seq<Seq<char>>
    decreases es.len(),
{
    if es.len() == 0 {
        Seq::empty()
    } else {
        let e = es.last();
        let rest = structure_ids(es.drop_last(), house);
        match e.identity {
            Some(i) => if alive_owned_by(e, house) && i.kind == EntityKind::Structure {
                rest.push(i.type_id@)
            } else {
                rest
            },
            None => rest,
        }
    }
}

/// `k` is the upper-cased type id of one of `house`'s living structures.
pub open spec fn is_structure_key(es: Seq<EntityRecord>, house: Seq<char>, k: Seq<char>) -> bool {
    exists|i: int| 0 <= i < structure_ids(es, house).len() && k == upper_text(#[trigger] structure_ids(es, house)[i])
}

/// Keys of `house`'s living structures (the owner compared exactly): their
/// type ids, ASCII upper-cased, each listed once.
pub fn living_structure_keys(entities: &[EntityRecord], house: &str) -> (keys: Vec<String>)
    ensures
        keys@.map_values(|s: String| s@).no_duplicates(),
        forall|k: Seq<char>| keys@.map_values(|s: String| s@).contains(k) <==> is_structure_key(entities@, house@, k),
{
    let mut keys: Vec<String> = Vec::new();
    let mut i: usize = 0;
    while i < entities.len()
        invariant
            i <= entities@.len(),
            keys@.map_values(|s: String| s@).no_duplicates(),
            forall|k: Seq<char>|
                keys@.map_values(|s: String| s@).contains(k) <==> is_structure_key(entities@.take(i as int), house@, k),
        decreases entities@.len() - i,
    {
        let e = &entities[i];
        let ghost before_ids = structure_ids(entities@.take(i as int), house@);
        let ghost before = keys@.map_values(|s: String| s@);
        proof {
            assert(entities@.take(i + 1).drop_last() =~= entities@.take(i as int));
        }
        let mut added = false;
        let ghost mut matched = false;
        let ghost mut t: Seq<char> = Seq::empty();
        if is_alive_owned_by(e, house) {
            match &e.identity {
                Some(id) => {
                    if id.kind == EntityKind::Structure {
                        proof {
                            matched = true;
                            t = id.type_id@;
                        }
                        let key = to_ascii_upper(id.type_id.as_str());
                        proof {
                            lemma_upper_of_is_upper_text(key@, id.type_id@);
                        }
                        if !contains_text(&keys, key.as_str()) {
                            keys.push(key);
                            added = true;
                        }
                    }
                },
                None => {},
            }
        }
        proof {
            let after_ids = structure_ids(entities@.take(i + 1), house@);
            let now = keys@.map_values(|s: String| s@);
            if matched {
                assert(after_ids =~= before_ids.push(t));
            } else {
                assert(after_ids =~= before_ids);
            }
            if added {
                assert(now =~= before.push(upper_text(t)));
            } else {
                assert(now =~= before);
            }
            assert forall|k: Seq<char>| now.contains(k) <==> is_structure_key(entities@.take(i + 1), house@, k) by {
                if is_structure_key(entities@.take(i as int), house@, k) {
                    let j = choose|j: int| 0 <= j < before_ids.len() && k == upper_text(#[trigger] before_ids[j]);
                    assert(after_ids[j] == before_ids[j]);
                    assert(before.contains(k));
                    if added {
                        let q = choose|q: int| 0 <= q < before.len() && before[q] == k;
                        assert(now[q] == k);
                    }
                }
                if is_structure_key(entities@.take(i + 1), house@, k) {
                    let j = choose|j: int| 0 <= j < after_ids.len() && k == upper_text(#[trigger] after_ids[j]);
                    if j < before_ids.len() {
                        assert(after_ids[j] == before_ids[j]);
                        assert(is_structure_key(entities@.take(i as int), house@, k));
                    } else {
                        assert(matched);
                        assert(k == upper_text(t));
                        if added {
                            assert(now[now.len() - 1] == k);
                        } else {
                            assert(before.contains(k));
                        }
                    }
                }
                if now.contains(k) {
                    let q = choose|q: int| 0 <= q < now.len() && now[q] == k;
                    if q < before.len() {
                        assert(before[q] == k);
                        assert(before.contains(k));
                        assert(is_structure_key(entities@.take(i as int), house@, k));
                        let j = choose|j: int| 0 <= j < before_ids.len() && k == upper_text(#[trigger] before_ids[j]);
                        assert(after_ids[j] == before_ids[j]);
                    } else {
                        assert(added);
                        assert(k == upper_text(t));
                        assert(after_ids[before_ids.len() as int] == t);
                    }
                }
            }
            if added {
                assert forall|a: int, b: int| 0 <= a < now.len() && 0 <= b < now.len() && a != b implies now[a] != now[b] by {
                    if a < before.len() && b < before.len() {
                    } else if a == before.len() {
                        assert(before.contains(now[b]));
                    } else {
                        assert(before.contains(now[a]));
                    }
                }
            }
        }
        i = i + 1;
    }
    assert(entities@.take(i as int) =~= entities@);
    keys
}

/// Whether `list` holds `text` exactly.
fn contains_text(list: &Vec<String>, text: &str) -> (r: bool)
    ensures
        r == list@.map_values(|s: String| s@).contains(text@),
{
    let ghost names = list@.map_values(|s: String| s@);
    let mut i: usize = 0;
    while i < list.len()
        invariant
            i <= list@.len(),
            names == list@.map_values(|s: String| s@),
            forall|j: int| 0 <= j < i ==> names[j] != text@,
        decreases list@.len() - i,
    {
        if same_text(list[i].as_str(), text) {
            assert(names[i as int] == text@);
            return true;
        }
        i = i + 1;
    }
    false
}

/// Units, infantry and aircraft move; structures and map objects do not.
pub open spec fn mobile(kind: EntityKind) -> bool {
    kind == EntityKind::Unit || kind == EntityKind::Infantry || kind == EntityKind::Aircraft
}

/// Whether entities of this kind move.
pub fn is_mobile(kind: EntityKind) -> (r: bool)
    ensures
        r == mobile(kind),
{
    match kind {
        EntityKind::Unit | EntityKind::Infantry | EntityKind::Aircraft => true,
        _ => false,
    }
}

/// Entity `j` is a living mobile entity standing on `(x, y)`.
pub open spec fn occupies(e: EntityRecord, x: u16, y: u16) -> bool {
    &&& e.alive
    &&& e.identity matches Some(i) && mobile(i.kind)
    &&& e.cell == Some((x, y))
}

/// Whether a living mobile entity other than entity `self_i` stands on
/// `(x, y)`.
pub fn cell_occupied_by_other(entities: &[EntityRecord], self_i: usize, x: u16, y: u16) -> (r: bool)
    ensures
        r == exists|j: int| 0 <= j < entities@.len() && j != self_i && occupies(#[trigger] entities@[j], x, y),
{
    let mut j: usize = 0;
    while j < entities.len()
        invariant
            j <= entities@.len(),
            forall|k: int| 0 <= k < j && k != self_i ==> !occupies(#[trigger] entities@[k], x, y),
        decreases entities@.len() - j,
    {
        if j != self_i {
            let e = &entities[j];
            let moving = match &e.identity {
                Some(id) => is_mobile(id.kind),
                None => false,
            };
            if e.alive && moving && e.cell == Some((x, y)) {
                assert(occupies(entities@[j as int], x, y));
                return true;
            }
        }
        j = j + 1;
    }
    false
}

} // verus!
