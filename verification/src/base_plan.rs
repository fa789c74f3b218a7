//! The map's `[Base]` plan of an AI house: whose plan it is, which nodes
//! stand already, and the next node to build.

use vstd::prelude::*;

use crate::ai::{house_id_is, house_id_names, HouseTypeKey};

verus! {

/// A building the plan wants, with its anchor cell.
#[derive(Clone, Copy, Debug, PartialEq, Eq, Structural)]
pub struct BaseNode {
    pub type_id: u32,
    pub x: u16,
    pub y: u16,
}

/// The map's base plan: the house it is for and its nodes, in order.
#[derive(Clone, Debug)]
pub struct BasePlan {
    pub house: u32,
    pub nodes: Vec<BaseNode>,
}

/// The footprint of a structure type.
#[derive(Clone, Copy, Debug, PartialEq, Eq, Structural)]
pub struct Foundation {
    pub type_id: u32,
    pub width: u16,
    pub height: u16,
}

/// An entity as the plan reads it.
#[derive(Clone, Copy, Debug)]
pub struct PlacedEntity {
    /// Has health and is not dead.
    pub alive: bool,
    pub owner: Option<u32>,
    /// Its identity says it is a structure.
    pub structure: bool,
    /// Type from its identity.
    pub type_id: Option<u32>,
    /// Anchor (top-left) cell.
    pub cell: Option<(u16, u16)>,
}

/// The plan belongs to `house`: the rules house it names has that key
/// (ASCII case ignored).
pub open spec fn plan_is_for(plan: Option<BasePlan>, houses: Seq<HouseTypeKey>, house: Seq<char>) -> bool {
    plan matches Some(p) && house_id_names(houses, p.house, house)
}

/// Whether the map's base plan is `house`'s.
pub fn base_plan_for_house(plan: &Option<BasePlan>, houses: &[HouseTypeKey], house: &str) -> (r: bool)
    ensures
        r == plan_is_for(*plan, houses@, house@),
{
    match plan {
        Some(p) => house_id_is(houses, p.house, house),
        None => false,
    }
}

/// Footprint of type `t`: that of its first foundation entry, each side at
/// least 1; 1 by 1 for an unknown type.
pub open spec fn footprint(fs: Seq<Foundation>, t: u32) -> (int, int)
    decreases fs.len(),
{
    if fs.len() == 0 {
        (1, 1)
    } else if fs[0].type_id == t {
        (
            if fs[0].width > 1 {
                fs[0].width as int
            } else {
                1
            },
            if fs[0].height > 1 {
                fs[0].height as int
            } else {
                1
            },
        )
    } else {
        footprint(fs.drop_first(), t)
    }
}

fn footprint_of(fs: &[Foundation], t: u32) -> (r: (u16, u16))
    ensures
        (r.0 as int, r.1 as int) == footprint(fs@, t),
{
    let mut i: usize = 0;
    assert(fs@.skip(0) =~= fs@);
    while i < fs.len()
        invariant
            i <= fs@.len(),
            footprint(fs@, t) == footprint(fs@.skip(i as int), t),
        decreases fs@.len() - i,
    {
        proof {
            assert(fs@.skip(i as int)[0] == fs@[i as int]);
            assert(fs@.skip(i as int).drop_first() =~= fs@.skip(i + 1));
        }
        let f = fs[i];
        if f.type_id == t {
            let w: u16 = if f.width > 1 {
                f.width
            } else {
                1
            };
            let h: u16 = if f.height > 1 {
                f.height
            } else {
                1
            };
            return (w, h);
        }
        i = i + 1;
    }
    assert(fs@.skip(i as int) =~= Seq::<Foundation>::empty());
    (1, 1)
}

/// Entity `e` stands for `node`: a living structure of house `house` of the
/// node's type whose footprint covers the node's cell.
pub open spec fn stands_for(e: PlacedEntity, node: BaseNode, house: Option<u32>, fs: Seq<Foundation>) -> bool {
    let (fw, fh) = footprint(fs, node.type_id);
    &&& e.alive
    &&& e.owner is Some && e.owner == house
    &&& e.structure
    &&& e.type_id == Some(node.type_id)
    &&& e.cell matches Some(c) && c.0 <= node.x < c.0 + fw && c.1 <= node.y < c.1 + fh
}

/// A node is built: some entity stands for it.
pub open spec fn node_built(es: Seq<PlacedEntity>, node: BaseNode, house: Option<u32>, fs: Seq<Foundation>) -> bool {
    exists|i: int| 0 <= i < es.len() && stands_for(#[trigger] es[i], node, house, fs)
}

/// Whether `node` is built by house `house` (its rules id, if known).
pub fn base_node_satisfied(es: &[PlacedEntity], node: BaseNode, house: Option<u32>, fs: &[Foundation]) -> (r: bool)
    ensures
        r == node_built(es@, node, house, fs@),
{
    let (fw, fh) = footprint_of(fs, node.type_id);
    let mut i: usize = 0;
    while i < es.len()
        invariant
            i <= es@.len(),
            (fw as int, fh as int) == footprint(fs@, node.type_id),
            forall|j: int| 0 <= j < i ==> !stands_for(#[trigger] es@[j], node, house, fs@),
        decreases es@.len() - i,
    {
        let e = es[i];
        let owner_ok = match (e.owner, house) {
            (Some(o), Some(h)) => o == h,
            _ => false,
        };
        let type_ok = match e.type_id {
            Some(t) => t == node.type_id,
            None => false,
        };
        if e.alive && owner_ok && e.structure && type_ok {
            if let Some(c) = e.cell {
                if c.0 <= node.x && node.y >= c.1 && (node.x as u32) < c.0 as u32 + fw as u32 && (node.y as u32) < c.1 as u32
                    + fh as u32 {
                    assert(stands_for(es@[i as int], node, house, fs@));
                    return true;
                }
            }
        }
        i = i + 1;
    }
    false
}

/// The first node of the plan that is not built yet.
pub open spec fn next_node(nodes: Seq<BaseNode>, es: Seq<PlacedEntity>, house: Option<u32>, fs: Seq<Foundation>) -> Option<BaseNode>
    decreases nodes.len(),
{
    if nodes.len() == 0 {
        None
    } else if !node_built(es, nodes[0], house, fs) {
        Some(nodes[0])
    } else {
        next_node(nodes.drop_first(), es, house, fs)
    }
}

/// The next node of `house`'s base plan to build: none when the plan is
/// another house's or complete.
pub fn next_incomplete_base_node(
    plan: &Option<BasePlan>,
    houses: &[HouseTypeKey],
    house: &str,
    house_id: Option<u32>,
    es: &[PlacedEntity],
    fs: &[Foundation],
) -> (r: Option<BaseNode>)
    ensures
        r == if plan_is_for(*plan, houses@, house@) {
            next_node(plan.unwrap().nodes@, es@, house_id, fs@)
        } else {
            None
        },
{
    if !base_plan_for_house(plan, houses, house) {
        return None;
    }
    let p = match plan {
        Some(p) => p,
        None => {
            return None;
        },
    };
    let mut i: usize = 0;
    assert(p.nodes@.skip(0) =~= p.nodes@);
    while i < p.nodes.len()
        invariant
            i <= p.nodes@.len(),
            plan_is_for(*plan, houses@, house@),
            plan.unwrap().nodes@ == p.nodes@,
            next_node(p.nodes@, es@, house_id, fs@) == next_node(p.nodes@.skip(i as int), es@, house_id, fs@),
        decreases p.nodes@.len() - i,
    {
        proof {
            assert(p.nodes@.skip(i as int)[0] == p.nodes@[i as int]);
            assert(p.nodes@.skip(i as int).drop_first() =~= p.nodes@.skip(i + 1));
        }
        let node = p.nodes[i];
        if !base_node_satisfied(es, node, house_id, fs) {
            return Some(node);
        }
        i = i + 1;
    }
    assert(p.nodes@.skip(i as int) =~= Seq::<BaseNode>::empty());
    None
}

} // verus!
