//! Super-weapon charging: for each house and weapon type, the ticks charged
//! toward the recharge time, readiness, and the checks made before a weapon
//! fires.
//!
//! Houses are kept in the byte order of their keys, as a sorted map would
//! keep them; a lookup by house name ignores ASCII case and takes the first
//! matching key in that order.

use vstd::prelude::*;

use crate::key_order::{compare_keys, key_lt, lemma_key_order, KeyOrder};
use crate::powers::FireSuperWeaponError;
use crate::text::{eq_ignore_ascii_case, text_eq_ignore_ascii_case};

verus! {

/// One super-weapon charge slot of a house.
#[derive(Clone, Debug)]
pub struct SuperWeaponCharge {
    /// Key of the weapon in `[SuperWeaponTypes]`.
    pub type_key: String,
    /// Ticks charged so far.
    pub charge_ticks: u32,
    /// Ticks needed to be ready.
    pub required_ticks: u32,
}

/// A charge slot as plain values.
pub struct ChargeView {
    pub type_key: Seq<char>,
    pub charge_ticks: u32,
    pub required_ticks: u32,
}

impl View for SuperWeaponCharge {
    type V = ChargeView;

    open spec fn view(&self) -> ChargeView {
        ChargeView { type_key: self.type_key@, charge_ticks: self.charge_ticks, required_ticks: self.required_ticks }
    }
}

/// A slot is ready once it needs some ticks and has charged all of them.
pub open spec fn charge_ready(c: ChargeView) -> bool {
    c.required_ticks > 0 && c.charge_ticks >= c.required_ticks
}

impl SuperWeaponCharge {
    /// Whether the weapon is charged and may fire.
    pub fn is_ready(&self) -> (r: bool)
        ensures
            r == charge_ready(self@),
    {
        self.required_ticks > 0 && self.charge_ticks >= self.required_ticks
    }
}

/// The slots of a house as plain values.
pub open spec fn slots_view(s: Seq<SuperWeaponCharge>) -> Seq<ChargeView> {
    s.map_values(|c: SuperWeaponCharge| c@)
}

/// The charge slots of one house.
#[derive(Clone, Debug)]
struct HouseCharges {
    house: String,
    slots: Vec<SuperWeaponCharge>,
}

/// A house's slots as plain values.
pub struct HouseChargesView {
    pub house: Seq<char>,
    pub slots: Seq<ChargeView>,
}

/// Super-weapon charging of a match, per house.
#[derive(Clone, Debug)]
pub struct SuperWeaponRuntime {
    by_house: Vec<HouseCharges>,
}

impl View for SuperWeaponRuntime {
    type V = Seq<HouseChargesView>;

    /// The houses in key order, each with its slots.
    closed spec fn view(&self) -> Seq<HouseChargesView> {
        self.by_house@.map_values(|h: HouseCharges| HouseChargesView { house: h.house@, slots: slots_view(h.slots@) })
    }
}

/// Within a house: no weapon twice, and every slot needs at least one tick.
pub open spec fn slots_wf(s: Seq<ChargeView>) -> bool {
    &&& forall|j: int, k: int| 0 <= j < k < s.len() ==> s[j].type_key != s[k].type_key
    &&& forall|j: int| 0 <= j < s.len() ==> (#[trigger] s[j]).required_ticks >= 1
}

/// Houses strictly in key order (so no house twice), each with sound slots.
pub open spec fn runtime_wf(v: Seq<HouseChargesView>) -> bool {
    &&& forall|i: int, j: int| 0 <= i < j < v.len() ==> key_lt(#[trigger] v[i].house, #[trigger] v[j].house)
    &&& forall|i: int| 0 <= i < v.len() ==> slots_wf(#[trigger] v[i].slots)
}

/// Whether house key `house` has an entry (exact key).
pub open spec fn has_house(v: Seq<HouseChargesView>, house: Seq<char>) -> bool {
    exists|i: int| 0 <= i < v.len() && (#[trigger] v[i]).house == house
}

/// The slots of house key `house` (none when it has no entry).
pub open spec fn slots_of(v: Seq<HouseChargesView>, house: Seq<char>) -> Seq<ChargeView> {
    if has_house(v, house) {
        v[choose|i: int| 0 <= i < v.len() && (#[trigger] v[i]).house == house].slots
    } else {
        Seq::empty()
    }
}

/// The runtime as a map from exact house key to slots.
pub open spec fn entries(v: Seq<HouseChargesView>) -> Map<Seq<char>, Seq<ChargeView>> {
    Map::new(|k: Seq<char>| has_house(v, k), |k: Seq<char>| slots_of(v, k))
}

/// Entry `i` is the first whose key matches `house` up to ASCII case.
pub open spec fn first_match_at(v: Seq<HouseChargesView>, house: Seq<char>, i: int) -> bool {
    &&& 0 <= i < v.len()
    &&& text_eq_ignore_ascii_case(v[i].house, house)
    &&& forall|j: int| 0 <= j < i ==> !text_eq_ignore_ascii_case(#[trigger] v[j].house, house)
}

/// The slots of the first house (in key order) whose key matches `house` up
/// to ASCII case.
pub open spec fn house_charges(v: Seq<HouseChargesView>, house: Seq<char>) -> Option<Seq<ChargeView>> {
    if exists|i: int| first_match_at(v, house, i) {
        Some(v[choose|i: int| first_match_at(v, house, i)].slots)
    } else {
        None
    }
}

/// The slot of weapon `key` (exact key) among `s`.
pub open spec fn slot_in(s: Seq<ChargeView>, key: Seq<char>) -> Option<ChargeView> {
    if has_slot(s, key) {
        Some(s[slot_index(s, key)])
    } else {
        None
    }
}

/// Whether weapon `key` (exact key) has a slot among `s`.
pub open spec fn has_slot(s: Seq<ChargeView>, key: Seq<char>) -> bool {
    exists|j: int| 0 <= j < s.len() && (#[trigger] s[j]).type_key == key
}

/// Index of the slot of weapon `key` among `s` (when it has one).
pub open spec fn slot_index(s: Seq<ChargeView>, key: Seq<char>) -> int {
    choose|j: int| 0 <= j < s.len() && (#[trigger] s[j]).type_key == key
}

/// The charge of weapon `key` for the house that `house` names.
pub open spec fn charge_of(v: Seq<HouseChargesView>, house: Seq<char>, key: Seq<char>) -> Option<ChargeView> {
    match house_charges(v, house) {
        Some(s) => slot_in(s, key),
        None => None,
    }
}

proof fn lemma_first_match_unique(v: Seq<HouseChargesView>, house: Seq<char>, i: int, k: int)
    requires
        first_match_at(v, house, i),
        first_match_at(v, house, k),
    ensures
        i == k,
{
    if i < k {
        assert(!text_eq_ignore_ascii_case(v[i].house, house));
    } else if k < i {
        assert(!text_eq_ignore_ascii_case(v[k].house, house));
    }
}

proof fn lemma_house_charges_at(v: Seq<HouseChargesView>, house: Seq<char>, i: int)
    requires
        first_match_at(v, house, i),
    ensures
        house_charges(v, house) == Some(v[i].slots),
{
    let k = choose|k: int| first_match_at(v, house, k);
    lemma_first_match_unique(v, house, i, k);
}

proof fn lemma_slot_in_at(s: Seq<ChargeView>, key: Seq<char>, j: int)
    requires
        slots_wf(s),
        0 <= j < s.len(),
        s[j].type_key == key,
    ensures
        has_slot(s, key),
        slot_index(s, key) == j,
        slot_in(s, key) == Some(s[j]),
{
    assert(has_slot(s, key));
    let k = slot_index(s, key);
    if k < j {
        assert(s[k].type_key != s[j].type_key);
    } else if j < k {
        assert(s[j].type_key != s[k].type_key);
    }
}

proof fn lemma_sorted_distinct(v: Seq<HouseChargesView>)
    requires
        runtime_wf(v),
    ensures
        forall|i: int, j: int| 0 <= i < v.len() && 0 <= j < v.len() && i != j ==> v[i].house != v[j].house,
{
    assert forall|i: int, j: int| 0 <= i < v.len() && 0 <= j < v.len() && i != j implies v[i].house != v[j].house by {
        lemma_key_order(v[i].house, v[j].house, v[j].house);
        if i < j {
            assert(key_lt(v[i].house, v[j].house));
        } else {
            assert(key_lt(v[j].house, v[i].house));
        }
    }
}

proof fn lemma_entries_at(v: Seq<HouseChargesView>, i: int)
    requires
        runtime_wf(v),
        0 <= i < v.len(),
    ensures
        entries(v).contains_key(v[i].house),
        entries(v)[v[i].house] == v[i].slots,
        slots_of(v, v[i].house) == v[i].slots,
{
    lemma_sorted_distinct(v);
    assert(has_house(v, v[i].house));
    let k = choose|k: int| 0 <= k < v.len() && (#[trigger] v[k]).house == v[i].house;
    assert(k == i);
}

impl SuperWeaponRuntime {
    /// Well formed: houses in key order, sound slots.
    pub open spec fn wf(&self) -> bool {
        runtime_wf(self@)
    }

    /// A runtime with no house.
    pub fn new() -> (rt: Self)
        ensures
            rt.wf(),
            rt@ == Seq::<HouseChargesView>::empty(),
    {
        let rt = SuperWeaponRuntime { by_house: Vec::new() };
        assert(rt@ =~= Seq::<HouseChargesView>::empty());
        rt
    }

    /// Index of the first house, in key order, whose key matches `house` up
    /// to ASCII case.
    fn first_house_match(&self, house: &str) -> (r: Option<usize>)
        ensures
            match r {
                Some(i) => first_match_at(self@, house@, i as int),
                None => forall|i: int| 0 <= i < self@.len() ==> !text_eq_ignore_ascii_case(#[trigger] self@[i].house, house@),
            },
    {
        let mut i: usize = 0;
        while i < self.by_house.len()
            invariant
                i <= self@.len(),
                self@.len() == self.by_house@.len(),
                forall|j: int| 0 <= j < i ==> !text_eq_ignore_ascii_case(#[trigger] self@[j].house, house@),
            decreases self.by_house@.len() - i,
        {
            if eq_ignore_ascii_case(self.by_house[i].house.as_str(), house) {
                return Some(i);
            }
            i = i + 1;
        }
        None
    }

    /// The slots of the first house, in key order, whose key matches
    /// `house` up to ASCII case.
    pub fn charges_for_house(&self, house: &str) -> (r: Option<&[SuperWeaponCharge]>)
        ensures
            match house_charges(self@, house@) {
                Some(s) => r is Some && slots_view(r.unwrap()@) == s,
                None => r is None,
            },
    {
        match self.first_house_match(house) {
            Some(i) => {
                proof {
                    lemma_house_charges_at(self@, house@, i as int);
                }
                let r = self.by_house[i].slots.as_slice();
                assert(slots_view(r@) =~= self@[i as int].slots);
                Some(r)
            },
            None => {
                assert(!exists|i: int| first_match_at(self@, house@, i));
                None
            },
        }
    }
}

/// Index of the slot of weapon `key` (exact key).
fn find_slot(slots: &[SuperWeaponCharge], key: &str) -> (r: Option<usize>)
    ensures
        match r {
            Some(j) => j < slots@.len() && slots@[j as int].type_key@ == key@,
            None => forall|j: int| 0 <= j < slots@.len() ==> (#[trigger] slots@[j]).type_key@ != key@,
        },
{
    let mut j: usize = 0;
    while j < slots.len()
        invariant
            j <= slots@.len(),
            forall|k: int| 0 <= k < j ==> (#[trigger] slots@[k]).type_key@ != key@,
        decreases slots@.len() - j,
    {
        if crate::text::same_text(slots[j].type_key.as_str(), key) {
            return Some(j);
        }
        j = j + 1;
    }
    None
}

impl SuperWeaponRuntime {
    /// The charge of weapon `key` for the house that `house` names (first
    /// house in key order matching up to ASCII case).
    pub fn charge(&self, house: &str, key: &str) -> (r: Option<&SuperWeaponCharge>)
        requires
            self.wf(),
        ensures
            match charge_of(self@, house@, key@) {
                Some(c) => r is Some && r.unwrap()@ == c,
                None => r is None,
            },
    {
        match self.charges_for_house(house) {
            Some(list) => {
                let ghost s = house_charges(self@, house@).unwrap();
                proof {
                    let i = choose|i: int| first_match_at(self@, house@, i);
                    assert(slots_wf(self@[i].slots));
                }
                match find_slot(list, key) {
                    Some(j) => {
                        proof {
                            assert(s[j as int] == list@[j as int]@);
                            lemma_slot_in_at(s, key@, j as int);
                        }
                        Some(&list[j])
                    },
                    None => {
                        assert forall|j: int| 0 <= j < s.len() implies (#[trigger] s[j]).type_key != key@ by {
                            assert(s[j] == list@[j]@);
                        }
                        None
                    },
                }
            },
            None => None,
        }
    }
}


/// `required` raised to at least one tick.
pub open spec fn at_least_one(required: u32) -> u32 {
    if required > 1 {
        required
    } else {
        1
    }
}

/// Slots after making sure weapon `key` has one that needs `required` ticks:
/// an existing slot keeps its charge, a new one starts empty.
pub open spec fn with_required(s: Seq<ChargeView>, key: Seq<char>, required: u32) -> Seq<ChargeView> {
    if has_slot(s, key) {
        let j = slot_index(s, key);
        s.update(j, ChargeView { type_key: key, charge_ticks: s[j].charge_ticks, required_ticks: required })
    } else {
        s.push(ChargeView { type_key: key, charge_ticks: 0, required_ticks: required })
    }
}

proof fn lemma_entries_update(v: Seq<HouseChargesView>, i: int, e: HouseChargesView)
    requires
        runtime_wf(v),
        0 <= i < v.len(),
        e.house == v[i].house,
        runtime_wf(v.update(i, e)),
    ensures
        entries(v.update(i, e)) == entries(v).insert(e.house, e.slots),
{
    let w = v.update(i, e);
    lemma_sorted_distinct(v);
    lemma_sorted_distinct(w);
    let m = entries(v).insert(e.house, e.slots);
    assert forall|k: Seq<char>| #[trigger] entries(w).contains_key(k) <==> m.contains_key(k) by {
        if has_house(v, k) {
            let j = choose|j: int| 0 <= j < v.len() && (#[trigger] v[j]).house == k;
            assert(w[j].house == k);
        }
        if has_house(w, k) {
            let j = choose|j: int| 0 <= j < w.len() && (#[trigger] w[j]).house == k;
            if j != i {
                assert(v[j].house == k);
            }
        }
    }
    assert forall|k: Seq<char>| #[trigger] entries(w).contains_key(k) implies entries(w)[k] == m[k] by {
        let j = choose|j: int| 0 <= j < w.len() && (#[trigger] w[j]).house == k;
        lemma_entries_at(w, j);
        if j == i {
        } else {
            lemma_entries_at(v, j);
            assert(v[j] == w[j]);
        }
    }
    assert(entries(w) =~= m);
}

proof fn lemma_entries_insert(v: Seq<HouseChargesView>, p: int, e: HouseChargesView)
    requires
        runtime_wf(v),
        0 <= p <= v.len(),
        !has_house(v, e.house),
        runtime_wf(v.insert(p, e)),
    ensures
        entries(v.insert(p, e)) == entries(v).insert(e.house, e.slots),
{
    let w = v.insert(p, e);
    lemma_sorted_distinct(v);
    lemma_sorted_distinct(w);
    let m = entries(v).insert(e.house, e.slots);
    assert forall|k: Seq<char>| #[trigger] entries(w).contains_key(k) <==> m.contains_key(k) by {
        if has_house(v, k) {
            let j = choose|j: int| 0 <= j < v.len() && (#[trigger] v[j]).house == k;
            if j < p {
                assert(w[j].house == k);
            } else {
                assert(w[j + 1].house == k);
            }
        }
        if k == e.house {
            assert(w[p].house == k);
        }
        if has_house(w, k) {
            let j = choose|j: int| 0 <= j < w.len() && (#[trigger] w[j]).house == k;
            if j < p {
                assert(v[j].house == k);
            } else if j > p {
                assert(v[j - 1].house == k);
            }
        }
    }
    assert forall|k: Seq<char>| #[trigger] entries(w).contains_key(k) implies entries(w)[k] == m[k] by {
        let j = choose|j: int| 0 <= j < w.len() && (#[trigger] w[j]).house == k;
        lemma_entries_at(w, j);
        if j < p {
            lemma_entries_at(v, j);
            assert(v[j] == w[j]);
        } else if j > p {
            lemma_entries_at(v, j - 1);
            assert(v[j - 1] == w[j]);
        }
    }
    assert(entries(w) =~= m);
}

proof fn lemma_with_required_wf(s: Seq<ChargeView>, key: Seq<char>, required: u32)
    requires
        slots_wf(s),
        required >= 1,
    ensures
        slots_wf(with_required(s, key, required)),
{
}

impl SuperWeaponRuntime {
    /// Where house key `house` stands (exact key): its index, or the index
    /// at which it would be inserted to keep the key order.
    fn locate_house(&self, house: &str) -> (r: Result<usize, usize>)
        requires
            self.wf(),
        ensures
            match r {
                Ok(i) => i < self@.len() && self@[i as int].house == house@,
                Err(p) => {
                    &&& p <= self@.len()
                    &&& forall|i: int| 0 <= i < p ==> key_lt(#[trigger] self@[i].house, house@)
                    &&& forall|i: int| p <= i < self@.len() ==> key_lt(house@, #[trigger] self@[i].house)
                },
            },
    {
        let mut i: usize = 0;
        while i < self.by_house.len()
            invariant
                i <= self@.len(),
                self@.len() == self.by_house@.len(),
                runtime_wf(self@),
                forall|j: int| 0 <= j < i ==> key_lt(#[trigger] self@[j].house, house@),
            decreases self.by_house@.len() - i,
        {
            match compare_keys(self.by_house[i].house.as_str(), house) {
                KeyOrder::Before => {},
                KeyOrder::Same => {
                    return Ok(i);
                },
                KeyOrder::After => {
                    proof {
                        assert forall|j: int| i <= j < self@.len() implies key_lt(house@, #[trigger] self@[j].house) by {
                            if j > i {
                                assert(key_lt(self@[i as int].house, self@[j].house));
                                lemma_key_order(house@, self@[i as int].house, self@[j].house);
                            }
                        }
                    }
                    return Err(i);
                },
            }
            i = i + 1;
        }
        Err(i)
    }

    /// Makes sure house key `house` (exact key) has a slot for weapon `key`
    /// that needs `required` ticks (at least one): a new house or slot is
    /// added, an existing slot keeps its charge.
    fn ensure_slot(&mut self, house: &str, key: &str, required: u32)
        requires
            old(self).wf(),
        ensures
            final(self).wf(),
            entries(final(self)@) == entries(old(self)@).insert(
                house@,
                with_required(slots_of(old(self)@, house@), key@, at_least_one(required)),
            ),
    {
        let ghost v0 = self@;
        let i = match self.locate_house(house) {
            Ok(i) => {
                proof {
                    lemma_entries_at(v0, i as int);
                }
                i
            },
            Err(p) => {
                let e = HouseCharges { house: house.to_owned(), slots: Vec::new() };
                self.by_house.insert(p, e);
                proof {
                    let ev = HouseChargesView { house: house@, slots: Seq::empty() };
                    assert(slots_view(e.slots@) =~= Seq::<ChargeView>::empty());
                    assert(self@ =~= v0.insert(p as int, ev));
                    assert(!has_house(v0, house@)) by {
                        if has_house(v0, house@) {
                            let j = choose|j: int| 0 <= j < v0.len() && (#[trigger] v0[j]).house == house@;
                            lemma_key_order(house@, house@, house@);
                            if j < p {
                                assert(key_lt(v0[j].house, house@));
                            } else {
                                assert(key_lt(house@, v0[j].house));
                            }
                        }
                    }
                    assert forall|a: int, b: int| 0 <= a < b < self@.len() implies key_lt(
                        #[trigger] self@[a].house,
                        #[trigger] self@[b].house,
                    ) by {
                        if b < p {
                        } else if a < p && b == p {
                        } else if a < p && b > p {
                            assert(self@[b].house == v0[b - 1].house);
                        } else if a == p {
                            assert(self@[b].house == v0[b - 1].house);
                        } else {
                            assert(self@[a].house == v0[a - 1].house);
                            assert(self@[b].house == v0[b - 1].house);
                        }
                    }
                    assert forall|a: int| 0 <= a < self@.len() implies slots_wf(#[trigger] self@[a].slots) by {
                        if a < p {
                            assert(self@[a] == v0[a]);
                        } else if a > p {
                            assert(self@[a] == v0[a - 1]);
                        }
                    }
                    lemma_entries_insert(v0, p as int, ev);
                    lemma_entries_at(self@, p as int);
                }
                p
            },
        };
        let ghost v1 = self@;
        let ghost s1 = v1[i as int].slots;
        let req: u32 = if required > 1 {
            required
        } else {
            1
        };
        let mut slots = Vec::new();
        std::mem::swap(&mut slots, &mut self.by_house[i].slots);
        assert(slots_view(slots@) == s1);
        match find_slot(slots.as_slice(), key) {
            Some(j) => {
                let old_charge = slots[j].charge_ticks;
                slots.set(j, SuperWeaponCharge { type_key: key.to_owned(), charge_ticks: old_charge, required_ticks: req });
                proof {
                    assert(s1[j as int].type_key == key@);
                    assert(slots_wf(s1));
                    lemma_slot_in_at(s1, key@, j as int);
                    assert(slots_view(slots@) =~= with_required(s1, key@, req));
                }
            },
            None => {
                slots.push(SuperWeaponCharge { type_key: key.to_owned(), charge_ticks: 0, required_ticks: req });
                proof {
                    assert forall|j: int| 0 <= j < s1.len() implies (#[trigger] s1[j]).type_key != key@ by {
                        assert(s1[j] == slots@[j]@);
                    }
                    assert(slots_view(slots@) =~= with_required(s1, key@, req));
                }
            },
        }
        std::mem::swap(&mut slots, &mut self.by_house[i].slots);
        proof {
            let e = HouseChargesView { house: house@, slots: with_required(s1, key@, req) };
            assert(slots_wf(s1));
            lemma_with_required_wf(s1, key@, req);
            assert(self@ =~= v1.update(i as int, e));
            assert forall|a: int, b: int| 0 <= a < b < self@.len() implies key_lt(
                #[trigger] self@[a].house,
                #[trigger] self@[b].house,
            ) by {
                assert(self@[a].house == v1[a].house);
                assert(self@[b].house == v1[b].house);
            }
            assert forall|a: int| 0 <= a < self@.len() implies slots_wf(#[trigger] self@[a].slots) by {
                if a != i {
                    assert(self@[a] == v1[a]);
                }
            }
            lemma_entries_update(v1, i as int, e);
        }
    }
}


/// The slots of house key `house` in the map form (none when absent).
pub open spec fn map_slots(m: Map<Seq<char>, Seq<ChargeView>>, house: Seq<char>) -> Seq<ChargeView> {
    if m.contains_key(house) {
        m[house]
    } else {
        Seq::empty()
    }
}

/// Slots with weapon `key` holding `charge_ticks` of `required` (the slot
/// is added when missing).
pub open spec fn set_slot(s: Seq<ChargeView>, key: Seq<char>, charge_ticks: u32, required: u32) -> Seq<ChargeView> {
    let c = ChargeView { type_key: key, charge_ticks, required_ticks: required };
    if has_slot(s, key) {
        s.update(slot_index(s, key), c)
    } else {
        s.push(c)
    }
}

/// Slots with the charge of weapon `key` back at zero (unchanged when it
/// has no slot).
pub open spec fn reset_slots(s: Seq<ChargeView>, key: Seq<char>) -> Seq<ChargeView> {
    if has_slot(s, key) {
        let j = slot_index(s, key);
        s.update(j, ChargeView { type_key: key, charge_ticks: 0, required_ticks: s[j].required_ticks })
    } else {
        s
    }
}

/// Slots after one charging tick of weapon `key`: one more tick unless it
/// is already full.
pub open spec fn charge_one(s: Seq<ChargeView>, key: Seq<char>) -> Seq<ChargeView> {
    if has_slot(s, key) && s[slot_index(s, key)].charge_ticks < s[slot_index(s, key)].required_ticks {
        let j = slot_index(s, key);
        s.update(j, ChargeView { type_key: key, charge_ticks: (s[j].charge_ticks + 1) as u32, required_ticks: s[j].required_ticks })
    } else {
        s
    }
}

/// A building that charges a super weapon this tick: its owner, the weapon
/// and the ticks that weapon needs.
#[derive(Clone, Debug)]
pub struct ActiveSuperWeapon {
    pub house: String,
    pub type_key: String,
    pub required_ticks: u32,
}

/// One charging step for an active building: its slot is made sure of, then
/// charged by one tick.
pub open spec fn tick_step(m: Map<Seq<char>, Seq<ChargeView>>, a: ActiveSuperWeapon) -> Map<Seq<char>, Seq<ChargeView>> {
    m.insert(
        a.house@,
        charge_one(with_required(map_slots(m, a.house@), a.type_key@, at_least_one(a.required_ticks)), a.type_key@),
    )
}

/// The charging steps of `active`, in order.
pub open spec fn ticked(m: Map<Seq<char>, Seq<ChargeView>>, active: Seq<ActiveSuperWeapon>) -> Map<
    Seq<char>,
    Seq<ChargeView>,
>
    decreases active.len(),
{
    if active.len() == 0 {
        m
    } else {
        tick_step(ticked(m, active.drop_last()), active.last())
    }
}

/// Ticks a super weapon needs for its `RechargeTime` (at least one unit),
/// saturating.
pub open spec fn required_ticks(recharge_time: i32) -> u32 {
    let units: int = if recharge_time > 1 {
        recharge_time as int
    } else {
        1
    };
    let t = units * (crate::powers::SUPER_WEAPON_TICKS_PER_RECHARGE_UNIT as int);
    if t > u32::MAX {
        u32::MAX
    } else {
        t as u32
    }
}

/// Ticks a super weapon with this `RechargeTime` needs to charge.
pub fn required_ticks_for_sw(recharge_time: i32) -> (t: u32)
    ensures
        t == required_ticks(recharge_time),
{
    let units: u32 = if recharge_time > 1 {
        recharge_time as u32
    } else {
        1
    };
    match units.checked_mul(crate::powers::SUPER_WEAPON_TICKS_PER_RECHARGE_UNIT) {
        Some(t) => t,
        None => u32::MAX,
    }
}

proof fn lemma_slots_of_entries(v: Seq<HouseChargesView>, house: Seq<char>)
    ensures
        slots_of(v, house) == map_slots(entries(v), house),
{
}

impl SuperWeaponRuntime {
    /// Replaces slot `j` of the house at index `i` by `c` (same weapon).
    fn update_slot(&mut self, i: usize, j: usize, c: SuperWeaponCharge)
        requires
            old(self).wf(),
            i < old(self)@.len(),
            j < old(self)@[i as int].slots.len(),
            c.type_key@ == old(self)@[i as int].slots[j as int].type_key,
            c.required_ticks >= 1,
        ensures
            final(self).wf(),
            final(self)@ == old(self)@.update(
                i as int,
                HouseChargesView { house: old(self)@[i as int].house, slots: old(self)@[i as int].slots.update(j as int, c@) },
            ),
            entries(final(self)@) == entries(old(self)@).insert(
                old(self)@[i as int].house,
                old(self)@[i as int].slots.update(j as int, c@),
            ),
    {
        let ghost v0 = self@;
        let ghost e = HouseChargesView { house: v0[i as int].house, slots: v0[i as int].slots.update(j as int, c@) };
        let mut slots = Vec::new();
        std::mem::swap(&mut slots, &mut self.by_house[i].slots);
        assert(slots_view(slots@) == v0[i as int].slots);
        slots.set(j, c);
        assert(slots_view(slots@) =~= e.slots);
        std::mem::swap(&mut slots, &mut self.by_house[i].slots);
        proof {
            assert(self@ =~= v0.update(i as int, e));
            assert(slots_wf(v0[i as int].slots));
            assert(slots_wf(e.slots)) by {
                assert forall|a: int, b: int| 0 <= a < b < e.slots.len() implies e.slots[a].type_key
                    != e.slots[b].type_key by {
                    assert(v0[i as int].slots[a].type_key != v0[i as int].slots[b].type_key);
                }
            }
            assert forall|a: int, b: int| 0 <= a < b < self@.len() implies key_lt(
                #[trigger] self@[a].house,
                #[trigger] self@[b].house,
            ) by {
                assert(self@[a].house == v0[a].house);
                assert(self@[b].house == v0[b].house);
            }
            assert forall|a: int| 0 <= a < self@.len() implies slots_wf(#[trigger] self@[a].slots) by {
                if a != i {
                    assert(self@[a] == v0[a]);
                }
            }
            lemma_entries_update(v0, i as int, e);
        }
    }

    /// Where the slot of weapon `key` of house key `house` (exact keys)
    /// stands.
    fn locate_slot(&self, house: &str, key: &str) -> (r: Option<(usize, usize)>)
        requires
            self.wf(),
        ensures
            match r {
                Some((i, j)) => {
                    &&& i < self@.len()
                    &&& self@[i as int].house == house@
                    &&& j < self@[i as int].slots.len()
                    &&& self@[i as int].slots[j as int].type_key == key@
                    &&& entries(self@).contains_key(house@)
                    &&& entries(self@)[house@] == self@[i as int].slots
                    &&& slot_index(self@[i as int].slots, key@) == j
                },
                None => !(entries(self@).contains_key(house@) && has_slot(entries(self@)[house@], key@)),
            },
    {
        match self.locate_house(house) {
            Ok(i) => {
                proof {
                    lemma_entries_at(self@, i as int);
                    assert(slots_wf(self@[i as int].slots));
                }
                match find_slot(self.by_house[i].slots.as_slice(), key) {
                    Some(j) => {
                        proof {
                            assert(self@[i as int].slots[j as int] == self.by_house@[i as int].slots@[j as int]@);
                            lemma_slot_in_at(self@[i as int].slots, key@, j as int);
                        }
                        Some((i, j))
                    },
                    None => {
                        assert forall|j: int| 0 <= j < self@[i as int].slots.len() implies (
                        #[trigger] self@[i as int].slots[j]).type_key != key@ by {
                            assert(self@[i as int].slots[j] == self.by_house@[i as int].slots@[j]@);
                        }
                        None
                    },
                }
            },
            Err(p) => {
                proof {
                    if has_house(self@, house@) {
                        let j = choose|j: int| 0 <= j < self@.len() && (#[trigger] self@[j]).house == house@;
                        lemma_key_order(house@, house@, house@);
                        if j < p {
                            assert(key_lt(self@[j].house, house@));
                        } else {
                            assert(key_lt(house@, self@[j].house));
                        }
                    }
                }
                None
            },
        }
    }

    /// Sets the charge of weapon `key` for house key `house` (exact keys):
    /// the slot needs `required_ticks` (at least one) and holds
    /// `charge_ticks`, capped at that; a missing house or slot is added.
    pub fn set_charge_for_test(&mut self, house: &str, key: &str, charge_ticks: u32, required_ticks: u32)
        requires
            old(self).wf(),
        ensures
            final(self).wf(),
            entries(final(self)@) == entries(old(self)@).insert(
                house@,
                set_slot(
                    map_slots(entries(old(self)@), house@),
                    key@,
                    if charge_ticks < at_least_one(required_ticks) {
                        charge_ticks
                    } else {
                        at_least_one(required_ticks)
                    },
                    at_least_one(required_ticks),
                ),
            ),
    {
        let ghost v0 = self@;
        let req: u32 = if required_ticks > 1 {
            required_ticks
        } else {
            1
        };
        self.ensure_slot(house, key, req);
        let ghost s0 = map_slots(entries(v0), house@);
        let ghost w = with_required(s0, key@, req);
        proof {
            lemma_slots_of_entries(v0, house@);
            assert(entries(self@)[house@] == w);
            if has_slot(s0, key@) {
                assert(w[slot_index(s0, key@)].type_key == key@);
            } else {
                assert(w[s0.len() as int].type_key == key@);
            }
        }
        let charge = if charge_ticks < req {
            charge_ticks
        } else {
            req
        };
        match self.locate_slot(house, key) {
            Some((i, j)) => {
                let c = SuperWeaponCharge { type_key: key.to_owned(), charge_ticks: charge, required_ticks: req };
                self.update_slot(i, j, c);
                proof {
                    let cv = ChargeView { type_key: key@, charge_ticks: charge, required_ticks: req };
                    assert(c@ == cv);
                    if has_slot(s0, key@) {
                        let j0 = slot_index(s0, key@);
                        assert(w[j0].type_key == key@);
                        assert(slots_wf(w));
                        lemma_slot_in_at(w, key@, j0);
                        assert(w.update(j as int, cv) =~= s0.update(j0, cv));
                    } else {
                        assert(w[s0.len() as int].type_key == key@);
                        lemma_slot_in_at(w, key@, s0.len() as int);
                        assert(w.update(j as int, cv) =~= s0.push(cv));
                    }
                    assert(entries(self@) =~= entries(v0).insert(house@, set_slot(s0, key@, charge, req)));
                }
            },
            None => {
                proof {
                    if has_slot(s0, key@) {
                        assert(w[slot_index(s0, key@)].type_key == key@);
                    } else {
                        assert(w[s0.len() as int].type_key == key@);
                    }
                    assert(has_slot(w, key@));
                }
            },
        }
    }

    /// Clears the charge of weapon `key` of house key `house` (exact keys)
    /// after it fired; nothing happens when there is no such slot.
    pub fn reset_charge(&mut self, house: &str, key: &str)
        requires
            old(self).wf(),
        ensures
            final(self).wf(),
            entries(final(self)@) == if entries(old(self)@).contains_key(house@) {
                entries(old(self)@).insert(house@, reset_slots(entries(old(self)@)[house@], key@))
            } else {
                entries(old(self)@)
            },
    {
        let ghost v0 = self@;
        match self.locate_slot(house, key) {
            Some((i, j)) => {
                let req = self.by_house[i].slots[j].required_ticks;
                proof {
                    assert(self@[i as int].slots[j as int] == self.by_house@[i as int].slots@[j as int]@);
                    assert(slots_wf(self@[i as int].slots));
                }
                let c = SuperWeaponCharge { type_key: key.to_owned(), charge_ticks: 0, required_ticks: req };
                self.update_slot(i, j, c);
            },
            None => {
                proof {
                    if entries(v0).contains_key(house@) {
                        assert(entries(v0).insert(house@, reset_slots(entries(v0)[house@], key@)) =~= entries(v0));
                    }
                }
            },
        }
    }

    /// One charging step for a building of `a.house` that charges `a.type_key`.
    fn charge_active(&mut self, a: &ActiveSuperWeapon)
        requires
            old(self).wf(),
        ensures
            final(self).wf(),
            entries(final(self)@) == tick_step(entries(old(self)@), *a),
    {
        let ghost v0 = self@;
        let house = a.house.as_str();
        let key = a.type_key.as_str();
        self.ensure_slot(house, key, a.required_ticks);
        let ghost req = at_least_one(a.required_ticks);
        let ghost s0 = map_slots(entries(v0), house@);
        let ghost w = with_required(s0, key@, req);
        proof {
            lemma_slots_of_entries(v0, house@);
            if has_slot(s0, key@) {
                assert(w[slot_index(s0, key@)].type_key == key@);
            } else {
                assert(w[s0.len() as int].type_key == key@);
            }
        }
        match self.locate_slot(house, key) {
            Some((i, j)) => {
                let cur = self.by_house[i].slots[j].charge_ticks;
                let need = self.by_house[i].slots[j].required_ticks;
                proof {
                    assert(self@[i as int].slots[j as int] == self.by_house@[i as int].slots@[j as int]@);
                    assert(slots_wf(self@[i as int].slots));
                }
                if cur < need {
                    let c = SuperWeaponCharge { type_key: key.to_owned(), charge_ticks: cur + 1, required_ticks: need };
                    self.update_slot(i, j, c);
                    proof {
                        assert(entries(self@) =~= tick_step(entries(v0), *a));
                    }
                } else {
                    proof {
                        assert(charge_one(w, key@) == w);
                        assert(entries(v0).insert(house@, w) =~= tick_step(entries(v0), *a));
                    }
                }
            },
            None => {
                assert(has_slot(w, key@));
            },
        }
    }
}

/// Advances super-weapon charging by one tick: for each active building in
/// turn, its house's slot for the weapon is made sure of (needing the
/// weapon's ticks) and charged by one tick unless already full.
pub fn tick_super_weapon_charges(rt: &mut SuperWeaponRuntime, active: &[ActiveSuperWeapon])
    requires
        old(rt).wf(),
    ensures
        final(rt).wf(),
        entries(final(rt)@) == ticked(entries(old(rt)@), active@),
{
    let ghost m0 = entries(rt@);
    let mut k: usize = 0;
    while k < active.len()
        invariant
            k <= active@.len(),
            rt.wf(),
            entries(rt@) == ticked(m0, active@.take(k as int)),
        decreases active@.len() - k,
    {
        rt.charge_active(&active[k]);
        proof {
            assert(active@.take(k + 1).drop_last() =~= active@.take(k as int));
        }
        k = k + 1;
    }
    assert(active@.take(k as int) =~= active@);
}


impl Default for SuperWeaponRuntime {
    fn default() -> (rt: Self)
        ensures
            rt.wf(),
            rt@ == Seq::<HouseChargesView>::empty(),
    {
        SuperWeaponRuntime::new()
    }
}

/// Which slots a charge condition looks at.
#[derive(Clone, Debug)]
pub enum WeaponFilter {
    /// Every slot of the house.
    AnyWeapon,
    /// Only the slot of this weapon key.
    Weapon(String),
    /// A weapon was named but is not in the definitions: no slot.
    UnknownWeapon,
}

/// Whether slot `c` passes filter `f`.
pub open spec fn passes_filter(c: ChargeView, f: WeaponFilter) -> bool {
    match f {
        WeaponFilter::AnyWeapon => true,
        WeaponFilter::Weapon(k) => c.type_key == k@,
        WeaponFilter::UnknownWeapon => false,
    }
}

/// Charge of a slot in percent of what it needs (rounded down; the result
/// is narrowed to `i32` as the game does).
pub open spec fn charge_percent(c: ChargeView) -> i32 {
    ((c.charge_ticks as int * 100) / (at_least_one(c.required_ticks) as int)) as i32
}

/// The highest charge percentage among the slots that pass `f`, and at
/// least zero.
pub open spec fn best_percent(s: Seq<ChargeView>, f: WeaponFilter) -> i32
    decreases s.len(),
{
    if s.len() == 0 {
        0
    } else {
        let b = best_percent(s.drop_last(), f);
        if passes_filter(s.last(), f) && charge_percent(s.last()) > b {
            charge_percent(s.last())
        } else {
            b
        }
    }
}

/// Charge percentage that an AI condition on a house's super weapons reads:
/// the best among the slots of the house that `house` names which pass the
/// filter; zero when the house has no slot.
pub fn own_super_weapon_charge_percent(rt: &SuperWeaponRuntime, house: &str, filter: &WeaponFilter) -> (pct: i32)
    ensures
        pct == match house_charges(rt@, house@) {
            Some(s) => best_percent(s, *filter),
            None => 0,
        },
{
    let list = match rt.charges_for_house(house) {
        Some(list) => list,
        None => {
            return 0;
        },
    };
    let ghost s = slots_view(list@);
    let mut best: i32 = 0;
    let mut k: usize = 0;
    while k < list.len()
        invariant
            k <= list@.len(),
            s == slots_view(list@),
            best == best_percent(s.take(k as int), *filter),
        decreases list@.len() - k,
    {
        let c = &list[k];
        let passes = match filter {
            WeaponFilter::AnyWeapon => true,
            WeaponFilter::Weapon(key) => crate::text::same_text(c.type_key.as_str(), key.as_str()),
            WeaponFilter::UnknownWeapon => false,
        };
        let req: u64 = if c.required_ticks > 1 {
            c.required_ticks as u64
        } else {
            1
        };
        let pct = #[verifier::truncate] (((c.charge_ticks as u64 * 100) / req) as i32);
        proof {
            assert(s.take(k + 1).drop_last() =~= s.take(k as int));
            assert(s.take(k + 1).last() == c@);
        }
        if passes && pct > best {
            best = pct;
        }
        k = k + 1;
    }
    assert(s.take(k as int) =~= s);
    best
}

/// Outcome of the checks made before a super weapon fires, in order: the
/// weapon must be known, the house must have a living building that provides
/// it, the weapon must be charged, and its kind must have an effect.
pub open spec fn fire_check(
    v: Seq<HouseChargesView>,
    house: Seq<char>,
    weapon: Option<Seq<char>>,
    has_provider: bool,
    has_executor: bool,
) -> Result<(), FireSuperWeaponError> {
    match weapon {
        None => Err(FireSuperWeaponError::UnknownType),
        Some(key) => if !has_provider {
            Err(FireSuperWeaponError::NoProvider)
        } else if !(charge_of(v, house, key) matches Some(c) && charge_ready(c)) {
            Err(FireSuperWeaponError::NotReady)
        } else if !has_executor {
            Err(FireSuperWeaponError::UnsupportedKind)
        } else {
            Ok(())
        },
    }
}

/// The checks made before house `house` fires weapon `weapon` (`None`: the
/// type is not in the definitions). `has_provider` says whether the house has
/// a living building that provides the weapon, `has_executor` whether its
/// kind has an effect.
pub fn check_super_weapon_fire(
    rt: &SuperWeaponRuntime,
    house: &str,
    weapon: Option<&str>,
    has_provider: bool,
    has_executor: bool,
) -> (r: Result<(), FireSuperWeaponError>)
    requires
        rt.wf(),
    ensures
        r == fire_check(
            rt@,
            house@,
            match weapon {
                Some(w) => Some(w@),
                None => None,
            },
            has_provider,
            has_executor,
        ),
{
    let key = match weapon {
        Some(w) => w,
        None => {
            return Err(FireSuperWeaponError::UnknownType);
        },
    };
    if !has_provider {
        return Err(FireSuperWeaponError::NoProvider);
    }
    let ready = match rt.charge(house, key) {
        Some(c) => c.is_ready(),
        None => false,
    };
    if !ready {
        return Err(FireSuperWeaponError::NotReady);
    }
    if !has_executor {
        return Err(FireSuperWeaponError::UnsupportedKind);
    }
    Ok(())
}

/// Fires weapon `weapon` for `house` as far as the charging goes: the checks
/// of [`check_super_weapon_fire`]; on success the charge of house key `house`
/// goes back to zero, unless `consumes_charge` is false (a first click that
/// only arms the weapon). A refused shot changes nothing.
pub fn try_fire_super_weapon(
    rt: &mut SuperWeaponRuntime,
    house: &str,
    weapon: Option<&str>,
    has_provider: bool,
    has_executor: bool,
    consumes_charge: bool,
) -> (r: Result<(), FireSuperWeaponError>)
    requires
        old(rt).wf(),
    ensures
        final(rt).wf(),
        r == fire_check(
            old(rt)@,
            house@,
            match weapon {
                Some(w) => Some(w@),
                None => None,
            },
            has_provider,
            has_executor,
        ),
        match (r, weapon) {
            (Ok(()), Some(w)) => entries(final(rt)@) == if consumes_charge && entries(old(rt)@).contains_key(house@) {
                entries(old(rt)@).insert(house@, reset_slots(entries(old(rt)@)[house@], w@))
            } else {
                entries(old(rt)@)
            },
            _ => final(rt)@ == old(rt)@,
        },
{
    let r = check_super_weapon_fire(rt, house, weapon, has_provider, has_executor);
    match r {
        Ok(()) => {
            if consumes_charge {
                match weapon {
                    Some(w) => rt.reset_charge(house, w),
                    None => {},
                }
            }
        },
        Err(_) => {},
    }
    r
}


/// Charging steps of the same active building repeated `n` times.
pub open spec fn repeat_tick(m: Map<Seq<char>, Seq<ChargeView>>, a: ActiveSuperWeapon, n: nat) -> Map<
    Seq<char>,
    Seq<ChargeView>,
>
    decreases n,
{
    if n == 0 {
        m
    } else {
        tick_step(repeat_tick(m, a, (n - 1) as nat), a)
    }
}

proof fn lemma_only_house_matches(after: Seq<HouseChargesView>, before: Seq<HouseChargesView>, house: Seq<char>)
    requires
        runtime_wf(after),
        entries(after).dom() == entries(before).dom().insert(house),
        forall|i: int| 0 <= i < before.len() && text_eq_ignore_ascii_case(#[trigger] before[i].house, house) ==> before[i].house
            == house,
    ensures
        exists|i: int| first_match_at(after, house, i) && after[i].house == house,
        house_charges(after, house) == Some(entries(after)[house]),
{
    lemma_sorted_distinct(after);
    assert(entries(after).contains_key(house));
    let i = choose|i: int| 0 <= i < after.len() && (#[trigger] after[i]).house == house;
    assert forall|j: int| 0 <= j < after.len() && text_eq_ignore_ascii_case(#[trigger] after[j].house, house) implies after[j].house
        == house by {
        assert(entries(after).contains_key(after[j].house));
        if after[j].house != house {
            assert(entries(before).contains_key(after[j].house));
            let b = choose|b: int| 0 <= b < before.len() && (#[trigger] before[b]).house == after[j].house;
            assert(text_eq_ignore_ascii_case(before[b].house, house));
        }
    }
    assert forall|j: int| 0 <= j < i implies !text_eq_ignore_ascii_case(#[trigger] after[j].house, house) by {
        if text_eq_ignore_ascii_case(after[j].house, house) {
            assert(after[j].house == house);
        }
    }
    assert(first_match_at(after, house, i));
    lemma_house_charges_at(after, house, i);
    lemma_entries_at(after, i);
}

/// What is set is what is read: after `set_charge_for_test` with house key
/// `house`, the charge read for the house that `house` names is the one that
/// was set (charge capped at the required ticks, which are at least one),
/// provided no other house key matches `house` up to ASCII case.
pub proof fn law_set_charge_reads_back(
    before: Seq<HouseChargesView>,
    after: Seq<HouseChargesView>,
    house: Seq<char>,
    key: Seq<char>,
    charge_ticks: u32,
    required_ticks: u32,
)
    requires
        runtime_wf(before),
        runtime_wf(after),
        entries(after) == entries(before).insert(
            house,
            set_slot(
                map_slots(entries(before), house),
                key,
                if charge_ticks < at_least_one(required_ticks) {
                    charge_ticks
                } else {
                    at_least_one(required_ticks)
                },
                at_least_one(required_ticks),
            ),
        ),
        forall|i: int| 0 <= i < before.len() && text_eq_ignore_ascii_case(#[trigger] before[i].house, house) ==> before[i].house
            == house,
    ensures
        charge_of(after, house, key) == Some(
            ChargeView {
                type_key: key,
                charge_ticks: if charge_ticks < at_least_one(required_ticks) {
                    charge_ticks
                } else {
                    at_least_one(required_ticks)
                },
                required_ticks: at_least_one(required_ticks),
            },
        ),
{
    assert(entries(after).dom() =~= entries(before).dom().insert(house));
    lemma_only_house_matches(after, before, house);
    let i = choose|i: int| first_match_at(after, house, i) && after[i].house == house;
    assert(slots_wf(after[i].slots));
    lemma_entries_at(after, i);
    let s0 = map_slots(entries(before), house);
    let s1 = entries(after)[house];
    if has_slot(s0, key) {
        let j = slot_index(s0, key);
        lemma_slot_in_at(s1, key, j);
    } else {
        lemma_slot_in_at(s1, key, s0.len() as int);
    }
}

/// A fired weapon starts charging anew: after `reset_charge` of an existing
/// slot, the charge read for the house is zero and not ready (provided no
/// other house key matches `house` up to ASCII case).
pub proof fn law_reset_clears_charge(
    before: Seq<HouseChargesView>,
    after: Seq<HouseChargesView>,
    house: Seq<char>,
    key: Seq<char>,
)
    requires
        runtime_wf(before),
        runtime_wf(after),
        entries(before).contains_key(house),
        has_slot(entries(before)[house], key),
        entries(after) == entries(before).insert(house, reset_slots(entries(before)[house], key)),
        forall|i: int| 0 <= i < before.len() && text_eq_ignore_ascii_case(#[trigger] before[i].house, house) ==> before[i].house
            == house,
    ensures
        charge_of(after, house, key) matches Some(c) && c.charge_ticks == 0 && !charge_ready(c),
{
    assert(entries(after).dom() =~= entries(before).dom().insert(house));
    lemma_only_house_matches(after, before, house);
    let i = choose|i: int| first_match_at(after, house, i) && after[i].house == house;
    assert(slots_wf(after[i].slots));
    lemma_entries_at(after, i);
    let s0 = entries(before)[house];
    let s1 = entries(after)[house];
    let j = slot_index(s0, key);
    lemma_slot_in_at(s1, key, j);
}

/// A building charging its weapon every tick from an empty slot has charged
/// `min(n, required)` ticks after `n` ticks, so the weapon is ready exactly
/// once `n` reaches the ticks it needs.
pub proof fn law_charging_fills_in_required_ticks(m: Map<Seq<char>, Seq<ChargeView>>, a: ActiveSuperWeapon, n: nat)
    requires
        m.contains_key(a.house@),
        slots_wf(m[a.house@]),
        has_slot(m[a.house@], a.type_key@),
        m[a.house@][slot_index(m[a.house@], a.type_key@)].charge_ticks == 0,
        m[a.house@][slot_index(m[a.house@], a.type_key@)].required_ticks == at_least_one(a.required_ticks),
    ensures
        slot_in(map_slots(repeat_tick(m, a, n), a.house@), a.type_key@) == Some(
            ChargeView {
                type_key: a.type_key@,
                charge_ticks: if n < at_least_one(a.required_ticks) {
                    n as u32
                } else {
                    at_least_one(a.required_ticks)
                },
                required_ticks: at_least_one(a.required_ticks),
            },
        ),
        slot_in(map_slots(repeat_tick(m, a, n), a.house@), a.type_key@) matches Some(c) && (charge_ready(c) <==> n
            >= at_least_one(a.required_ticks)),
    decreases n,
{
    let h = a.house@;
    let k = a.type_key@;
    let req = at_least_one(a.required_ticks);
    if n == 0 {
        lemma_slot_in_at(m[h], k, slot_index(m[h], k));
        let c = m[h][slot_index(m[h], k)];
        assert(c == ChargeView { type_key: k, charge_ticks: 0, required_ticks: req });
    } else {
        law_charging_fills_in_required_ticks(m, a, (n - 1) as nat);
        let mp = repeat_tick(m, a, (n - 1) as nat);
        lemma_repeat_tick_keeps_slot(m, a, (n - 1) as nat);
        let s = map_slots(mp, h);
        let j = slot_index(s, k);
        lemma_slot_in_at(s, k, j);
        let w = with_required(s, k, req);
        assert(w =~= s);
        let t = charge_one(w, k);
        lemma_slot_in_at(t, k, j);
        assert(map_slots(repeat_tick(m, a, n), h) == t);
    }
}

proof fn lemma_repeat_tick_keeps_slot(m: Map<Seq<char>, Seq<ChargeView>>, a: ActiveSuperWeapon, n: nat)
    requires
        m.contains_key(a.house@),
        slots_wf(m[a.house@]),
        has_slot(m[a.house@], a.type_key@),
        m[a.house@][slot_index(m[a.house@], a.type_key@)].required_ticks == at_least_one(a.required_ticks),
    ensures
        repeat_tick(m, a, n).contains_key(a.house@),
        slots_wf(repeat_tick(m, a, n)[a.house@]),
        has_slot(repeat_tick(m, a, n)[a.house@], a.type_key@),
        repeat_tick(m, a, n)[a.house@][slot_index(repeat_tick(m, a, n)[a.house@], a.type_key@)].required_ticks
            == at_least_one(a.required_ticks),
    decreases n,
{
    if n > 0 {
        lemma_repeat_tick_keeps_slot(m, a, (n - 1) as nat);
        let h = a.house@;
        let k = a.type_key@;
        let req = at_least_one(a.required_ticks);
        let s = repeat_tick(m, a, (n - 1) as nat)[h];
        let j = slot_index(s, k);
        lemma_slot_in_at(s, k, j);
        let w = with_required(s, k, req);
        assert(w =~= s);
        let t = charge_one(w, k);
        assert(slots_wf(t));
        lemma_slot_in_at(t, k, j);
    }
}

} // verus!
