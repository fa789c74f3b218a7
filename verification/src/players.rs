//! Per-side state that alliances, funds and the tech tree read.

use vstd::prelude::*;

use vstd::string::StringExecFns;

use crate::text::{eq_ignore_ascii_case, text_eq_ignore_ascii_case};

verus! {

/// One side of the match (house, money, power, tech level and alliances).
#[derive(Debug, Clone)]
pub struct PlayerState {
    /// House (side) name.
    pub house: String,
    /// Current funds.
    pub funds: i32,
    /// Power produced.
    pub power_output: i32,
    /// Power consumed.
    pub power_drain: i32,
    /// Highest tech level the side may build.
    pub tech_level: i32,
    /// Allied tech stolen by a spy.
    pub stolen_allied_tech: bool,
    /// Soviet tech stolen by a spy.
    pub stolen_soviet_tech: bool,
    /// Third-side tech stolen by a spy.
    pub stolen_third_tech: bool,
    /// Houses this side lists as allies.
    pub allies: Vec<String>,
}

/// The view of a player that the tech tree reads.
#[derive(Debug, Clone, Copy)]
pub struct TechTreePlayer<'a> {
    /// House name.
    pub house: &'a str,
    /// Tech level cap.
    pub tech_level: i32,
    /// Allied tech stolen.
    pub stolen_allied_tech: bool,
    /// Soviet tech stolen.
    pub stolen_soviet_tech: bool,
    /// Third-side tech stolen.
    pub stolen_third_tech: bool,
}

impl<'a> TechTreePlayer<'a> {
    /// The tech-tree view of `player`.
    pub fn from_player(player: &'a PlayerState) -> (view: Self)
        ensures
            view.house@ == player.house@,
            view.tech_level == player.tech_level,
            view.stolen_allied_tech == player.stolen_allied_tech,
            view.stolen_soviet_tech == player.stolen_soviet_tech,
            view.stolen_third_tech == player.stolen_third_tech,
    {
        TechTreePlayer {
            house: player.house.as_str(),
            tech_level: player.tech_level,
            stolen_allied_tech: player.stolen_allied_tech,
            stolen_soviet_tech: player.stolen_soviet_tech,
            stolen_third_tech: player.stolen_third_tech,
        }
    }
}

/// Whether some name of `list` matches `house` up to ASCII case.
pub open spec fn list_has_house(list: Seq<String>, house: Seq<char>) -> bool {
    exists|i: int| 0 <= i < list.len() && text_eq_ignore_ascii_case(#[trigger] list[i]@, house)
}

/// Whether `house` appears in `list` (ASCII case ignored).
pub fn house_list_allows(list: &[String], house: &str) -> (allowed: bool)
    ensures
        allowed == list_has_house(list@, house@),
{
    let n = list.len();
    let mut i: usize = 0;
    while i < n
        invariant
            n == list@.len(),
            i <= n,
            forall|j: int| 0 <= j < i ==> !text_eq_ignore_ascii_case(#[trigger] list@[j]@, house@),
        decreases n - i,
    {
        if eq_ignore_ascii_case(list[i].as_str(), house) {
            return true;
        }
        i += 1;
    }
    false
}

/// Index of the first player whose house matches, searching from `i`.
pub open spec fn player_of_from(players: Seq<PlayerState>, house: Seq<char>, i: int) -> Option<int>
    decreases players.len() - i,
{
    if i < 0 || i >= players.len() {
        None
    } else if text_eq_ignore_ascii_case(players[i].house@, house) {
        Some(i)
    } else {
        player_of_from(players, house, i + 1)
    }
}

/// Index of the first player whose house matches.
pub(crate) fn find_player(players: &[PlayerState], house: &str) -> (r: Option<usize>)
    ensures
        r matches Some(i) ==> player_of_from(players@, house@, 0) == Some(i as int) && i < players@.len(),
        r is None ==> player_of_from(players@, house@, 0) is None,
{
    let n = players.len();
    let mut i: usize = 0;
    while i < n
        invariant
            n == players@.len(),
            i <= n,
            player_of_from(players@, house@, 0) == player_of_from(players@, house@, i as int),
        decreases n - i,
    {
        if eq_ignore_ascii_case(players[i].house.as_str(), house) {
            return Some(i);
        }
        i += 1;
    }
    None
}

/// Whether the first player of house `a` lists `b` as an ally.
pub open spec fn lists_ally(players: Seq<PlayerState>, a: Seq<char>, b: Seq<char>) -> bool {
    match player_of_from(players, a, 0) {
        Some(i) => list_has_house(players[i].allies@, b),
        None => false,
    }
}

/// Two houses are allied when they are the same house, or either lists the
/// other as an ally.
pub open spec fn allied(players: Seq<PlayerState>, a: Seq<char>, b: Seq<char>) -> bool {
    text_eq_ignore_ascii_case(a, b) || lists_ally(players, a, b) || lists_ally(players, b, a)
}

/// Whether houses `a` and `b` are allied.
pub fn houses_are_allied(players: &[PlayerState], a: &str, b: &str) -> (r: bool)
    ensures
        r == allied(players@, a@, b@),
{
    if eq_ignore_ascii_case(a, b) {
        return true;
    }
    let a_lists_b = match find_player(players, a) {
        Some(i) => house_list_allows(players[i].allies.as_slice(), b),
        None => false,
    };
    if a_lists_b {
        return true;
    }
    match find_player(players, b) {
        Some(i) => house_list_allows(players[i].allies.as_slice(), a),
        None => false,
    }
}

/// Funds of the first player of the house (0 without such a player).
pub open spec fn funds_of(players: Seq<PlayerState>, house: Seq<char>) -> i32 {
    match player_of_from(players, house, 0) {
        Some(i) => players[i].funds,
        None => 0,
    }
}

/// Funds of the house (0 when no player has it).
pub fn house_funds(players: &[PlayerState], house: &str) -> (funds: i32)
    ensures
        funds == funds_of(players@, house@),
{
    match find_player(players, house) {
        Some(i) => players[i].funds,
        None => 0,
    }
}

/// Alliance is symmetric, and every house is allied with itself.
pub proof fn law_alliance_symmetric(players: Seq<PlayerState>, a: Seq<char>, b: Seq<char>)
    ensures
        allied(players, a, b) == allied(players, b, a),
        allied(players, a, a),
{
    crate::text::law_eq_ignore_ascii_case_is_equivalence(
        vstd::utf8::encode_utf8(a),
        vstd::utf8::encode_utf8(b),
        vstd::utf8::encode_utf8(a),
    );
}

/// Names of a player's allies.
pub open spec fn ally_names(allies: Seq<String>) -> Seq<Seq<char>> {
    allies.map_values(|s: String| s@)
}

/// `names` without the entries that match `other` (ASCII case ignored).
pub open spec fn without_name(names: Seq<Seq<char>>, other: Seq<char>) -> Seq<Seq<char>>
    decreases names.len(),
{
    if names.len() == 0 {
        Seq::empty()
    } else {
        let rest = without_name(names.drop_last(), other);
        if text_eq_ignore_ascii_case(names.last(), other) {
            rest
        } else {
            rest.push(names.last())
        }
    }
}

/// Whether some entry of `names` matches `other` (ASCII case ignored).
pub open spec fn names_have(names: Seq<Seq<char>>, other: Seq<char>) -> bool {
    exists|i: int| 0 <= i < names.len() && text_eq_ignore_ascii_case(#[trigger] names[i], other)
}

/// Ally list after an alliance change toward `other`: made an ally, it is
/// appended unless already listed; made an enemy, every matching entry goes.
pub open spec fn allies_after(names: Seq<Seq<char>>, other: Seq<char>, allied: bool) -> Seq<Seq<char>> {
    if allied {
        if names_have(names, other) {
            names
        } else {
            names.push(other)
        }
    } else {
        without_name(names, other)
    }
}

/// Changes one ally list toward `other`.
fn update_allies(allies: &mut Vec<String>, other: &str, allied: bool)
    ensures
        ally_names(final(allies)@) == allies_after(ally_names(old(allies)@), other@, allied),
{
    let ghost names0 = ally_names(allies@);
    if allied {
        let mut i: usize = 0;
        let mut found = false;
        while i < allies.len() && !found
            invariant
                i <= allies@.len(),
                allies@ == old(allies)@,
                names0 == ally_names(allies@),
                found ==> names_have(names0, other@),
                !found ==> forall|j: int| 0 <= j < i ==> !text_eq_ignore_ascii_case(#[trigger] names0[j], other@),
            decreases allies@.len() - i,
        {
            if eq_ignore_ascii_case(allies[i].as_str(), other) {
                assert(text_eq_ignore_ascii_case(names0[i as int], other@));
                found = true;
            }
            i = i + 1;
        }
        if !found {
            allies.push(String::from_str(other));
            assert(ally_names(allies@) =~= names0.push(other@));
        }
    } else {
        let mut kept: Vec<String> = Vec::new();
        let mut i: usize = 0;
        while i < allies.len()
            invariant
                i <= allies@.len(),
                allies@ == old(allies)@,
                names0 == ally_names(allies@),
                ally_names(kept@) == without_name(names0.take(i as int), other@),
            decreases allies@.len() - i,
        {
            proof {
                assert(names0.take(i + 1).drop_last() =~= names0.take(i as int));
            }
            if !eq_ignore_ascii_case(allies[i].as_str(), other) {
                let ghost before = kept@;
                kept.push(allies[i].clone());
                assert(ally_names(kept@) =~= ally_names(before).push(names0[i as int]));
            }
            i = i + 1;
        }
        assert(names0.take(i as int) =~= names0);
        *allies = kept;
    }
}

/// Player `q` is player `p` with only its allies changed.
pub open spec fn only_allies_changed(p: PlayerState, q: PlayerState) -> bool {
    &&& q.house == p.house
    &&& q.funds == p.funds
    &&& q.power_output == p.power_output
    &&& q.power_drain == p.power_drain
    &&& q.tech_level == p.tech_level
    &&& q.stolen_allied_tech == p.stolen_allied_tech
    &&& q.stolen_soviet_tech == p.stolen_soviet_tech
    &&& q.stolen_third_tech == p.stolen_third_tech
}

/// What an alliance change does to one player: the first player of `a`
/// changes toward `b`, the first of `b` toward `a`; everyone else keeps
/// their list.
pub open spec fn alliance_changed(
    old_players: Seq<PlayerState>,
    new_players: Seq<PlayerState>,
    a: Seq<char>,
    b: Seq<char>,
    allied: bool,
) -> bool {
    &&& new_players.len() == old_players.len()
    &&& forall|j: int|
        0 <= j < old_players.len() ==> only_allies_changed(old_players[j], #[trigger] new_players[j])
    &&& forall|j: int|
        0 <= j < old_players.len() ==> #[trigger] ally_names(new_players[j].allies@) == if player_of_from(
            old_players,
            a,
            0,
        ) == Some(j) {
            allies_after(ally_names(old_players[j].allies@), b, allied)
        } else if player_of_from(old_players, b, 0) == Some(j) {
            allies_after(ally_names(old_players[j].allies@), a, allied)
        } else {
            ally_names(old_players[j].allies@)
        }
}

/// The first match from `i` lies at or after `i`, matches, and nothing
/// between matches.
proof fn lemma_player_of_from(players: Seq<PlayerState>, house: Seq<char>, i: int)
    ensures
        player_of_from(players, house, i) matches Some(k) ==> i <= k < players.len() && text_eq_ignore_ascii_case(
            players[k].house@,
            house,
        ),
    decreases players.len() - i,
{
    if 0 <= i < players.len() && !text_eq_ignore_ascii_case(players[i].house@, house) {
        lemma_player_of_from(players, house, i + 1);
    }
}

/// Makes houses `a` and `b` allies or enemies of each other, on both
/// sides' ally lists (no change when they are the same house; a house
/// without a player is left alone).
pub fn set_houses_allied(players: &mut Vec<PlayerState>, a: &str, b: &str, allied: bool)
    ensures
        text_eq_ignore_ascii_case(a@, b@) ==> final(players)@ == old(players)@,
        !text_eq_ignore_ascii_case(a@, b@) ==> alliance_changed(old(players)@, final(players)@, a@, b@, allied),
{
    if eq_ignore_ascii_case(a, b) {
        return;
    }
    let ghost p0 = players@;
    let ia = find_player(players.as_slice(), a);
    let ib = find_player(players.as_slice(), b);
    proof {
        lemma_player_of_from(p0, a@, 0);
        lemma_player_of_from(p0, b@, 0);
        if ia is Some && ib is Some && ia == ib {
            let k = ia->Some_0 as int;
            crate::text::law_eq_ignore_ascii_case_is_equivalence(
                vstd::utf8::encode_utf8(p0[k].house@),
                vstd::utf8::encode_utf8(a@),
                vstd::utf8::encode_utf8(b@),
            );
            crate::text::law_eq_ignore_ascii_case_is_equivalence(
                vstd::utf8::encode_utf8(a@),
                vstd::utf8::encode_utf8(p0[k].house@),
                vstd::utf8::encode_utf8(b@),
            );
        }
    }
    if let Some(i) = ia {
        let p = &mut players[i];
        update_allies(&mut p.allies, b, allied);
    }
    let ghost p1 = players@;
    if let Some(j) = ib {
        let p = &mut players[j];
        update_allies(&mut p.allies, a, allied);
    }
    proof {
        assert forall|j: int| 0 <= j < p0.len() implies only_allies_changed(p0[j], #[trigger] players@[j]) by {
        }
    }
}

/// Houses are found by their names only: changing ally lists keeps who is
/// the first player of each house.
proof fn lemma_same_houses_same_players(p0: Seq<PlayerState>, p1: Seq<PlayerState>, house: Seq<char>, i: int)
    requires
        p0.len() == p1.len(),
        forall|j: int| 0 <= j < p0.len() ==> (#[trigger] p1[j]).house == p0[j].house,
    ensures
        player_of_from(p1, house, i) == player_of_from(p0, house, i),
    decreases p0.len() - i,
{
    if 0 <= i < p0.len() {
        lemma_same_houses_same_players(p0, p1, house, i + 1);
    }
}

/// Making two different houses allies leaves them allied; making them
/// enemies leaves neither listing the other.
pub proof fn law_alliance_change_takes_effect(
    old_players: Seq<PlayerState>,
    new_players: Seq<PlayerState>,
    a: Seq<char>,
    b: Seq<char>,
    allied: bool,
)
    requires
        !text_eq_ignore_ascii_case(a, b),
        alliance_changed(old_players, new_players, a, b, allied),
        player_of_from(old_players, a, 0) is Some,
        player_of_from(old_players, b, 0) is Some,
    ensures
        allied ==> crate::players::allied(new_players, a, b),
        !allied ==> !lists_ally(new_players, a, b) && !lists_ally(new_players, b, a),
{
    lemma_same_houses_same_players(old_players, new_players, a, 0);
    lemma_same_houses_same_players(old_players, new_players, b, 0);
    let ia = player_of_from(old_players, a, 0)->Some_0;
    let ib = player_of_from(old_players, b, 0)->Some_0;
    lemma_player_of_from(old_players, a, 0);
    lemma_player_of_from(old_players, b, 0);
    if ia == ib {
        crate::text::law_eq_ignore_ascii_case_is_equivalence(
            vstd::utf8::encode_utf8(old_players[ia].house@),
            vstd::utf8::encode_utf8(a),
            vstd::utf8::encode_utf8(b),
        );
        crate::text::law_eq_ignore_ascii_case_is_equivalence(
            vstd::utf8::encode_utf8(a),
            vstd::utf8::encode_utf8(old_players[ia].house@),
            vstd::utf8::encode_utf8(b),
        );
    }
    assert(ia != ib);
    let na = ally_names(old_players[ia].allies@);
    let new_a = ally_names(new_players[ia].allies@);
    assert(new_a == allies_after(na, b, allied));
    if allied {
        if names_have(na, b) {
            let k = choose|k: int| 0 <= k < na.len() && text_eq_ignore_ascii_case(#[trigger] na[k], b);
            assert(new_players[ia].allies@[k]@ == new_a[k]);
        } else {
            let k = na.len() as int;
            assert(new_a[k] == b);
            assert(new_players[ia].allies@[k]@ == b);
            crate::text::law_eq_ignore_ascii_case_is_equivalence(
                vstd::utf8::encode_utf8(b),
                vstd::utf8::encode_utf8(b),
                vstd::utf8::encode_utf8(b),
            );
        }
    } else {
        lemma_without_name(na, b);
        let nb = ally_names(old_players[ib].allies@);
        lemma_without_name(nb, a);
        assert forall|k: int| 0 <= k < new_players[ia].allies@.len() implies !text_eq_ignore_ascii_case(
            #[trigger] new_players[ia].allies@[k]@,
            b,
        ) by {
            assert(new_players[ia].allies@[k]@ == new_a[k]);
        }
        let new_b = ally_names(new_players[ib].allies@);
        assert forall|k: int| 0 <= k < new_players[ib].allies@.len() implies !text_eq_ignore_ascii_case(
            #[trigger] new_players[ib].allies@[k]@,
            a,
        ) by {
            assert(new_players[ib].allies@[k]@ == new_b[k]);
        }
    }
}

/// Dropping the entries that match `other` leaves none that match it.
proof fn lemma_without_name(names: Seq<Seq<char>>, other: Seq<char>)
    ensures
        forall|k: int| 0 <= k < without_name(names, other).len() ==> !text_eq_ignore_ascii_case(
            #[trigger] without_name(names, other)[k],
            other,
        ),
    decreases names.len(),
{
    if names.len() > 0 {
        lemma_without_name(names.drop_last(), other);
        let rest = without_name(names.drop_last(), other);
        assert forall|k: int| 0 <= k < without_name(names, other).len() implies !text_eq_ignore_ascii_case(
            #[trigger] without_name(names, other)[k],
            other,
        ) by {
            if k < rest.len() {
                assert(without_name(names, other)[k] == rest[k]);
            }
        }
    }
}

} // verus!
