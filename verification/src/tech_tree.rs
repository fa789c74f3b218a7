//! Tech tree: whether a type may appear on a player's build or production
//! bar, from its definition, the player's tech state and the keys of the
//! player's living structures (upper-cased type ids).

use vstd::prelude::*;

use crate::players::{house_list_allows, list_has_house, TechTreePlayer};
use crate::text::{is_upper_of, same_text, to_ascii_upper};

verus! {

/// One prerequisite, with its definition lookups done.
#[derive(Clone, Debug)]
pub enum PrerequisiteToken {
    /// A prerequisite group, as the type keys that belong to it.
    Group(Vec<String>),
    /// A type bound to an id: its key, or `None` when the id names no type.
    Type(Option<String>),
    /// A type key not bound to an id (empty means no requirement).
    UnboundType(String),
}

/// What the tech tree reads of a type's definition.
#[derive(Clone, Debug)]
pub struct TechnoRules {
    /// Tech level (negative: never buildable).
    pub tech_level: i32,
    /// Houses of which one is required (empty: any).
    pub required_houses: Vec<String>,
    /// Houses that may not build it.
    pub forbidden_houses: Vec<String>,
    pub requires_stolen_allied_tech: bool,
    pub requires_stolen_soviet_tech: bool,
    pub requires_stolen_third_tech: bool,
    /// A building that is a construction yard (never offered on the bar).
    pub construction_yard: bool,
    /// All of these must hold ...
    pub prerequisite: Vec<PrerequisiteToken>,
    /// ... unless one of these holds.
    pub prerequisite_override: Vec<PrerequisiteToken>,
}

/// `key` is one of the living structure keys.
pub open spec fn has_living_key(living: Seq<String>, key: Seq<char>) -> bool {
    exists|i: int| 0 <= i < living.len() && (#[trigger] living[i])@ == key
}

/// The upper-casing of some type of `types` is a living structure key.
pub open spec fn owns_any_of(living: Seq<String>, types: Seq<String>) -> bool {
    exists|t: int, i: int|
        0 <= t < types.len() && 0 <= i < living.len() && is_upper_of(#[trigger] living[i]@, #[trigger] types[t]@)
}

/// Whether a prerequisite token holds.
pub open spec fn token_holds(living: Seq<String>, token: PrerequisiteToken) -> bool {
    match token {
        PrerequisiteToken::Group(types) => owns_any_of(living, types@),
        PrerequisiteToken::Type(key) => match key {
            Some(k) => has_living_key(living, k@),
            None => false,
        },
        PrerequisiteToken::UnboundType(k) => k@.len() == 0 || has_living_key(living, k@),
    }
}

/// Some token of `tokens` holds.
pub open spec fn any_token_holds(living: Seq<String>, tokens: Seq<PrerequisiteToken>) -> bool {
    exists|i: int| 0 <= i < tokens.len() && token_holds(living, #[trigger] tokens[i])
}

/// Every token of `tokens` holds.
pub open spec fn all_tokens_hold(living: Seq<String>, tokens: Seq<PrerequisiteToken>) -> bool {
    forall|i: int| 0 <= i < tokens.len() ==> token_holds(living, #[trigger] tokens[i])
}

/// Prerequisites of a type: one override token, or else every token.
pub open spec fn prerequisites_hold(living: Seq<String>, techno: TechnoRules) -> bool {
    (techno.prerequisite_override@.len() > 0 && any_token_holds(living, techno.prerequisite_override@))
        || all_tokens_hold(living, techno.prerequisite@)
}

/// Whether a type is eligible for a player (funds and power not counted).
pub open spec fn eligible(
    techno: TechnoRules,
    player: TechTreePlayer,
    owner_allowed: bool,
    living: Seq<String>,
) -> bool {
    &&& 0 <= techno.tech_level <= player.tech_level
    &&& owner_allowed
    &&& techno.required_houses@.len() == 0 || list_has_house(techno.required_houses@, player.house@)
    &&& techno.forbidden_houses@.len() == 0 || !list_has_house(techno.forbidden_houses@, player.house@)
    &&& techno.requires_stolen_allied_tech ==> player.stolen_allied_tech
    &&& techno.requires_stolen_soviet_tech ==> player.stolen_soviet_tech
    &&& techno.requires_stolen_third_tech ==> player.stolen_third_tech
    &&& !techno.construction_yard
    &&& prerequisites_hold(living, techno)
}

/// Whether `key` is one of the living structure keys.
fn living_has_key(living: &[String], key: &str) -> (r: bool)
    ensures
        r == has_living_key(living@, key@),
{
    let mut i: usize = 0;
    while i < living.len()
        invariant
            i <= living@.len(),
            forall|j: int| 0 <= j < i ==> (#[trigger] living@[j])@ != key@,
        decreases living@.len() - i,
    {
        if same_text(living[i].as_str(), key) {
            return true;
        }
        i = i + 1;
    }
    false
}

/// Whether the upper-casing of some type of `types` is a living structure
/// key.
pub fn owns_any(living: &[String], types: &[String]) -> (r: bool)
    ensures
        r == owns_any_of(living@, types@),
{
    let mut t: usize = 0;
    while t < types.len()
        invariant
            t <= types@.len(),
            forall|a: int, i: int|
                0 <= a < t && 0 <= i < living@.len() ==> !is_upper_of(#[trigger] living@[i]@, #[trigger] types@[a]@),
        decreases types@.len() - t,
    {
        let up = to_ascii_upper(types[t].as_str());
        let mut i: usize = 0;
        while i < living.len()
            invariant
                t < types@.len(),
                i <= living@.len(),
                is_upper_of(up@, types@[t as int]@),
                forall|a: int, j: int|
                    0 <= a < t && 0 <= j < living@.len() ==> !is_upper_of(#[trigger] living@[j]@, #[trigger] types@[a]@),
                forall|j: int| 0 <= j < i ==> !is_upper_of(#[trigger] living@[j]@, types@[t as int]@),
            decreases living@.len() - i,
        {
            let hit = same_text(living[i].as_str(), up.as_str());
            proof {
                vstd::utf8::encode_utf8_decode_utf8(living@[i as int]@);
                vstd::utf8::encode_utf8_decode_utf8(up@);
            }
            if hit {
                return true;
            }
            i = i + 1;
        }
        t = t + 1;
    }
    false
}

/// Whether one prerequisite token holds.
pub fn token_satisfied(living: &[String], token: &PrerequisiteToken) -> (r: bool)
    ensures
        r == token_holds(living@, *token),
{
    match token {
        PrerequisiteToken::Group(types) => owns_any(living, types.as_slice()),
        PrerequisiteToken::Type(key) => match key {
            Some(k) => living_has_key(living, k.as_str()),
            None => false,
        },
        PrerequisiteToken::UnboundType(k) => {
            if k.as_str().is_empty() {
                true
            } else {
                living_has_key(living, k.as_str())
            }
        },
    }
}

/// Whether a type's prerequisites hold: one override token suffices,
/// otherwise every prerequisite token must hold.
pub fn prerequisites_met(living: &[String], techno: &TechnoRules) -> (r: bool)
    ensures
        r == prerequisites_hold(living@, *techno),
{
    let overrides = &techno.prerequisite_override;
    let mut i: usize = 0;
    while i < overrides.len()
        invariant
            i <= overrides@.len(),
            overrides@ == techno.prerequisite_override@,
            forall|j: int| 0 <= j < i ==> !token_holds(living@, #[trigger] overrides@[j]),
        decreases overrides@.len() - i,
    {
        if token_satisfied(living, &overrides[i]) {
            return true;
        }
        i = i + 1;
    }
    let tokens = &techno.prerequisite;
    let mut k: usize = 0;
    while k < tokens.len()
        invariant
            k <= tokens@.len(),
            tokens@ == techno.prerequisite@,
            !any_token_holds(living@, techno.prerequisite_override@),
            forall|j: int| 0 <= j < k ==> token_holds(living@, #[trigger] tokens@[j]),
        decreases tokens@.len() - k,
    {
        if !token_satisfied(living, &tokens[k]) {
            return false;
        }
        k = k + 1;
    }
    true
}

/// Whether a type may appear on the player's bar (funds and power are not
/// checked here). `techno` is the type's definition, `None` for an unknown
/// type; `owner_allowed` is whether the type's owner list admits the player.
pub fn is_type_eligible(
    techno: Option<&TechnoRules>,
    player: TechTreePlayer,
    owner_allowed: bool,
    living: &[String],
) -> (r: bool)
    ensures
        r == match techno {
            Some(t) => eligible(*t, player, owner_allowed, living@),
            None => false,
        },
{
    let techno = match techno {
        Some(t) => t,
        None => return false,
    };
    if techno.tech_level < 0 || techno.tech_level > player.tech_level {
        return false;
    }
    if !owner_allowed {
        return false;
    }
    if techno.required_houses.len() != 0 && !house_list_allows(techno.required_houses.as_slice(), player.house) {
        return false;
    }
    if techno.forbidden_houses.len() != 0 && house_list_allows(techno.forbidden_houses.as_slice(), player.house) {
        return false;
    }
    if techno.requires_stolen_allied_tech && !player.stolen_allied_tech {
        return false;
    }
    if techno.requires_stolen_soviet_tech && !player.stolen_soviet_tech {
        return false;
    }
    if techno.requires_stolen_third_tech && !player.stolen_third_tech {
        return false;
    }
    if techno.construction_yard {
        return false;
    }
    prerequisites_met(living, techno)
}

/// Every living structure key of `living` also stands in `more`.
pub open spec fn ids_within(living: Seq<String>, more: Seq<String>) -> bool {
    forall|i: int| 0 <= i < living.len() ==> exists|j: int| 0 <= j < more.len() && (#[trigger] more[j])@ == (
    #[trigger] living[i])@
}

/// A token that holds keeps holding with more living structures.
proof fn lemma_token_monotone(living: Seq<String>, more: Seq<String>, token: PrerequisiteToken)
    requires
        ids_within(living, more),
        token_holds(living, token),
    ensures
        token_holds(more, token),
{
    match token {
        PrerequisiteToken::Group(types) => {
            let (t, i) = choose|t: int, i: int|
                0 <= t < types@.len() && 0 <= i < living.len() && is_upper_of(#[trigger] living[i]@, #[trigger] types@[t]@);
            let j = choose|j: int| 0 <= j < more.len() && (#[trigger] more[j])@ == living[i]@;
            assert(is_upper_of(more[j]@, types@[t]@));
        },
        PrerequisiteToken::Type(key) => {
            if let Some(k) = key {
                let i = choose|i: int| 0 <= i < living.len() && (#[trigger] living[i])@ == k@;
                let j = choose|j: int| 0 <= j < more.len() && (#[trigger] more[j])@ == living[i]@;
                assert(more[j]@ == k@);
            }
        },
        PrerequisiteToken::UnboundType(k) => {
            if k@.len() != 0 {
                let i = choose|i: int| 0 <= i < living.len() && (#[trigger] living[i])@ == k@;
                let j = choose|j: int| 0 <= j < more.len() && (#[trigger] more[j])@ == living[i]@;
                assert(more[j]@ == k@);
            }
        },
    }
}

/// More living structures never take a type off the bar: eligibility only
/// grows with the set of living structures.
pub proof fn law_eligibility_grows_with_structures(
    techno: TechnoRules,
    player: TechTreePlayer,
    owner_allowed: bool,
    living: Seq<String>,
    more: Seq<String>,
)
    requires
        ids_within(living, more),
        eligible(techno, player, owner_allowed, living),
    ensures
        eligible(techno, player, owner_allowed, more),
{
    if techno.prerequisite_override@.len() > 0 && any_token_holds(living, techno.prerequisite_override@) {
        let i = choose|i: int|
            0 <= i < techno.prerequisite_override@.len() && token_holds(living, #[trigger] techno.prerequisite_override@[i]);
        lemma_token_monotone(living, more, techno.prerequisite_override@[i]);
    } else {
        assert forall|i: int| 0 <= i < techno.prerequisite@.len() implies token_holds(
            more,
            #[trigger] techno.prerequisite@[i],
        ) by {
            lemma_token_monotone(living, more, techno.prerequisite@[i]);
        }
    }
}

} // verus!
