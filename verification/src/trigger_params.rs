//! Parameters of map trigger events and actions: the white space they are
//! trimmed of, the numbers they hold, and the house names among them.

use vstd::prelude::*;

use crate::text::same_text;

verus! {

/// Unicode `White_Space`, the set `str::trim` removes.
pub open spec fn is_white_space(c: char) -> bool {
    let u = c as u32;
    (9 <= u <= 13) || u == 32 || u == 0x85 || u == 0xa0 || u == 0x1680 || (0x2000 <= u <= 0x200a) || u
        == 0x2028 || u == 0x2029 || u == 0x202f || u == 0x205f || u == 0x3000
}

/// Number of white-space characters `s` starts with.
pub open spec fn leading_white(s: Seq<char>) -> nat
    decreases s.len(),
{
    if s.len() > 0 && is_white_space(s[0]) {
        1 + leading_white(s.drop_first())
    } else {
        0
    }
}

/// Number of white-space characters `s` ends with.
pub open spec fn trailing_white(s: Seq<char>) -> nat
    decreases s.len(),
{
    if s.len() > 0 && is_white_space(s.last()) {
        1 + trailing_white(s.drop_last())
    } else {
        0
    }
}

/// `s` without its leading and trailing white space.
pub open spec fn trimmed(s: Seq<char>) -> Seq<char> {
    let t = s.skip(leading_white(s) as int);
    t.take(t.len() - trailing_white(t))
}

/// Value of a string of decimal digits.
pub open spec fn decimal(d: Seq<char>) -> int
    decreases d.len(),
{
    if d.len() == 0 {
        0
    } else {
        decimal(d.drop_last()) * 10 + (d.last() as int - '0' as int)
    }
}

/// A non-empty string of ASCII decimal digits.
pub open spec fn is_digits(d: Seq<char>) -> bool {
    d.len() > 0 && forall|i: int| 0 <= i < d.len() ==> '0' <= #[trigger] d[i] <= '9'
}

/// `s` without one leading `+`.
pub open spec fn unsigned_digits(s: Seq<char>) -> Seq<char> {
    if s.len() > 0 && s[0] == '+' {
        s.drop_first()
    } else {
        s
    }
}

/// What `str::parse::<u32>` gives: an optional `+` then decimal digits,
/// within range; nothing else is accepted (no white space, no `-`).
pub open spec fn parsed_u32(s: Seq<char>) -> Option<u32> {
    let d = unsigned_digits(s);
    if is_digits(d) && decimal(d) <= u32::MAX {
        Some(decimal(d) as u32)
    } else {
        None
    }
}

/// What `str::parse::<i32>` gives: an optional `+` or `-` then decimal
/// digits, within range.
pub open spec fn parsed_i32(s: Seq<char>) -> Option<i32> {
    if s.len() > 0 && s[0] == '-' {
        let d = s.drop_first();
        if is_digits(d) && decimal(d) <= 0x8000_0000 {
            Some((-decimal(d)) as i32)
        } else {
            None
        }
    } else {
        let d = unsigned_digits(s);
        if is_digits(d) && decimal(d) <= i32::MAX {
            Some(decimal(d) as i32)
        } else {
            None
        }
    }
}

/// `str::trim`: `s` without leading and trailing white space, white space
/// being Unicode `White_Space` (its documentation).
#[verifier::external_body]
pub(crate) fn trim_text(s: &str) -> (t: &str)
    ensures
        t@ == trimmed(s@),
{
    s.trim()
}

/// Every element of `d` is an ASCII decimal digit (the empty string too).
pub open spec fn all_digits(d: Seq<char>) -> bool {
    forall|i: int| 0 <= i < d.len() ==> '0' <= #[trigger] d[i] <= '9'
}

/// A string of digits is worth no less than any of its prefixes, and
/// nothing below zero.
pub proof fn lemma_decimal_prefix(d: Seq<char>, k: int)
    requires
        all_digits(d),
        0 <= k <= d.len(),
    ensures
        0 <= decimal(d.take(k)) <= decimal(d),
    decreases d.len(),
{
    if k == d.len() {
        assert(d.take(k) =~= d);
        if d.len() > 0 {
            lemma_decimal_prefix(d.drop_last(), k - 1);
            assert(d.drop_last().take(k - 1) =~= d.drop_last());
        }
    } else {
        lemma_decimal_prefix(d.drop_last(), k);
        assert(d.drop_last().take(k) =~= d.take(k));
        lemma_decimal_prefix(d.drop_last(), d.len() - 1);
        assert(d.drop_last().take(d.len() - 1) =~= d.drop_last());
    }
}

/// The value of the digits of `s` from position `start` on, when they are
/// a non-empty run of digits worth at most `limit`.
fn digits_from(s: &str, start: usize, limit: u32) -> (r: Option<u32>)
    requires
        start <= s@.len(),
    ensures
        r == (if is_digits(s@.skip(start as int)) && decimal(s@.skip(start as int)) <= limit {
            Some(decimal(s@.skip(start as int)) as u32)
        } else {
            None
        }),
        r matches Some(v) ==> v <= limit && v == decimal(s@.skip(start as int)),
{
    let n = s.unicode_len();
    let ghost d = s@.skip(start as int);
    if start >= n {
        assert(d.len() == 0);
        return None;
    }
    let mut value: u32 = 0;
    let mut i: usize = start;
    while i < n
        invariant
            start <= i <= n,
            n == s@.len(),
            d == s@.skip(start as int),
            all_digits(d.take(i - start)),
            value == decimal(d.take(i - start)),
            value <= limit,
        decreases n - i,
    {
        let c = s.get_char(i);
        let ghost k: int = i - start;
        assert(d[k] == c);
        assert(d.take(k + 1).drop_last() =~= d.take(k));
        assert(d.take(k + 1).last() == c);
        if c < '0' || c > '9' {
            assert(!all_digits(d));
            return None;
        }
        let digit: u32 = (c as u32) - ('0' as u32);
        assert(all_digits(d.take(k + 1)));
        if (value as u64) * 10 + (digit as u64) > (limit as u64) {
            proof {
                assert(decimal(d.take(k + 1)) == decimal(d.take(k)) * 10 + digit);
                if all_digits(d) {
                    lemma_decimal_prefix(d, k + 1);
                }
            }
            return None;
        }
        value = value * 10 + digit;
        i = i + 1;
    }
    assert(d.take(n - start) =~= d);
    Some(value)
}

/// `str::parse::<u32>`: an optional `+` followed by decimal digits, within
/// range; anything else fails.
pub(crate) fn parse_u32_text(s: &str) -> (r: Option<u32>)
    ensures
        r == parsed_u32(s@),
{
    let n = s.unicode_len();
    if n > 0 && s.get_char(0) == '+' {
        assert(s@.skip(1) =~= s@.drop_first());
        digits_from(s, 1, 0xffff_ffff)
    } else {
        assert(s@.skip(0) =~= s@);
        digits_from(s, 0, 0xffff_ffff)
    }
}

/// `str::parse::<i32>`: an optional `+` or `-` followed by decimal digits,
/// within range; anything else fails.
fn parse_i32_text(s: &str) -> (r: Option<i32>)
    ensures
        r == parsed_i32(s@),
{
    let n = s.unicode_len();
    if n > 0 && s.get_char(0) == '-' {
        assert(s@.skip(1) =~= s@.drop_first());
        match digits_from(s, 1, 0x8000_0000) {
            Some(v) => {
                if v == 0x8000_0000 {
                    Some(-2147483647i32 - 1)
                } else {
                    Some(-(v as i32))
                }
            },
            None => None,
        }
    } else if n > 0 && s.get_char(0) == '+' {
        assert(s@.skip(1) =~= s@.drop_first());
        match digits_from(s, 1, 0x7fff_ffff) {
            Some(v) => Some(v as i32),
            None => None,
        }
    } else {
        assert(s@.skip(0) =~= s@);
        match digits_from(s, 0, 0x7fff_ffff) {
            Some(v) => Some(v as i32),
            None => None,
        }
    }
}

/// The number parameter `p` holds once trimmed, if any.
pub open spec fn number_in(p: Seq<char>) -> Option<u32> {
    let t = trimmed(p);
    if t.len() == 0 {
        None
    } else {
        parsed_u32(t)
    }
}

/// Number held by the trimmed parameter `i`, if it is there.
pub(crate) fn number_at(params: &[String], i: usize) -> (r: Option<u32>)
    ensures
        r == if i < params@.len() {
            number_in(params@[i as int]@)
        } else {
            None
        },
{
    if i >= params.len() {
        return None;
    }
    let t = trim_text(params[i].as_str());
    if t.is_empty() {
        return None;
    }
    parse_u32_text(t)
}

/// Waypoint of an action: the number in its second parameter, else in its
/// first.
pub open spec fn waypoint_param(params: Seq<String>) -> Option<u32> {
    let second = if 1 < params.len() {
        number_in(params[1]@)
    } else {
        None
    };
    if second is Some {
        second
    } else if 0 < params.len() {
        number_in(params[0]@)
    } else {
        None
    }
}

/// Waypoint index of an action (second parameter, else first).
pub fn action_waypoint_index_param(params: &[String]) -> (r: Option<u32>)
    ensures
        r == waypoint_param(params@),
{
    let second = number_at(params, 1);
    if second.is_some() {
        return second;
    }
    number_at(params, 0)
}

/// Timer ticks of an action: the number in its third parameter, else second,
/// else first.
pub open spec fn timer_param(params: Seq<String>) -> Option<u32> {
    let third = if 2 < params.len() {
        number_in(params[2]@)
    } else {
        None
    };
    if third is Some {
        third
    } else {
        waypoint_param(params)
    }
}

/// Timer ticks of an action (third parameter, else second, else first).
pub fn action_timer_ticks_param(params: &[String]) -> (r: Option<u32>)
    ensures
        r == timer_param(params@),
{
    let third = number_at(params, 2);
    if third.is_some() {
        return third;
    }
    action_waypoint_index_param(params)
}

/// Number of an event: the last parameter holding one (empty parameters and
/// non-numbers are passed over).
pub open spec fn event_number(params: Seq<String>) -> Option<u32>
    decreases params.len(),
{
    if params.len() == 0 {
        None
    } else {
        match number_in(params.last()@) {
            Some(n) => Some(n),
            None => event_number(params.drop_last()),
        }
    }
}

/// Number of an event (the last numeric parameter).
pub fn event_numeric_param(params: &[String]) -> (r: Option<u32>)
    ensures
        r == event_number(params@),
{
    let mut i: usize = params.len();
    assert(params@.take(i as int) =~= params@);
    while i > 0
        invariant
            i <= params@.len(),
            event_number(params@) == event_number(params@.take(i as int)),
        decreases i,
    {
        proof {
            assert(params@.take(i as int).drop_last() =~= params@.take(i - 1));
            assert(params@.take(i as int).last() == params@[i - 1]);
        }
        let n = number_at(params, i - 1);
        if n.is_some() {
            return n;
        }
        i = i - 1;
    }
    assert(params@.take(0) =~= Seq::<String>::empty());
    None
}

/// Whether a trimmed parameter names a house for an action: not empty, not
/// `0`, and not a number.
pub open spec fn names_house_for_action(t: Seq<char>) -> bool {
    t.len() > 0 && t != "0"@ && parsed_i32(t) is None
}

/// Whether a trimmed parameter names a house for an event: not empty, not
/// `0` or `-1`, and not a number.
pub open spec fn names_house_for_event(t: Seq<char>) -> bool {
    t.len() > 0 && t != "0"@ && t != "-1"@ && parsed_i32(t) is None
}

/// House named by the last parameter that names one (trimmed).
pub open spec fn house_param(params: Seq<String>, for_event: bool) -> Option<Seq<char>>
    decreases params.len(),
{
    if params.len() == 0 {
        None
    } else {
        let t = trimmed(params.last()@);
        if (if for_event {
            names_house_for_event(t)
        } else {
            names_house_for_action(t)
        }) {
            Some(t)
        } else {
            house_param(params.drop_last(), for_event)
        }
    }
}

/// View of an optional name.
pub open spec fn name_opt(s: Option<String>) -> Option<Seq<char>> {
    match s {
        Some(s) => Some(s@),
        None => None,
    }
}

/// House named by the parameters (the last one that names a house).
fn house_param_of(params: &[String], for_event: bool) -> (r: Option<String>)
    ensures
        name_opt(r) == house_param(params@, for_event),
{
    let mut i: usize = params.len();
    assert(params@.take(i as int) =~= params@);
    while i > 0
        invariant
            i <= params@.len(),
            house_param(params@, for_event) == house_param(params@.take(i as int), for_event),
        decreases i,
    {
        proof {
            assert(params@.take(i as int).drop_last() =~= params@.take(i - 1));
            assert(params@.take(i as int).last() == params@[i - 1]);
        }
        let t = trim_text(params[i - 1].as_str());
        let names = if t.is_empty() || same_text(t, "0") {
            false
        } else if for_event && same_text(t, "-1") {
            false
        } else {
            parse_i32_text(t).is_none()
        };
        if names {
            return Some(t.to_owned());
        }
        i = i - 1;
    }
    assert(params@.take(0) =~= Seq::<String>::empty());
    None
}

/// House named by an action's parameters: the last one that is not empty,
/// not `0` and not a number.
pub fn action_house_param(params: &[String]) -> (r: Option<String>)
    ensures
        name_opt(r) == house_param(params@, false),
{
    house_param_of(params, false)
}

/// House named by an event's parameters: the last one that is not empty,
/// not `0` or `-1` and not a number.
pub fn event_house_param(params: &[String]) -> (r: Option<String>)
    ensures
        name_opt(r) == house_param(params@, true),
{
    house_param_of(params, true)
}

} // verus!
