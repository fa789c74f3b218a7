//! ASCII case-insensitive comparison of house names, difficulty labels and
//! type keys.

use vstd::prelude::*;
use vstd::string::StringSliceAdditionalSpecFns;

verus! {

/// ASCII lower-casing of one byte (other bytes unchanged).
pub open spec fn ascii_lower(b: u8) -> u8 {
    if 65 <= b <= 90 {
        (b + 32) as u8
    } else {
        b
    }
}

/// Equal byte strings up to ASCII case.
pub open spec fn bytes_eq_ignore_ascii_case(a: Seq<u8>, b: Seq<u8>) -> bool {
    &&& a.len() == b.len()
    &&& forall|i: int| 0 <= i < a.len() ==> ascii_lower(#[trigger] a[i]) == ascii_lower(b[i])
}

/// Two texts match up to ASCII case (compared on their UTF-8 bytes).
pub open spec fn text_eq_ignore_ascii_case(a: Seq<char>, b: Seq<char>) -> bool {
    bytes_eq_ignore_ascii_case(vstd::utf8::encode_utf8(a), vstd::utf8::encode_utf8(b))
}

/// Two strings match up to ASCII case (compared on their UTF-8 bytes).
pub open spec fn str_eq_ignore_ascii_case(a: &str, b: &str) -> bool {
    text_eq_ignore_ascii_case(a@, b@)
}

/// Whether `a` and `b` match up to ASCII case.
pub fn eq_ignore_ascii_case(a: &str, b: &str) -> (same: bool)
    ensures
        same == str_eq_ignore_ascii_case(a, b),
{
    let x = a.as_bytes();
    let y = b.as_bytes();
    if x.len() != y.len() {
        return false;
    }
    let n = x.len();
    let mut i: usize = 0;
    while i < n
        invariant
            n == x@.len(),
            n == y@.len(),
            x@ == a.spec_bytes(),
            y@ == b.spec_bytes(),
            i <= n,
            forall|j: int| 0 <= j < i ==> ascii_lower(#[trigger] x@[j]) == ascii_lower(y@[j]),
        decreases n - i,
    {
        let p = lower_byte(x[i]);
        let q = lower_byte(y[i]);
        if p != q {
            return false;
        }
        i += 1;
    }
    true
}

/// ASCII lower-casing of one byte.
fn lower_byte(b: u8) -> (l: u8)
    ensures
        l == ascii_lower(b),
{
    if 65 <= b && b <= 90 {
        b + 32
    } else {
        b
    }
}

/// Case-insensitive matching is an equivalence: reflexive, symmetric and
/// transitive.
pub proof fn law_eq_ignore_ascii_case_is_equivalence(a: Seq<u8>, b: Seq<u8>, c: Seq<u8>)
    ensures
        bytes_eq_ignore_ascii_case(a, a),
        bytes_eq_ignore_ascii_case(a, b) == bytes_eq_ignore_ascii_case(b, a),
        bytes_eq_ignore_ascii_case(a, b) && bytes_eq_ignore_ascii_case(b, c)
            ==> bytes_eq_ignore_ascii_case(a, c),
{
    if bytes_eq_ignore_ascii_case(a, b) {
        assert forall|i: int| 0 <= i < b.len() implies ascii_lower(#[trigger] b[i]) == ascii_lower(a[i]) by {
            assert(ascii_lower(a[i]) == ascii_lower(b[i]));
        }
    }
    if bytes_eq_ignore_ascii_case(b, a) {
        assert forall|i: int| 0 <= i < a.len() implies ascii_lower(#[trigger] a[i]) == ascii_lower(b[i]) by {
            assert(ascii_lower(b[i]) == ascii_lower(a[i]));
        }
    }
    if bytes_eq_ignore_ascii_case(a, b) && bytes_eq_ignore_ascii_case(b, c) {
        assert forall|i: int| 0 <= i < a.len() implies ascii_lower(#[trigger] a[i]) == ascii_lower(c[i]) by {
            assert(ascii_lower(a[i]) == ascii_lower(b[i]));
            assert(ascii_lower(b[i]) == ascii_lower(c[i]));
        }
    }
}

/// ASCII upper-casing of one byte (other bytes unchanged).
pub open spec fn ascii_upper(b: u8) -> u8 {
    if 97 <= b <= 122 {
        (b - 32) as u8
    } else {
        b
    }
}

/// `key` is the ASCII upper-casing of `text` (`str::to_ascii_uppercase`
/// maps the UTF-8 bytes one by one).
pub open spec fn is_upper_of(key: Seq<char>, text: Seq<char>) -> bool {
    vstd::utf8::encode_utf8(key) == vstd::utf8::encode_utf8(text).map_values(|b: u8| ascii_upper(b))
}

/// Whether two strings are equal (compared on their UTF-8 bytes).
pub fn same_text(a: &str, b: &str) -> (r: bool)
    ensures
        r == (a@ == b@),
{
    let x = a.as_bytes();
    let y = b.as_bytes();
    proof {
        vstd::utf8::encode_utf8_decode_utf8(a@);
        vstd::utf8::encode_utf8_decode_utf8(b@);
    }
    if x.len() != y.len() {
        return false;
    }
    let n = x.len();
    let mut i: usize = 0;
    while i < n
        invariant
            n == x@.len(),
            n == y@.len(),
            x@ == a.spec_bytes(),
            y@ == b.spec_bytes(),
            i <= n,
            forall|j: int| 0 <= j < i ==> #[trigger] x@[j] == y@[j],
        decreases n - i,
    {
        if x[i] != y[i] {
            return false;
        }
        i += 1;
    }
    assert(x@ =~= y@);
    true
}

/// The text whose UTF-8 bytes are those of `t`, ASCII upper-cased.
pub open spec fn upper_text(t: Seq<char>) -> Seq<char> {
    vstd::utf8::decode_utf8(vstd::utf8::encode_utf8(t).map_values(|b: u8| ascii_upper(b)))
}

/// `str::to_ascii_uppercase`: a copy with `a` to `z` mapped to `A` to `Z`
/// and every other character unchanged (its documentation); on UTF-8 bytes
/// that is [`ascii_upper`] applied byte by byte.
#[verifier::external_body]
pub fn to_ascii_upper(s: &str) -> (u: String)
    ensures
        is_upper_of(u@, s@),
{
    s.to_ascii_uppercase()
}

/// An upper-casing is the upper text.
pub proof fn lemma_upper_of_is_upper_text(key: Seq<char>, text: Seq<char>)
    requires
        is_upper_of(key, text),
    ensures
        key == upper_text(text),
{
    vstd::utf8::encode_utf8_decode_utf8(key);
}

} // verus!
