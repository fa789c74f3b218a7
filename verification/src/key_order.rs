//! Byte order of text keys, as `String` orders them, and sorted key sets.

use vstd::prelude::*;
use vstd::string::StringSliceAdditionalSpecFns;
use vstd::utf8::encode_utf8;

verus! {

/// Strict lexicographic order of byte strings (a proper prefix comes first).
pub open spec fn bytes_lt(a: Seq<u8>, b: Seq<u8>) -> bool
    decreases a.len(),
{
    if a.len() == 0 {
        b.len() > 0
    } else if b.len() == 0 {
        false
    } else if a[0] != b[0] {
        a[0] < b[0]
    } else {
        bytes_lt(a.drop_first(), b.drop_first())
    }
}

/// Order of two keys: that of their UTF-8 bytes.
pub open spec fn key_lt(a: Seq<char>, b: Seq<char>) -> bool {
    bytes_lt(encode_utf8(a), encode_utf8(b))
}

proof fn lemma_bytes_lt_irreflexive(a: Seq<u8>)
    ensures
        !bytes_lt(a, a),
    decreases a.len(),
{
    if a.len() > 0 {
        lemma_bytes_lt_irreflexive(a.drop_first());
    }
}

proof fn lemma_bytes_lt_asymmetric(a: Seq<u8>, b: Seq<u8>)
    ensures
        !(bytes_lt(a, b) && bytes_lt(b, a)),
    decreases a.len(),
{
    if a.len() > 0 && b.len() > 0 && a[0] == b[0] {
        lemma_bytes_lt_asymmetric(a.drop_first(), b.drop_first());
    }
}

proof fn lemma_bytes_lt_total(a: Seq<u8>, b: Seq<u8>)
    ensures
        a == b || bytes_lt(a, b) || bytes_lt(b, a),
    decreases a.len(),
{
    if a.len() == 0 && b.len() == 0 {
        assert(a =~= b);
    } else if a.len() > 0 && b.len() > 0 && a[0] == b[0] {
        lemma_bytes_lt_total(a.drop_first(), b.drop_first());
        if a.drop_first() == b.drop_first() {
            assert(a =~= b) by {
                assert(a.drop_first().len() == b.drop_first().len());
                assert forall|i: int| 0 <= i < a.len() implies a[i] == b[i] by {
                    if i > 0 {
                        assert(a[i] == a.drop_first()[i - 1]);
                        assert(b[i] == b.drop_first()[i - 1]);
                    }
                }
            }
        }
    }
}

proof fn lemma_bytes_lt_transitive(a: Seq<u8>, b: Seq<u8>, c: Seq<u8>)
    requires
        bytes_lt(a, b),
        bytes_lt(b, c),
    ensures
        bytes_lt(a, c),
    decreases a.len(),
{
    if a.len() > 0 && a[0] == b[0] && b[0] == c[0] {
        lemma_bytes_lt_transitive(a.drop_first(), b.drop_first(), c.drop_first());
    }
}

/// Keys are ordered strictly and totally.
pub proof fn lemma_key_order(a: Seq<char>, b: Seq<char>, c: Seq<char>)
    ensures
        !key_lt(a, a),
        !(key_lt(a, b) && key_lt(b, a)),
        a == b || key_lt(a, b) || key_lt(b, a),
        key_lt(a, b) && key_lt(b, c) ==> key_lt(a, c),
{
    lemma_bytes_lt_irreflexive(encode_utf8(a));
    lemma_bytes_lt_asymmetric(encode_utf8(a), encode_utf8(b));
    lemma_bytes_lt_total(encode_utf8(a), encode_utf8(b));
    if encode_utf8(a) == encode_utf8(b) {
        vstd::utf8::encode_utf8_decode_utf8(a);
        vstd::utf8::encode_utf8_decode_utf8(b);
    }
    if key_lt(a, b) && key_lt(b, c) {
        lemma_bytes_lt_transitive(encode_utf8(a), encode_utf8(b), encode_utf8(c));
    }
}

proof fn lemma_bytes_lt_at(a: Seq<u8>, b: Seq<u8>, i: int)
    requires
        0 <= i,
        i <= a.len(),
        i <= b.len(),
        forall|j: int| 0 <= j < i ==> a[j] == b[j],
        (i == a.len() && i < b.len()) || (i < a.len() && i < b.len() && a[i] < b[i]),
    ensures
        bytes_lt(a, b),
    decreases i,
{
    if i > 0 {
        assert forall|j: int| 0 <= j < i - 1 implies a.drop_first()[j] == b.drop_first()[j] by {
            assert(a[j + 1] == b[j + 1]);
        }
        lemma_bytes_lt_at(a.drop_first(), b.drop_first(), i - 1);
    }
}

/// Result of comparing two keys.
#[derive(Clone, Copy, Debug, PartialEq, Eq, Structural)]
pub enum KeyOrder {
    Before,
    Same,
    After,
}

/// Compares two keys in byte order.
pub fn compare_keys(a: &str, b: &str) -> (r: KeyOrder)
    ensures
        r == KeyOrder::Before <==> key_lt(a@, b@),
        r == KeyOrder::Same <==> a@ == b@,
        r == KeyOrder::After <==> key_lt(b@, a@),
{
    proof {
        lemma_key_order(a@, b@, b@);
    }
    let x = a.as_bytes();
    let y = b.as_bytes();
    let mut i: usize = 0;
    while i < x.len() && i < y.len()
        invariant
            x@ == a.spec_bytes(),
            y@ == b.spec_bytes(),
            i <= x@.len(),
            i <= y@.len(),
            forall|j: int| 0 <= j < i ==> x@[j] == y@[j],
            !(key_lt(a@, b@) && key_lt(b@, a@)),
            !key_lt(a@, a@),
        decreases x@.len() - i,
    {
        if x[i] < y[i] {
            proof {
                lemma_bytes_lt_at(x@, y@, i as int);
            }
            return KeyOrder::Before;
        }
        if y[i] < x[i] {
            proof {
                assert forall|j: int| 0 <= j < i implies y@[j] == x@[j] by {}
                lemma_bytes_lt_at(y@, x@, i as int);
            }
            return KeyOrder::After;
        }
        i = i + 1;
    }
    if x.len() < y.len() {
        proof {
            lemma_bytes_lt_at(x@, y@, i as int);
        }
        KeyOrder::Before
    } else if y.len() < x.len() {
        proof {
            assert forall|j: int| 0 <= j < i implies y@[j] == x@[j] by {}
            lemma_bytes_lt_at(y@, x@, i as int);
        }
        KeyOrder::After
    } else {
        proof {
            assert(x@ =~= y@);
            vstd::utf8::encode_utf8_decode_utf8(a@);
            vstd::utf8::encode_utf8_decode_utf8(b@);
        }
        KeyOrder::Same
    }
}



/// The texts of a list of strings.
pub open spec fn texts(ks: Seq<String>) -> Seq<Seq<char>> {
    ks.map_values(|s: String| s@)
}

/// Keys in strictly increasing order (so none twice).
pub open spec fn strictly_sorted(ks: Seq<Seq<char>>) -> bool {
    forall|i: int, j: int| 0 <= i < j < ks.len() ==> key_lt(#[trigger] ks[i], #[trigger] ks[j])
}

/// Two strictly sorted key lists with the same keys are the same list.
pub proof fn lemma_sorted_unique(a: Seq<Seq<char>>, b: Seq<Seq<char>>)
    requires
        strictly_sorted(a),
        strictly_sorted(b),
        forall|x: Seq<char>| #[trigger] a.contains(x) <==> b.contains(x),
    ensures
        a == b,
    decreases a.len(),
{
    if a.len() == 0 {
        if b.len() > 0 {
            assert(b.contains(b[0]));
            assert(!a.contains(b[0]));
        }
        assert(a =~= b);
    } else {
        assert(a.contains(a[0]));
        assert(b.contains(a[0]));
        assert(b.len() > 0);
        assert(b.contains(b[0]));
        assert(a.contains(b[0]));
        let j = choose|j: int| 0 <= j < b.len() && b[j] == a[0];
        let i = choose|i: int| 0 <= i < a.len() && a[i] == b[0];
        lemma_key_order(a[0], b[0], b[0]);
        if j > 0 {
            assert(key_lt(b[0], b[j]));
            if i > 0 {
                assert(key_lt(a[0], a[i]));
            }
        }
        assert(a[0] == b[0]);
        let a1 = a.drop_first();
        let b1 = b.drop_first();
        assert forall|x: Seq<char>| #[trigger] a1.contains(x) <==> b1.contains(x) by {
            if a1.contains(x) {
                let k = choose|k: int| 0 <= k < a1.len() && a1[k] == x;
                assert(a[k + 1] == x);
                assert(key_lt(a[0], a[k + 1]));
                lemma_key_order(a[0], x, x);
                assert(a.contains(x));
                assert(b.contains(x));
                let m = choose|m: int| 0 <= m < b.len() && b[m] == x;
                assert(m != 0);
                assert(b1[m - 1] == x);
            }
            if b1.contains(x) {
                let k = choose|k: int| 0 <= k < b1.len() && b1[k] == x;
                assert(b[k + 1] == x);
                assert(key_lt(b[0], b[k + 1]));
                lemma_key_order(b[0], x, x);
                assert(b.contains(x));
                assert(a.contains(x));
                let m = choose|m: int| 0 <= m < a.len() && a[m] == x;
                assert(m != 0);
                assert(a1[m - 1] == x);
            }
        }
        assert forall|p: int, q: int| 0 <= p < q < a1.len() implies key_lt(#[trigger] a1[p], #[trigger] a1[q]) by {
            assert(a1[p] == a[p + 1]);
            assert(a1[q] == a[q + 1]);
        }
        assert forall|p: int, q: int| 0 <= p < q < b1.len() implies key_lt(#[trigger] b1[p], #[trigger] b1[q]) by {
            assert(b1[p] == b[p + 1]);
            assert(b1[q] == b[q + 1]);
        }
        lemma_sorted_unique(a1, b1);
        assert(a =~= b) by {
            assert forall|k: int| 0 <= k < a.len() implies a[k] == b[k] by {
                if k > 0 {
                    assert(a[k] == a1[k - 1]);
                    assert(b[k] == b1[k - 1]);
                }
            }
        }
    }
}

/// Adds `k` to the strictly sorted key list `keys`, at its place in the
/// order, unless it is there already.
pub fn insert_sorted_key(keys: &mut Vec<String>, k: &str)
    requires
        strictly_sorted(texts(old(keys)@)),
    ensures
        strictly_sorted(texts(final(keys)@)),
        forall|x: Seq<char>| #[trigger] texts(final(keys)@).contains(x) <==> (texts(old(keys)@).contains(x) || x == k@),
{
    let ghost v0 = texts(keys@);
    let mut i: usize = 0;
    while i < keys.len()
        invariant
            i <= keys@.len(),
            texts(keys@) == v0,
            v0 == texts(old(keys)@),
            strictly_sorted(v0),
            forall|j: int| 0 <= j < i ==> key_lt(#[trigger] v0[j], k@),
        decreases keys@.len() - i,
    {
        match compare_keys(keys[i].as_str(), k) {
            KeyOrder::Before => {},
            KeyOrder::Same => {
                proof {
                    assert(v0[i as int] == k@);
                    assert(v0.contains(k@));
                }
                return;
            },
            KeyOrder::After => {
                keys.insert(i, k.to_owned());
                proof {
                    let v1 = texts(keys@);
                    assert(v1 =~= v0.insert(i as int, k@));
                    assert forall|a: int, b: int| 0 <= a < b < v1.len() implies key_lt(#[trigger] v1[a], #[trigger] v1[b]) by {
                        if b < i {
                        } else if a < i && b == i {
                        } else if a < i && b > i {
                            assert(v1[b] == v0[b - 1]);
                            lemma_key_order(v0[a], k@, v0[b - 1]);
                        } else if a == i {
                            assert(v1[b] == v0[b - 1]);
                            if b - 1 > i {
                                assert(key_lt(v0[i as int], v0[b - 1]));
                                lemma_key_order(k@, v0[i as int], v0[b - 1]);
                            }
                        } else {
                            assert(v1[a] == v0[a - 1]);
                            assert(v1[b] == v0[b - 1]);
                        }
                    }
                    assert forall|x: Seq<char>| #[trigger] v1.contains(x) <==> (v0.contains(x) || x == k@) by {
                        if v1.contains(x) {
                            let j = choose|j: int| 0 <= j < v1.len() && v1[j] == x;
                            if j < i {
                                assert(v0[j] == x);
                            } else if j > i {
                                assert(v0[j - 1] == x);
                            }
                        }
                        if v0.contains(x) {
                            let j = choose|j: int| 0 <= j < v0.len() && v0[j] == x;
                            if j < i {
                                assert(v1[j] == x);
                            } else {
                                assert(v1[j + 1] == x);
                            }
                        }
                        if x == k@ {
                            assert(v1[i as int] == x);
                        }
                    }
                }
                return;
            },
        }
        i = i + 1;
    }
    keys.push(k.to_owned());
    proof {
        let v1 = texts(keys@);
        assert(v1 =~= v0.push(k@));
        assert forall|x: Seq<char>| #[trigger] v1.contains(x) <==> (v0.contains(x) || x == k@) by {
            if v1.contains(x) {
                let j = choose|j: int| 0 <= j < v1.len() && v1[j] == x;
                if j < v0.len() {
                    assert(v0[j] == x);
                }
            }
            if v0.contains(x) {
                let j = choose|j: int| 0 <= j < v0.len() && v0[j] == x;
                assert(v1[j] == x);
            }
            if x == k@ {
                assert(v1[v0.len() as int] == x);
            }
        }
    }
}

} // verus!
