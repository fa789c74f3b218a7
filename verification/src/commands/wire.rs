//! Big-endian integers on the wire: what a write appends, what a read
//! returns, and that a read gives back what a write wrote.

use vstd::prelude::*;

verus! {

/// Bytes of a `u16`, most significant first.
pub open spec fn be16(x: u16) -> Seq<u8> {
    seq![(x >> 8u16) as u8, x as u8]
}

/// Bytes of a `u64`, most significant first.
pub open spec fn be64(x: u64) -> Seq<u8> {
    seq![
        (x >> 56u64) as u8,
        (x >> 48u64) as u8,
        (x >> 40u64) as u8,
        (x >> 32u64) as u8,
        (x >> 24u64) as u8,
        (x >> 16u64) as u8,
        (x >> 8u64) as u8,
        x as u8,
    ]
}

/// The `u16` stored big-endian at `b[i..i + 2]`.
pub open spec fn u16_at(b: Seq<u8>, i: int) -> u16 {
    ((b[i] as u16) << 8u16) | (b[i + 1] as u16)
}

/// The `u64` stored big-endian at `b[i..i + 8]`.
pub open spec fn u64_at(b: Seq<u8>, i: int) -> u64 {
    ((b[i] as u64) << 56u64) | ((b[i + 1] as u64) << 48u64) | ((b[i + 2] as u64) << 40u64) | ((
    b[i + 3] as u64) << 32u64) | ((b[i + 4] as u64) << 24u64) | ((b[i + 5] as u64) << 16u64) | ((b[i
        + 6] as u64) << 8u64) | (b[i + 7] as u64)
}

/// Reading a `u16` where its big-endian bytes stand gives it back.
pub proof fn lemma_u16_at(b: Seq<u8>, i: int, x: u16)
    requires
        0 <= i,
        i + 2 <= b.len(),
        b[i] == (x >> 8u16) as u8,
        b[i + 1] == x as u8,
    ensures
        u16_at(b, i) == x,
{
    let hi = b[i];
    let lo = b[i + 1];
    assert(((hi as u16) << 8u16) | (lo as u16) == x) by (bit_vector)
        requires
            hi == (x >> 8u16) as u8,
            lo == x as u8,
    ;
}

/// Reading a `u64` where its big-endian bytes stand gives it back.
pub proof fn lemma_u64_at(b: Seq<u8>, i: int, x: u64)
    requires
        0 <= i,
        i + 8 <= b.len(),
        b[i] == (x >> 56u64) as u8,
        b[i + 1] == (x >> 48u64) as u8,
        b[i + 2] == (x >> 40u64) as u8,
        b[i + 3] == (x >> 32u64) as u8,
        b[i + 4] == (x >> 24u64) as u8,
        b[i + 5] == (x >> 16u64) as u8,
        b[i + 6] == (x >> 8u64) as u8,
        b[i + 7] == x as u8,
    ensures
        u64_at(b, i) == x,
{
    let b0 = b[i];
    let b1 = b[i + 1];
    let b2 = b[i + 2];
    let b3 = b[i + 3];
    let b4 = b[i + 4];
    let b5 = b[i + 5];
    let b6 = b[i + 6];
    let b7 = b[i + 7];
    assert(((b0 as u64) << 56u64) | ((b1 as u64) << 48u64) | ((b2 as u64) << 40u64) | ((b3 as u64)
        << 32u64) | ((b4 as u64) << 24u64) | ((b5 as u64) << 16u64) | ((b6 as u64) << 8u64) | (b7 as u64)
        == x) by (bit_vector)
        requires
            b0 == (x >> 56u64) as u8,
            b1 == (x >> 48u64) as u8,
            b2 == (x >> 40u64) as u8,
            b3 == (x >> 32u64) as u8,
            b4 == (x >> 24u64) as u8,
            b5 == (x >> 16u64) as u8,
            b6 == (x >> 8u64) as u8,
            b7 == x as u8,
    ;
}

/// Reads the `u16` at `p.len()` of `p + be16(x) + q`.
pub proof fn lemma_read_be16(p: Seq<u8>, x: u16, q: Seq<u8>)
    ensures
        u16_at(p + be16(x) + q, p.len() as int) == x,
{
    let b = p + be16(x) + q;
    let i = p.len() as int;
    assert(b[i] == be16(x)[0]);
    assert(b[i + 1] == be16(x)[1]);
    lemma_u16_at(b, i, x);
}

/// Reads the `u64` at `p.len()` of `p + be64(x) + q`.
pub proof fn lemma_read_be64(p: Seq<u8>, x: u64, q: Seq<u8>)
    ensures
        u64_at(p + be64(x) + q, p.len() as int) == x,
{
    let b = p + be64(x) + q;
    let i = p.len() as int;
    assert(b[i] == be64(x)[0]);
    assert(b[i + 1] == be64(x)[1]);
    assert(b[i + 2] == be64(x)[2]);
    assert(b[i + 3] == be64(x)[3]);
    assert(b[i + 4] == be64(x)[4]);
    assert(b[i + 5] == be64(x)[5]);
    assert(b[i + 6] == be64(x)[6]);
    assert(b[i + 7] == be64(x)[7]);
    lemma_u64_at(b, i, x);
}

/// Appends the big-endian bytes of `x`.
pub fn push_u16(b: &mut Vec<u8>, x: u16)
    ensures
        final(b)@ == old(b)@ + be16(x),
{
    b.push((x >> 8) as u8);
    b.push(x as u8);
    assert(b@ =~= old(b)@ + be16(x));
}

/// Appends the big-endian bytes of `x`.
pub fn push_u64(b: &mut Vec<u8>, x: u64)
    ensures
        final(b)@ == old(b)@ + be64(x),
{
    b.push((x >> 56) as u8);
    b.push((x >> 48) as u8);
    b.push((x >> 40) as u8);
    b.push((x >> 32) as u8);
    b.push((x >> 24) as u8);
    b.push((x >> 16) as u8);
    b.push((x >> 8) as u8);
    b.push(x as u8);
    assert(b@ =~= old(b)@ + be64(x));
}

/// Appends every byte of `src`.
pub fn push_bytes(b: &mut Vec<u8>, src: &[u8])
    ensures
        final(b)@ == old(b)@ + src@,
{
    let mut i: usize = 0;
    while i < src.len()
        invariant
            i <= src@.len(),
            b@ == old(b)@ + src@.subrange(0, i as int),
        decreases src@.len() - i,
    {
        b.push(src[i]);
        i = i + 1;
        assert(b@ =~= old(b)@ + src@.subrange(0, i as int));
    }
    assert(src@.subrange(0, i as int) =~= src@);
}

/// The `u16` stored big-endian at `b[i..i + 2]`.
pub fn read_u16(b: &[u8], i: usize) -> (x: u16)
    requires
        i + 2 <= b@.len(),
    ensures
        x == u16_at(b@, i as int),
{
    ((b[i] as u16) << 8) | (b[i + 1] as u16)
}

/// The `u64` stored big-endian at `b[i..i + 8]`.
pub fn read_u64(b: &[u8], i: usize) -> (x: u64)
    requires
        i + 8 <= b@.len(),
    ensures
        x == u64_at(b@, i as int),
{
    ((b[i] as u64) << 56) | ((b[i + 1] as u64) << 48) | ((b[i + 2] as u64) << 40) | ((b[i + 3] as u64)
        << 32) | ((b[i + 4] as u64) << 24) | ((b[i + 5] as u64) << 16) | ((b[i + 6] as u64) << 8) | (b[i
        + 7] as u64)
}

/// Reading a `u16` where `be16(x)` stands gives `x`.
pub proof fn lemma_u16_sub(b: Seq<u8>, i: int, x: u16)
    requires
        0 <= i,
        i + 2 <= b.len(),
        b.subrange(i, i + 2) == be16(x),
    ensures
        u16_at(b, i) == x,
{
    assert(b[i] == b.subrange(i, i + 2)[0]);
    assert(b[i + 1] == b.subrange(i, i + 2)[1]);
    lemma_u16_at(b, i, x);
}

/// Reading a `u64` where `be64(x)` stands gives `x`.
pub proof fn lemma_u64_sub(b: Seq<u8>, i: int, x: u64)
    requires
        0 <= i,
        i + 8 <= b.len(),
        b.subrange(i, i + 8) == be64(x),
    ensures
        u64_at(b, i) == x,
{
    let s = b.subrange(i, i + 8);
    assert(b[i] == s[0]);
    assert(b[i + 1] == s[1]);
    assert(b[i + 2] == s[2]);
    assert(b[i + 3] == s[3]);
    assert(b[i + 4] == s[4]);
    assert(b[i + 5] == s[5]);
    assert(b[i + 6] == s[6]);
    assert(b[i + 7] == s[7]);
    lemma_u64_at(b, i, x);
}

} // verus!
