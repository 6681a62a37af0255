//! Big-endian byte encodings of the fixed-width integers that appear in the
//! canonical block serialization, with proofs that each encoding is injective.

use vstd::prelude::*;

verus! {

/// The four big-endian bytes of a 32-bit unsigned integer.
pub open spec fn be_bytes_u32(x: u32) -> Seq<u8> {
    seq![
        ((x >> 24) & 0xff) as u8,
        ((x >> 16) & 0xff) as u8,
        ((x >> 8) & 0xff) as u8,
        (x & 0xff) as u8,
    ]
}

/// The eight big-endian bytes of a 64-bit unsigned integer.
pub open spec fn be_bytes_u64(x: u64) -> Seq<u8> {
    seq![
        ((x >> 56) & 0xff) as u8,
        ((x >> 48) & 0xff) as u8,
        ((x >> 40) & 0xff) as u8,
        ((x >> 32) & 0xff) as u8,
        ((x >> 24) & 0xff) as u8,
        ((x >> 16) & 0xff) as u8,
        ((x >> 8) & 0xff) as u8,
        (x & 0xff) as u8,
    ]
}

/// The sixteen big-endian bytes of a 128-bit unsigned integer.
pub open spec fn be_bytes_u128(x: u128) -> Seq<u8> {
    seq![
        ((x >> 120) & 0xff) as u8,
        ((x >> 112) & 0xff) as u8,
        ((x >> 104) & 0xff) as u8,
        ((x >> 96) & 0xff) as u8,
        ((x >> 88) & 0xff) as u8,
        ((x >> 80) & 0xff) as u8,
        ((x >> 72) & 0xff) as u8,
        ((x >> 64) & 0xff) as u8,
        ((x >> 56) & 0xff) as u8,
        ((x >> 48) & 0xff) as u8,
        ((x >> 40) & 0xff) as u8,
        ((x >> 32) & 0xff) as u8,
        ((x >> 24) & 0xff) as u8,
        ((x >> 16) & 0xff) as u8,
        ((x >> 8) & 0xff) as u8,
        (x & 0xff) as u8,
    ]
}

/// The two's-complement 64-bit word of a signed 64-bit integer: a negative
/// value is shifted up by 2^64, so the word's big-endian bytes are exactly
/// the big-endian bytes of the signed integer.
pub open spec fn two_complement_u64(x: i64) -> u64 {
    if x >= 0 {
        x as u64
    } else {
        (x + 0x1_0000_0000_0000_0000) as u64
    }
}

/// Appends the four big-endian bytes of `x` to `buf`.
pub fn push_be_u32(buf: &mut Vec<u8>, x: u32)
    ensures
        final(buf)@ == old(buf)@ + be_bytes_u32(x),
{
    buf.push(((x >> 24) & 0xff) as u8);
    buf.push(((x >> 16) & 0xff) as u8);
    buf.push(((x >> 8) & 0xff) as u8);
    buf.push((x & 0xff) as u8);
    proof {
        assert(buf@ =~= old(buf)@ + be_bytes_u32(x));
    }
}

/// Appends the eight big-endian bytes of `x` to `buf`.
pub fn push_be_u64(buf: &mut Vec<u8>, x: u64)
    ensures
        final(buf)@ == old(buf)@ + be_bytes_u64(x),
{
    buf.push(((x >> 56) & 0xff) as u8);
    buf.push(((x >> 48) & 0xff) as u8);
    buf.push(((x >> 40) & 0xff) as u8);
    buf.push(((x >> 32) & 0xff) as u8);
    buf.push(((x >> 24) & 0xff) as u8);
    buf.push(((x >> 16) & 0xff) as u8);
    buf.push(((x >> 8) & 0xff) as u8);
    buf.push((x & 0xff) as u8);
    proof {
        assert(buf@ =~= old(buf)@ + be_bytes_u64(x));
    }
}

/// Appends the sixteen big-endian bytes of `x` to `buf`.
pub fn push_be_u128(buf: &mut Vec<u8>, x: u128)
    ensures
        final(buf)@ == old(buf)@ + be_bytes_u128(x),
{
    buf.push(((x >> 120) & 0xff) as u8);
    buf.push(((x >> 112) & 0xff) as u8);
    buf.push(((x >> 104) & 0xff) as u8);
    buf.push(((x >> 96) & 0xff) as u8);
    buf.push(((x >> 88) & 0xff) as u8);
    buf.push(((x >> 80) & 0xff) as u8);
    buf.push(((x >> 72) & 0xff) as u8);
    buf.push(((x >> 64) & 0xff) as u8);
    buf.push(((x >> 56) & 0xff) as u8);
    buf.push(((x >> 48) & 0xff) as u8);
    buf.push(((x >> 40) & 0xff) as u8);
    buf.push(((x >> 32) & 0xff) as u8);
    buf.push(((x >> 24) & 0xff) as u8);
    buf.push(((x >> 16) & 0xff) as u8);
    buf.push(((x >> 8) & 0xff) as u8);
    buf.push((x & 0xff) as u8);
    proof {
        assert(buf@ =~= old(buf)@ + be_bytes_u128(x));
    }
}

/// Computes the two's-complement 64-bit word of `x`.
pub fn to_two_complement_u64(x: i64) -> (r: u64)
    ensures
        r == two_complement_u64(x),
{
    if x >= 0 {
        x as u64
    } else {
        ((x - i64::MIN) as u64) + 0x8000_0000_0000_0000u64
    }
}

/// Distinct 32-bit values have distinct big-endian encodings.
pub proof fn lemma_be_bytes_u32_injective(x: u32, y: u32)
    requires
        be_bytes_u32(x) == be_bytes_u32(y),
    ensures
        x == y,
{
    assert(be_bytes_u32(x)[0] == be_bytes_u32(y)[0]);
    assert(be_bytes_u32(x)[1] == be_bytes_u32(y)[1]);
    assert(be_bytes_u32(x)[2] == be_bytes_u32(y)[2]);
    assert(be_bytes_u32(x)[3] == be_bytes_u32(y)[3]);
    assert(x == y) by (bit_vector)
        requires
            ((x >> 24) & 0xff) as u8 == ((y >> 24) & 0xff) as u8,
            ((x >> 16) & 0xff) as u8 == ((y >> 16) & 0xff) as u8,
            ((x >> 8) & 0xff) as u8 == ((y >> 8) & 0xff) as u8,
            (x & 0xff) as u8 == (y & 0xff) as u8,
    ;
}

/// Distinct 64-bit values have distinct big-endian encodings.
pub proof fn lemma_be_bytes_u64_injective(x: u64, y: u64)
    requires
        be_bytes_u64(x) == be_bytes_u64(y),
    ensures
        x == y,
{
    assert(be_bytes_u64(x)[0] == be_bytes_u64(y)[0]);
    assert(be_bytes_u64(x)[1] == be_bytes_u64(y)[1]);
    assert(be_bytes_u64(x)[2] == be_bytes_u64(y)[2]);
    assert(be_bytes_u64(x)[3] == be_bytes_u64(y)[3]);
    assert(be_bytes_u64(x)[4] == be_bytes_u64(y)[4]);
    assert(be_bytes_u64(x)[5] == be_bytes_u64(y)[5]);
    assert(be_bytes_u64(x)[6] == be_bytes_u64(y)[6]);
    assert(be_bytes_u64(x)[7] == be_bytes_u64(y)[7]);
    assert(x == y) by (bit_vector)
        requires
            ((x >> 56) & 0xff) as u8 == ((y >> 56) & 0xff) as u8,
            ((x >> 48) & 0xff) as u8 == ((y >> 48) & 0xff) as u8,
            ((x >> 40) & 0xff) as u8 == ((y >> 40) & 0xff) as u8,
            ((x >> 32) & 0xff) as u8 == ((y >> 32) & 0xff) as u8,
            ((x >> 24) & 0xff) as u8 == ((y >> 24) & 0xff) as u8,
            ((x >> 16) & 0xff) as u8 == ((y >> 16) & 0xff) as u8,
            ((x >> 8) & 0xff) as u8 == ((y >> 8) & 0xff) as u8,
            (x & 0xff) as u8 == (y & 0xff) as u8,
    ;
}

/// Distinct 128-bit values have distinct big-endian encodings.
pub proof fn lemma_be_bytes_u128_injective(x: u128, y: u128)
    requires
        be_bytes_u128(x) == be_bytes_u128(y),
    ensures
        x == y,
{
    assert(be_bytes_u128(x)[0] == be_bytes_u128(y)[0]);
    assert(be_bytes_u128(x)[1] == be_bytes_u128(y)[1]);
    assert(be_bytes_u128(x)[2] == be_bytes_u128(y)[2]);
    assert(be_bytes_u128(x)[3] == be_bytes_u128(y)[3]);
    assert(be_bytes_u128(x)[4] == be_bytes_u128(y)[4]);
    assert(be_bytes_u128(x)[5] == be_bytes_u128(y)[5]);
    assert(be_bytes_u128(x)[6] == be_bytes_u128(y)[6]);
    assert(be_bytes_u128(x)[7] == be_bytes_u128(y)[7]);
    assert(be_bytes_u128(x)[8] == be_bytes_u128(y)[8]);
    assert(be_bytes_u128(x)[9] == be_bytes_u128(y)[9]);
    assert(be_bytes_u128(x)[10] == be_bytes_u128(y)[10]);
    assert(be_bytes_u128(x)[11] == be_bytes_u128(y)[11]);
    assert(be_bytes_u128(x)[12] == be_bytes_u128(y)[12]);
    assert(be_bytes_u128(x)[13] == be_bytes_u128(y)[13]);
    assert(be_bytes_u128(x)[14] == be_bytes_u128(y)[14]);
    assert(be_bytes_u128(x)[15] == be_bytes_u128(y)[15]);
    assert(x == y) by (bit_vector)
        requires
            ((x >> 120) & 0xff) as u8 == ((y >> 120) & 0xff) as u8,
            ((x >> 112) & 0xff) as u8 == ((y >> 112) & 0xff) as u8,
            ((x >> 104) & 0xff) as u8 == ((y >> 104) & 0xff) as u8,
            ((x >> 96) & 0xff) as u8 == ((y >> 96) & 0xff) as u8,
            ((x >> 88) & 0xff) as u8 == ((y >> 88) & 0xff) as u8,
            ((x >> 80) & 0xff) as u8 == ((y >> 80) & 0xff) as u8,
            ((x >> 72) & 0xff) as u8 == ((y >> 72) & 0xff) as u8,
            ((x >> 64) & 0xff) as u8 == ((y >> 64) & 0xff) as u8,
            ((x >> 56) & 0xff) as u8 == ((y >> 56) & 0xff) as u8,
            ((x >> 48) & 0xff) as u8 == ((y >> 48) & 0xff) as u8,
            ((x >> 40) & 0xff) as u8 == ((y >> 40) & 0xff) as u8,
            ((x >> 32) & 0xff) as u8 == ((y >> 32) & 0xff) as u8,
            ((x >> 24) & 0xff) as u8 == ((y >> 24) & 0xff) as u8,
            ((x >> 16) & 0xff) as u8 == ((y >> 16) & 0xff) as u8,
            ((x >> 8) & 0xff) as u8 == ((y >> 8) & 0xff) as u8,
            (x & 0xff) as u8 == (y & 0xff) as u8,
    ;
}

/// Distinct signed 64-bit values have distinct two's-complement words.
pub proof fn lemma_two_complement_u64_injective(x: i64, y: i64)
    requires
        two_complement_u64(x) == two_complement_u64(y),
    ensures
        x == y,
{
}

} // verus!
