//! The hash engine: a fixed 32-byte digest type, its difficulty metric, and
//! the `Hashable` capability that derives a digest from a canonical byte
//! serialization.

use vstd::prelude::*;

verus! {

/// The SHA-256 digest of a byte sequence. The digest depends on the input
/// bytes alone; its exact value is left unstated and is supplied at run time
/// by an outside cryptography crate.
pub uninterp spec fn sha256_of(data: Seq<u8>) -> Seq<u8>;

/// Relies on `crypto_hash::digest` with `crypto_hash::Algorithm::SHA256`: the
/// digest is a function of the input bytes alone, and SHA-256 output is
/// exactly 32 bytes wide, so the conversion to a fixed array cannot fail.
#[verifier::external_body]
fn sha256_digest(data: &Vec<u8>) -> (r: [u8; 32])
    ensures
        r@ == sha256_of(data@),
{
    let digest = crypto_hash::digest(crypto_hash::Algorithm::SHA256, data);
    digest.try_into().unwrap()
}

/// A 32-byte digest. The all-zero digest stands for "unset".
#[derive(Clone, Copy)]
pub struct Hash([u8; 32]);

impl View for Hash {
    type V = Seq<u8>;

    closed spec fn view(&self) -> Seq<u8> {
        self.0@
    }
}

/// The all-zero byte sequence of digest length.
pub open spec fn zero_digest() -> Seq<u8> {
    Seq::new(32, |i: int| 0u8)
}

/// The difficulty metric of the first `n` bytes of the digest's upper half:
/// the byte at offset `16 + i` occupies bit position `8 * i`, and the shifted
/// bytes are combined with bitwise OR. The byte at offset 16 is therefore the
/// least-significant byte of the result: a little-endian reinterpretation of
/// the digest's last 16 bytes.
pub open spec fn difficulty_prefix(s: Seq<u8>, n: int) -> u128
    decreases n,
{
    if n <= 0 {
        0u128
    } else {
        difficulty_prefix(s, n - 1) | ((s[16 + (n - 1)] as u128) << (8 * (n - 1)))
    }
}

/// The difficulty metric of a 32-byte digest: the little-endian 128-bit
/// reinterpretation of its bytes at offsets 16 through 31.
pub open spec fn difficulty_of(s: Seq<u8>) -> u128 {
    difficulty_prefix(s, 16)
}

impl Default for Hash {
    /// The zero digest, representing "unset".
    fn default() -> (r: Self)
        ensures
            r@ == zero_digest(),
    {
        let r = Hash([0u8; 32]);
        proof {
            assert(r@ =~= zero_digest());
        }
        r
    }
}

impl Hash {
    /// Wraps 32 raw bytes as a digest.
    pub fn new(bytes: [u8; 32]) -> (r: Self)
        ensures
            r@ == bytes@,
    {
        Hash(bytes)
    }

    /// Every digest is exactly 32 bytes long.
    pub proof fn lemma_digest_len(self)
        ensures
            self@.len() == 32,
    {
    }

    /// Calculate the difficulty of the hash: the little-endian 128-bit value
    /// of the last half of the buffer, each byte shifted into place and
    /// combined by bitwise OR.
    pub fn difficulty(&self) -> (r: u128)
        ensures
            r == difficulty_of(self@),
    {
        let mut acc: u128 = 0;
        for i in 0..16usize
            invariant
                acc == difficulty_prefix(self@, i as int),
        {
            let byte = self.0[16 + i];
            acc = acc | ((byte as u128) << (8 * i));
        }
        acc
    }

    /// Get the inner type, which is a 32 bytes buffer.
    pub fn bytes(&self) -> (r: [u8; 32])
        ensures
            r@ == self@,
    {
        self.0
    }
}

/// The difficulty metric reads nothing below offset 16: digests that agree on
/// bytes 16 through 31 have the same metric. (That it fits in an unsigned
/// 128-bit integer is given by its type.)
pub proof fn lemma_difficulty_reads_upper_half_only(s1: Seq<u8>, s2: Seq<u8>)
    requires
        s1.len() == 32,
        s2.len() == 32,
        s1.subrange(16, 32) == s2.subrange(16, 32),
    ensures
        difficulty_of(s1) == difficulty_of(s2),
{
    assert forall|i: int| 0 <= i < 16 implies s1[16 + i] == #[trigger] s2[16 + i] by {
        assert(s1.subrange(16, 32)[i] == s1[16 + i]);
        assert(s2.subrange(16, 32)[i] == s2[16 + i]);
    }
    lemma_difficulty_prefix_reads_bytes_only(s1, s2, 16);
}

proof fn lemma_difficulty_prefix_reads_bytes_only(s1: Seq<u8>, s2: Seq<u8>, n: int)
    requires
        0 <= n <= 16,
        forall|i: int| 0 <= i < n ==> s1[16 + i] == #[trigger] s2[16 + i],
    ensures
        difficulty_prefix(s1, n) == difficulty_prefix(s2, n),
    decreases n,
{
    if n > 0 {
        lemma_difficulty_prefix_reads_bytes_only(s1, s2, n - 1);
    }
}

/// The little-endian integer value of the first `n` bytes of the digest's
/// upper half: the byte at offset `16 + i` is weighted by 256 to the power
/// `i`.
pub open spec fn le_bytes_value(s: Seq<u8>, n: int) -> int
    decreases n,
{
    if n <= 0 {
        0
    } else {
        le_bytes_value(s, n - 1) + s[16 + (n - 1)] * vstd::arithmetic::power2::pow2(
            (8 * (n - 1)) as nat,
        )
    }
}

/// Shifting one left by `k` is two to the power `k`.
proof fn lemma_u128_one_shl_is_pow2(k: u64)
    requires
        k < 128,
    ensures
        (1u128 << k) as int == vstd::arithmetic::power2::pow2(k as nat),
    decreases k,
{
    vstd::arithmetic::power2::lemma2_to64();
    if k == 0 {
        assert(1u128 << 0u64 == 1) by (bit_vector);
    } else {
        lemma_u128_one_shl_is_pow2((k - 1) as u64);
        assert((1u128 << k) == 2 * (1u128 << ((k - 1) as u64))) by (bit_vector)
            requires
                1 <= k < 128u64,
        ;
        vstd::arithmetic::power2::lemma_pow2_adds(1, (k - 1) as nat);
    }
}

/// The difficulty metric is exactly the little-endian 128-bit integer read
/// from the digest's bytes at offsets 16 through 31: each byte occupies its
/// own bit range, so combining the shifted bytes with bitwise OR is the same
/// as summing their weighted values. The metric is therefore an
/// order-preserving scalar over that byte slice, and always fits in an
/// unsigned 128-bit integer.
pub proof fn lemma_difficulty_is_little_endian_value(s: Seq<u8>)
    ensures
        difficulty_of(s) == le_bytes_value(s, 16),
        0 <= le_bytes_value(s, 16) < vstd::arithmetic::power2::pow2(128),
{
    lemma_difficulty_prefix_is_le_value(s, 16);
}

/// The inductive heart of the little-endian characterization: the prefix OR
/// of `n` shifted bytes equals the prefix sum, and stays below two to the
/// power `8 * n`.
proof fn lemma_difficulty_prefix_is_le_value(s: Seq<u8>, n: int)
    requires
        0 <= n <= 16,
    ensures
        difficulty_prefix(s, n) == le_bytes_value(s, n),
        0 <= le_bytes_value(s, n) < vstd::arithmetic::power2::pow2((8 * n) as nat),
    decreases n,
{
    vstd::arithmetic::power2::lemma2_to64();
    if n == 0 {
    } else {
        lemma_difficulty_prefix_is_le_value(s, n - 1);
        let k = (8 * (n - 1)) as u64;
        let acc = difficulty_prefix(s, n - 1);
        let b = s[16 + (n - 1)];
        lemma_u128_one_shl_is_pow2(k);
        assert(acc | ((b as u128) << k) == acc + ((b as u128) << k) && acc + ((b as u128) << k)
            < 256 * ((1u128 << k) as int) && ((b as u128) << k) == (b as u128) * ((1u128
            << k) as int)) by (bit_vector)
            requires
                k <= 120u64,
                acc < (1u128 << k),
        ;
        vstd::arithmetic::power2::lemma_pow2_adds(8, k as nat);
    }
}

/// The capability to convert a value to a canonical byte sequence and to
/// derive its 32-byte digest from that serialization.
pub trait Hashable: Sized {
    /// The canonical byte serialization, as a mathematical sequence.
    spec fn bytes_spec(&self) -> Seq<u8>;

    /// Serializes the value; the result is determined by the value alone.
    fn bytes(&self) -> (r: Vec<u8>)
        ensures
            r@ == self.bytes_spec(),
    ;

    /// The digest of the canonical serialization.
    fn hash(&self) -> (r: Hash)
        ensures
            r@ == sha256_of(self.bytes_spec()),
    {
        let serialized = self.bytes();
        Hash::new(sha256_digest(&serialized))
    }
}

} // verus!
