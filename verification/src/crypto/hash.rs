//! The 256-bit digest type and SHA-256.

use crate::assoc::Key;
use crate::bytes::{
    be_bytes, be_value, lemma_be_bytes_len, lemma_be_bytes_of_value, lemma_be_value_bound,
    lemma_be_value_concat, lemma_be_value_of_bytes, lemma_radix_pow_values, read_be, write_be,
};
use vstd::prelude::*;

verus! {

/// SHA-256 takes inputs whose length in bits fits in 64 bits, so strictly
/// fewer than this many bytes.
pub const SHA256_INPUT_LIMIT: u64 = 0x2000_0000_0000_0000;

/// The SHA-256 digest of a byte string.
pub uninterp spec fn sha256(data: Seq<u8>) -> Seq<u8>;

/// Calls `ring::digest::digest` with `ring::digest::SHA256`. The 32 bytes it
/// returns are the SHA-256 digest of `data`, a function of `data` alone. ring
/// panics when the bit length of the input overflows 64 bits, which the
/// precondition rules out.
#[verifier::external_body]
pub(crate) fn sha256_digest(data: &[u8]) -> (out: [u8; 32])
    requires
        data@.len() < SHA256_INPUT_LIMIT,
    ensures
        out@ == sha256(data@),
{
    let digest = ring::digest::digest(&ring::digest::SHA256, data);
    let mut out = [0u8; 32];
    out.copy_from_slice(digest.as_ref());
    out
}

/// A 256-bit digest, held as two 128-bit halves. As a number it is
/// `hi * 2^128 + lo`; as bytes it is that number written most significant
/// byte first.
#[derive(Clone, Copy, PartialEq, Eq, Structural, Debug, Hash)]
pub struct H256 {
    pub hi: u128,
    pub lo: u128,
}

impl H256 {
    /// The digest as a natural number.
    pub open spec fn as_nat(self) -> nat {
        (self.hi as nat) * 0x1_0000_0000_0000_0000_0000_0000_0000_0000 + (self.lo as nat)
    }

    /// The digest as 32 bytes, most significant first.
    pub open spec fn bytes(self) -> Seq<u8> {
        be_bytes(self.hi as nat, 16) + be_bytes(self.lo as nat, 16)
    }

    /// The digest that the first 32 bytes of `s` spell.
    pub open spec fn spec_from_bytes(s: Seq<u8>) -> H256 {
        H256 {
            hi: be_value(s.subrange(0, 16)) as u128,
            lo: be_value(s.subrange(16, 32)) as u128,
        }
    }

    /// The all-zero digest.
    pub open spec fn spec_zero() -> H256 {
        H256 { hi: 0, lo: 0 }
    }

    /// The all-zero digest.
    pub fn zero() -> (h: H256)
        ensures
            h == H256::spec_zero(),
    {
        H256 { hi: 0, lo: 0 }
    }

    /// The digest that 32 bytes spell.
    pub fn from_bytes(bytes: &[u8; 32]) -> (h: H256)
        ensures
            h == H256::spec_from_bytes(bytes@),
            h.bytes() == bytes@,
    {
        proof {
            lemma_from_bytes_roundtrip(bytes@);
        }
        H256 { hi: read_be(bytes.as_slice(), 0, 16), lo: read_be(bytes.as_slice(), 16, 32) }
    }

    /// The digest as 32 bytes.
    pub fn to_bytes(&self) -> (out: Vec<u8>)
        ensures
            out@ == self.bytes(),
            out@.len() == 32,
            H256::spec_from_bytes(out@) == *self,
    {
        proof {
            lemma_bytes_roundtrip(*self);
        }
        let mut out: Vec<u8> = Vec::new();
        write_be(&mut out, self.hi, 16);
        write_be(&mut out, self.lo, 16);
        assert(out@ =~= self.bytes());
        out
    }

    /// Numeric comparison: whether this digest is at most `other`.
    pub fn le(&self, other: &H256) -> (r: bool)
        ensures
            r == (self.as_nat() <= other.as_nat()),
    {
        self.hi < other.hi || (self.hi == other.hi && self.lo <= other.lo)
    }

    /// The SHA-256 digest of `data`.
    pub fn digest(data: &[u8]) -> (h: H256)
        requires
            data@.len() < SHA256_INPUT_LIMIT,
        ensures
            h == H256::spec_from_bytes(sha256(data@)),
    {
        let out = sha256_digest(data);
        H256::from_bytes(&out)
    }
}

impl Key for H256 {
    fn same(&self, other: &Self) -> (r: bool) {
        self.hi == other.hi && self.lo == other.lo
    }
}

impl Default for H256 {
    fn default() -> (h: H256)
        ensures
            h == H256::spec_zero(),
    {
        H256 { hi: 0, lo: 0 }
    }
}

/// Writing a digest as bytes and reading it back gives the digest.
pub proof fn lemma_bytes_roundtrip(h: H256)
    ensures
        h.bytes().len() == 32,
        H256::spec_from_bytes(h.bytes()) == h,
{
    lemma_radix_pow_values();
    lemma_be_bytes_len(h.hi as nat, 16);
    lemma_be_bytes_len(h.lo as nat, 16);
    lemma_be_value_of_bytes(h.hi as nat, 16);
    lemma_be_value_of_bytes(h.lo as nat, 16);
    assert(h.bytes().subrange(0, 16) =~= be_bytes(h.hi as nat, 16));
    assert(h.bytes().subrange(16, 32) =~= be_bytes(h.lo as nat, 16));
}

/// Reading 32 bytes as a digest and writing it back gives the bytes.
pub proof fn lemma_from_bytes_roundtrip(s: Seq<u8>)
    requires
        s.len() == 32,
    ensures
        H256::spec_from_bytes(s).bytes() == s,
{
    let high = s.subrange(0, 16);
    let low = s.subrange(16, 32);
    lemma_radix_pow_values();
    lemma_be_value_bound(high);
    lemma_be_value_bound(low);
    lemma_be_bytes_of_value(high);
    lemma_be_bytes_of_value(low);
    assert(high + low =~= s);
}

/// The digest as a number is what its 32 bytes spell, most significant byte
/// first: the order of digests is the order of those numbers.
pub proof fn lemma_as_nat_is_value(h: H256)
    ensures
        h.as_nat() == be_value(h.bytes()),
{
    lemma_radix_pow_values();
    lemma_be_bytes_len(h.lo as nat, 16);
    lemma_be_value_of_bytes(h.hi as nat, 16);
    lemma_be_value_of_bytes(h.lo as nat, 16);
    lemma_be_value_concat(be_bytes(h.hi as nat, 16), be_bytes(h.lo as nat, 16));
}

} // verus!
