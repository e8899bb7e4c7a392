//! Addresses: 160-bit fingerprints of public keys.

use crate::bytes::{
    be_bytes, be_value, lemma_be_bytes_len, lemma_be_value_bound, lemma_radix_pow_grows,
    lemma_radix_pow_values, read_be, write_be,
};
use crate::crypto::hash::{sha256, sha256_digest, SHA256_INPUT_LIMIT};
use vstd::prelude::*;

verus! {

/// A 160-bit address, held as its first four bytes and its last sixteen,
/// each as a number written most significant byte first.
#[derive(Clone, Copy, PartialEq, Eq, Structural, Debug, Hash)]
pub struct H160 {
    pub hi: u32,
    pub lo: u128,
}

impl H160 {
    /// The address as 20 bytes.
    pub open spec fn bytes(self) -> Seq<u8> {
        be_bytes(self.hi as nat, 4) + be_bytes(self.lo as nat, 16)
    }

    /// The address that the first 20 bytes of `s` spell.
    pub open spec fn spec_from_bytes(s: Seq<u8>) -> H160 {
        H160 { hi: be_value(s.subrange(0, 4)) as u32, lo: be_value(s.subrange(4, 20)) as u128 }
    }

    /// The address of a public key: the last 20 bytes of its SHA-256 digest.
    pub open spec fn spec_from_pubkey(key: Seq<u8>) -> H160 {
        H160::spec_from_bytes(sha256(key).subrange(12, 32))
    }

    /// The address that 20 bytes spell.
    pub fn from_bytes(bytes: &[u8; 20]) -> (a: H160)
        ensures
            a == H160::spec_from_bytes(bytes@),
    {
        proof {
            lemma_be_value_bound(bytes@.subrange(0, 4));
            lemma_radix_pow_values();
        }
        H160 { hi: read_be(bytes.as_slice(), 0, 4) as u32, lo: read_be(bytes.as_slice(), 4, 20) }
    }

    /// The address as 20 bytes.
    pub fn to_bytes(&self) -> (out: Vec<u8>)
        ensures
            out@ == self.bytes(),
            out@.len() == 20,
    {
        proof {
            lemma_be_bytes_len(self.hi as nat, 4);
            lemma_be_bytes_len(self.lo as nat, 16);
        }
        let mut out: Vec<u8> = Vec::new();
        write_be(&mut out, self.hi as u128, 4);
        write_be(&mut out, self.lo, 16);
        assert(out@ =~= self.bytes());
        out
    }

    /// The address of the public key `key`.
    pub fn from_pubkey(key: &[u8]) -> (a: H160)
        requires
            key@.len() < SHA256_INPUT_LIMIT,
        ensures
            a == H160::spec_from_pubkey(key@),
    {
        let digest = sha256_digest(key);
        proof {
            let tail = digest@.subrange(12, 32);
            assert(tail.subrange(0, 4) =~= digest@.subrange(12, 16));
            assert(tail.subrange(4, 20) =~= digest@.subrange(16, 32));
            lemma_be_value_bound(digest@.subrange(12, 16));
            lemma_radix_pow_values();
        }
        H160 {
            hi: read_be(digest.as_slice(), 12, 16) as u32,
            lo: read_be(digest.as_slice(), 16, 32),
        }
    }
}

impl Default for H160 {
    fn default() -> (a: H160)
        ensures
            a == (H160 { hi: 0, lo: 0 }),
    {
        H160 { hi: 0, lo: 0 }
    }
}

} // verus!
