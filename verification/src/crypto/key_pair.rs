//! Ed25519 key pairs, signing and verification.

use vstd::prelude::*;
use vstd::slice::slice_to_vec;

verus! {

/// Ed25519 hashes the message behind 64 bytes of its own with SHA-512, which
/// takes fewer than 2^61 bytes: a message is shorter than this.
pub const ED25519_MESSAGE_LIMIT: u64 = 0x1FFF_FFFF_FFFF_FFC0;

/// The Ed25519 public key that belongs to a 32-byte seed.
pub uninterp spec fn ed25519_public_key(seed: Seq<u8>) -> Seq<u8>;

/// The Ed25519 signature of a message under the key pair of a seed.
pub uninterp spec fn ed25519_signature(seed: Seq<u8>, message: Seq<u8>) -> Seq<u8>;

/// Whether a signature is a valid Ed25519 signature of a message under a
/// public key.
pub uninterp spec fn ed25519_verifies(
    public_key: Seq<u8>,
    message: Seq<u8>,
    signature: Seq<u8>,
) -> bool;

/// Calls `ring::signature::Ed25519KeyPair::from_seed_unchecked`, which accepts
/// every seed of 32 bytes, and reads the pair's public key. The 32 bytes are
/// a function of the seed alone.
#[verifier::external_body]
fn derive_public_key(seed: &[u8; 32]) -> (key: [u8; 32])
    ensures
        key@ == ed25519_public_key(seed@),
{
    let pair = ring::signature::Ed25519KeyPair::from_seed_unchecked(seed).unwrap();
    let mut key = [0u8; 32];
    key.copy_from_slice(ring::signature::KeyPair::public_key(&pair).as_ref());
    key
}

/// Calls `ring::signature::Ed25519KeyPair::sign` on the pair of `seed`.
/// Ed25519 signing is deterministic: the 64 bytes are a function of the seed
/// and the message. ring panics where its SHA-512 input grows past 2^61
/// bytes, which the precondition rules out.
#[verifier::external_body]
fn sign_bytes(seed: &[u8; 32], message: &[u8]) -> (signature: Vec<u8>)
    requires
        message@.len() < ED25519_MESSAGE_LIMIT,
    ensures
        signature@ == ed25519_signature(seed@, message@),
        signature@.len() == 64,
{
    let pair = ring::signature::Ed25519KeyPair::from_seed_unchecked(seed).unwrap();
    pair.sign(message).as_ref().to_vec()
}

/// Calls `ring::signature::UnparsedPublicKey::verify` with
/// `ring::signature::ED25519`: whether `signature` verifies for `message`
/// under `public_key`, a function of the three byte strings. Malformed keys
/// and signatures are rejected, not panicked on; the precondition keeps the
/// SHA-512 input in range.
#[verifier::external_body]
pub(crate) fn verify_bytes(public_key: &[u8], message: &[u8], signature: &[u8]) -> (ok: bool)
    requires
        message@.len() < ED25519_MESSAGE_LIMIT,
    ensures
        ok == ed25519_verifies(public_key@, message@, signature@),
{
    let key = ring::signature::UnparsedPublicKey::new(&ring::signature::ED25519, public_key);
    key.verify(message, signature).is_ok()
}

/// Calls `ring::rand::SecureRandom::fill` on a `ring::rand::SystemRandom`:
/// 32 bytes from the operating system, or nothing where it gives none.
#[verifier::external_body]
fn system_random_seed() -> (seed: Option<[u8; 32]>) {
    let mut seed = [0u8; 32];
    match ring::rand::SecureRandom::fill(&ring::rand::SystemRandom::new(), &mut seed) {
        Ok(()) => Some(seed),
        Err(_) => None,
    }
}

/// An Ed25519 key pair, given by its 32-byte seed.
pub struct KeyPair {
    seed: [u8; 32],
    public: [u8; 32],
}

impl KeyPair {
    #[verifier::type_invariant]
    spec fn inv(self) -> bool {
        self.public@ == ed25519_public_key(self.seed@)
    }

    /// The seed of the pair.
    pub closed spec fn seed(self) -> Seq<u8> {
        self.seed@
    }

    /// The public key of the pair.
    pub open spec fn spec_public_key(self) -> Seq<u8> {
        ed25519_public_key(self.seed())
    }

    /// The key pair of `seed`.
    pub fn from_seed(seed: [u8; 32]) -> (pair: KeyPair)
        ensures
            pair.seed() == seed@,
    {
        let public = derive_public_key(&seed);
        KeyPair { seed, public }
    }

    /// The key pair of the seed that was drawn, and none where no seed was
    /// drawn.
    pub fn from_drawn(drawn: Option<[u8; 32]>) -> (pair: Option<KeyPair>)
        ensures
            match drawn {
                Some(seed) => pair.is_some() && pair.unwrap().seed() == seed@,
                None => pair.is_none(),
            },
    {
        match drawn {
            Some(seed) => Some(KeyPair::from_seed(seed)),
            None => None,
        }
    }

    /// A key pair with a seed drawn from the operating system's random
    /// source; `None` where that source fails.
    pub fn random() -> (pair: Option<KeyPair>) {
        KeyPair::from_drawn(system_random_seed())
    }

    /// The public key of the pair, 32 bytes.
    pub fn public_key(&self) -> (key: Vec<u8>)
        ensures
            key@ == self.spec_public_key(),
            key@.len() == 32,
    {
        proof {
            use_type_invariant(self);
        }
        slice_to_vec(self.public.as_slice())
    }

    /// The signature of `message` under this pair.
    pub fn sign(&self, message: &[u8]) -> (signature: Vec<u8>)
        requires
            message@.len() < ED25519_MESSAGE_LIMIT,
        ensures
            signature@ == ed25519_signature(self.seed(), message@),
            signature@.len() == 64,
    {
        sign_bytes(&self.seed, message)
    }
}

} // verus!
