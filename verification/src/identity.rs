//! Device identity: an Ed25519 key pair.
//!
//! The peer id derived from it is the only stable "address" of a device: IPs
//! change, the peer id does not. There are no accounts; whoever holds the key
//! is the device, and Noise authenticates it on every connection. Keys are
//! generated and stored by the application; here is the deterministic
//! derivation used by automated tests.
use vstd::prelude::*;
use vstd::string::StringSliceAdditionalSpecFns;
use crate::digest::{sha256, sha256_digest};

verus! {

#[verifier::external_type_specification]
#[verifier::external_body]
pub struct ExKeypair(libp2p::identity::Keypair);

/// The Ed25519 key pair whose secret key is `secret`.
pub uninterp spec fn ed25519_keypair_of(secret: Seq<u8>) -> libp2p::identity::Keypair;

/// Calls `libp2p::identity::Keypair::ed25519_from_bytes`. Trusted: every
/// 32-byte secret is accepted (`ed25519::SecretKey::try_from_bytes` only
/// checks the length), and the key pair is the one of that secret (the
/// public key is derived from it), named `ed25519_keypair_of`.
#[verifier::external_body]
fn ed25519_keypair(secret: [u8; 32]) -> (r: Option<libp2p::identity::Keypair>)
    ensures
        r == Some(ed25519_keypair_of(secret@)),
{
    match libp2p::identity::Keypair::ed25519_from_bytes(secret) {
        Ok(k) => Some(k),
        Err(_) => None,
    }
}

/// The Ed25519 secret of the test identity for `seed`: the SHA-256 digest
/// of the seed's UTF-8 bytes.
pub fn test_seed_secret(seed: &str) -> (r: [u8; 32])
    ensures
        r@ == sha256(seed.spec_bytes()),
{
    let d = sha256_digest(seed.as_bytes());
    let mut r: [u8; 32] = [0u8; 32];
    let mut i: usize = 0;
    while i < 32
        invariant
            i <= 32,
            d@.len() == 32,
            forall|j: int| 0 <= j < i ==> r@[j] == d@[j],
        decreases 32 - i,
    {
        r[i] = d[i];
        i = i + 1;
    }
    assert(r@ =~= d@);
    r
}

/// Deterministic identity derived from a string. Only for automated tests
/// (e.g. jobs on different machines that must know each other's peer id);
/// anyone knowing the seed can impersonate the device.
pub fn from_test_seed(seed: &str) -> (r: libp2p::identity::Keypair)
    ensures
        r == ed25519_keypair_of(sha256(seed.spec_bytes())),
{
    let secret = test_seed_secret(seed);
    ed25519_keypair(secret).unwrap()
}

} // verus!
