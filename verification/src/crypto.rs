//! Ed25519 keys and signatures, and the operating system's random bytes.
use ed25519_dalek::Signer;
use vstd::prelude::*;

verus! {

/// A secret key of `ed25519-dalek`, which wipes its bytes when it is dropped.
#[verifier::external_type_specification]
#[verifier::external_body]
pub struct ExSigningKey(ed25519_dalek::SigningKey);

/// The seed of a secret key.
pub uninterp spec fn seed_of(key: ed25519_dalek::SigningKey) -> Seq<u8>;

/// The public key that `ed25519-dalek` derives from a 32-byte secret seed.
pub uninterp spec fn public_key_of(seed: Seq<u8>) -> Seq<u8>;

/// Whether `ed25519-dalek` decodes these 32 bytes as a public key.
pub uninterp spec fn is_public_key(bytes: Seq<u8>) -> bool;

/// The signature that `ed25519-dalek` makes with the seed over the message.
pub uninterp spec fn signature_of(seed: Seq<u8>, message: Seq<u8>) -> Seq<u8>;

/// Whether `ed25519-dalek`'s strict check accepts the signature of the message under the public
/// key.
pub uninterp spec fn signature_accepted(key: Seq<u8>, message: Seq<u8>, sig: Seq<u8>) -> bool;

/// The signature's first half, which encodes a curve point, encodes the neutral element. The
/// strict check refuses such a signature, and a signer makes one only where its nonce is zero.
pub open spec fn has_neutral_point(sig: Seq<u8>) -> bool {
    sig.len() == 64 && sig[0] == 1 && forall|i: int| 1 <= i < 32 ==> sig[i] == 0
}

/// `ed25519_dalek::SigningKey::from_bytes`: the secret key with this seed.
#[verifier::external_body]
pub(crate) fn signing_key(seed: &[u8; 32]) -> (r: ed25519_dalek::SigningKey)
    ensures
        seed_of(r) == seed@,
{
    ed25519_dalek::SigningKey::from_bytes(seed)
}

/// `ed25519_dalek::SigningKey::as_bytes`: the seed of a secret key.
#[verifier::external_body]
pub(crate) fn seed_bytes(key: &ed25519_dalek::SigningKey) -> (r: &[u8; 32])
    ensures
        r@ == seed_of(*key),
{
    key.as_bytes()
}

/// `ed25519_dalek::SigningKey::verifying_key`: the public key of a secret key. It is always one
/// that `VerifyingKey::from_bytes` decodes.
#[verifier::external_body]
pub(crate) fn public_key(key: &ed25519_dalek::SigningKey) -> (r: [u8; 32])
    ensures
        r@ == public_key_of(seed_of(*key)),
        is_public_key(r@),
{
    key.verifying_key().to_bytes()
}

/// `ed25519_dalek::VerifyingKey::from_bytes`: whether the bytes decode as a public key.
#[verifier::external_body]
pub(crate) fn check_public_key(bytes: &[u8; 32]) -> (r: bool)
    ensures
        r == is_public_key(bytes@),
{
    ed25519_dalek::VerifyingKey::from_bytes(bytes).is_ok()
}

/// `ed25519_dalek::SigningKey::sign`: the signature over the message. The strict check accepts
/// it under the key's own public key, unless the signature's point is the neutral element.
#[verifier::external_body]
pub(crate) fn sign(key: &ed25519_dalek::SigningKey, message: &[u8]) -> (r: [u8; 64])
    ensures
        r@ == signature_of(seed_of(*key), message@),
        !has_neutral_point(r@) ==> signature_accepted(
            public_key_of(seed_of(*key)),
            message@,
            r@,
        ),
{
    key.sign(message).to_bytes()
}

/// `ed25519_dalek::VerifyingKey::verify_strict`: whether the signature of the message holds under
/// the key. Bytes that decode to no public key are answered with `false`.
#[verifier::external_body]
pub(crate) fn verify_strict(key: &[u8; 32], message: &[u8], sig: &[u8; 64]) -> (r: bool)
    ensures
        r == signature_accepted(key@, message@, sig@),
{
    let sig = ed25519_dalek::Signature::from_bytes(sig);
    match ed25519_dalek::VerifyingKey::from_bytes(key) {
        Ok(key) => key.verify_strict(message, &sig).is_ok(),
        Err(_) => false,
    }
}

/// `getrandom::fill`: `n` bytes from the operating system, or `None` where it has none to give.
/// Nothing is said of what the bytes are. No vector is longer than `isize::MAX`.
#[verifier::external_body]
pub(crate) fn random_bytes(n: usize) -> (r: Option<Vec<u8>>)
    requires
        n <= isize::MAX,
    ensures
        r matches Some(v) ==> v@.len() == n,
{
    let mut bytes = vec![0u8; n];
    match getrandom::fill(&mut bytes) {
        Ok(()) => Some(bytes),
        Err(_) => None,
    }
}

} // verus!
