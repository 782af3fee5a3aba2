//! Key agreement and key derivation: what the library relies on of [`x25519_dalek`] and
//! [`blake3`].

use vstd::prelude::*;
use x25519_dalek::{EphemeralSecret, PublicKey};

verus! {

/// The one-time secret of the `x25519-dalek` crate.
#[verifier::external_type_specification]
#[verifier::external_body]
pub struct ExEphemeralSecret(EphemeralSecret);

/// The public key that belongs to a secret.
pub uninterp spec fn x25519_public(secret: EphemeralSecret) -> Seq<u8>;

/// The secret that the holder of a secret shares with the owner of a public key.
pub uninterp spec fn x25519_shared(secret: EphemeralSecret, their_public: Seq<u8>) -> Seq<u8>;

/// The key that BLAKE3 derives from key material for a context.
pub uninterp spec fn blake3_key(context: Seq<char>, key_material: Seq<u8>) -> Seq<u8>;

/// `EphemeralSecret::random_from_rng` draws a secret. Nothing is claimed of which.
#[verifier::external_body]
pub(crate) fn random_secret() -> (s: EphemeralSecret) {
    EphemeralSecret::random_from_rng(rand::thread_rng())
}

/// `PublicKey::from` computes the public key of a secret.
#[verifier::external_body]
pub(crate) fn public_key(secret: &EphemeralSecret) -> (k: [u8; 32])
    ensures
        k@ == x25519_public(*secret),
{
    PublicKey::from(secret).to_bytes()
}

/// `EphemeralSecret::diffie_hellman` computes the secret shared with the owner of a public key:
/// whoever owns the key computes the same one from this secret's public key.
#[verifier::external_body]
pub(crate) fn shared_secret(secret: EphemeralSecret, their_public: [u8; 32]) -> (k: [u8; 32])
    ensures
        k@ == x25519_shared(secret, their_public@),
        forall|owner: EphemeralSecret|
            their_public@ == #[trigger] x25519_public(owner) ==> k@ == x25519_shared(
                owner,
                x25519_public(secret),
            ),
{
    secret.diffie_hellman(&PublicKey::from(their_public)).to_bytes()
}

/// `blake3::derive_key` derives a key from key material for a context.
#[verifier::external_body]
pub(crate) fn derive_key(context: &str, key_material: &[u8]) -> (k: [u8; 32])
    ensures
        k@ == blake3_key(context@, key_material@),
{
    blake3::derive_key(context, key_material)
}

} // verus!
