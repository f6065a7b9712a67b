//! Hashing, key agreement and authenticated encryption.
use vstd::prelude::*;

use crate::identity::x25519_public_of;

verus! {

/// What SHA-256 computes.
pub uninterp spec fn sha256_of(bytes: Seq<u8>) -> Seq<u8>;

/// The secret that X25519 derives from one side's secret and the other's public key.
pub uninterp spec fn x25519_shared_of(secret: Seq<u8>, public: Seq<u8>) -> Seq<u8>;

/// The ciphertext and tag of AES-256-GCM under a key, a nonce and associated data.
pub uninterp spec fn gcm_sealed(key: Seq<u8>, nonce: Seq<u8>, aad: Seq<u8>, message: Seq<u8>) -> Seq<
    u8,
>;

/// The longest message, and the longest associated data, that AES-GCM takes.
pub const GCM_MAX: u64 = 68_719_476_736;

/// Neither the associated data nor the message is too long.
pub open spec fn gcm_takes(aad: Seq<u8>, message: Seq<u8>) -> bool {
    aad.len() <= GCM_MAX && message.len() <= GCM_MAX
}

/// The ciphertext is that of the message.
pub open spec fn is_sealed(
    key: Seq<u8>,
    nonce: Seq<u8>,
    aad: Seq<u8>,
    sealed: Seq<u8>,
    message: Seq<u8>,
) -> bool {
    message.len() <= GCM_MAX && sealed == gcm_sealed(key, nonce, aad, message)
}

/// `Sha256::digest` of `sha2`: a function of the bytes alone.
#[verifier::external_body]
fn sha256_digest(bytes: &[u8]) -> (r: [u8; 32])
    ensures
        r@ == sha256_of(bytes@),
{
    <sha2::Sha256 as sha2::Digest>::digest(bytes).into()
}

/// `StaticSecret::diffie_hellman` of `x25519_dalek`: a function of both keys. Two sides that know
/// each other's public keys derive the same secret.
#[verifier::external_body]
fn x25519_agree(secret: &[u8; 32], public: &[u8; 32]) -> (r: [u8; 32])
    ensures
        r@ == x25519_shared_of(secret@, public@),
        forall|other: Seq<u8>|
            other.len() == 32 && public@ == #[trigger] x25519_public_of(other) ==> r@
                == x25519_shared_of(other, x25519_public_of(secret@)),
{
    x25519_dalek::StaticSecret::from(*secret)
        .diffie_hellman(&x25519_dalek::PublicKey::from(*public))
        .to_bytes()
}

/// `Aead::encrypt` of `aes_gcm` with `Aes256Gcm`: refuses only what is too long, and adds sixteen
/// bytes.
#[verifier::external_body]
fn gcm_encrypt(key: &[u8; 32], nonce: &[u8; 12], aad: &[u8], message: &[u8]) -> (r: Option<Vec<u8>>)
    ensures
        r is Some <==> gcm_takes(aad@, message@),
        r matches Some(c) ==> c@ == gcm_sealed(key@, nonce@, aad@, message@) && c@.len()
            == message@.len() + 16,
{
    let cipher: aes_gcm::Aes256Gcm = aes_gcm::KeyInit::new(key.into());
    aes_gcm::aead::Aead::encrypt(
        &cipher,
        aes_gcm::Nonce::from_slice(nonce),
        aes_gcm::aead::Payload { msg: message, aad },
    ).ok()
}

/// `Aead::decrypt` of `aes_gcm` with `Aes256Gcm`: the message whose ciphertext this is under the
/// same key, nonce and associated data, sixteen bytes shorter, and nothing where it is not the
/// ciphertext of any.
#[verifier::external_body]
fn gcm_decrypt(key: &[u8; 32], nonce: &[u8; 12], aad: &[u8], sealed: &[u8]) -> (r: Option<Vec<u8>>)
    ensures
        r matches Some(m) ==> m@.len() + 16 == sealed@.len(),
        r matches Some(m) ==> m@.len() > GCM_MAX || is_sealed(key@, nonce@, aad@, sealed@, m@),
        forall|m: Seq<u8>|
            aad@.len() <= GCM_MAX && #[trigger] is_sealed(key@, nonce@, aad@, sealed@, m)
                ==> r is Some && r->0@ == m,
{
    let cipher: aes_gcm::Aes256Gcm = aes_gcm::KeyInit::new(key.into());
    aes_gcm::aead::Aead::decrypt(
        &cipher,
        aes_gcm::Nonce::from_slice(nonce),
        aes_gcm::aead::Payload { msg: sealed, aad },
    ).ok()
}

/// The SHA-256 hash of bytes.
pub fn sha256(bytes: &[u8]) -> (r: [u8; 32])
    ensures
        r@ == sha256_of(bytes@),
{
    sha256_digest(bytes)
}

/// The secret that two sides share.
pub fn shared_secret(secret: &[u8; 32], public: &[u8; 32]) -> (r: [u8; 32])
    ensures
        r@ == x25519_shared_of(secret@, public@),
        forall|other: Seq<u8>|
            other.len() == 32 && public@ == #[trigger] x25519_public_of(other) ==> r@
                == x25519_shared_of(other, x25519_public_of(secret@)),
{
    x25519_agree(secret, public)
}

/// Encrypts a message; nothing where it is too long.
pub fn seal_message(key: &[u8; 32], nonce: &[u8; 12], aad: &[u8], message: &[u8]) -> (r: Option<Vec<u8>>)
    ensures
        r is Some <==> gcm_takes(aad@, message@),
        r matches Some(c) ==> is_sealed(key@, nonce@, aad@, c@, message@) && c@.len()
            == message@.len() + 16,
{
    gcm_encrypt(key, nonce, aad, message)
}

/// Decrypts a message; nothing where it was not encrypted like this.
pub fn open_message(key: &[u8; 32], nonce: &[u8; 12], aad: &[u8], sealed: &[u8]) -> (r: Option<Vec<u8>>)
    ensures
        r matches Some(m) ==> m@.len() + 16 == sealed@.len(),
        r matches Some(m) ==> m@.len() > GCM_MAX || is_sealed(key@, nonce@, aad@, sealed@, m@),
        forall|m: Seq<u8>|
            aad@.len() <= GCM_MAX && #[trigger] is_sealed(key@, nonce@, aad@, sealed@, m)
                ==> r is Some && r->0@ == m,
{
    gcm_decrypt(key, nonce, aad, sealed)
}

} // verus!
