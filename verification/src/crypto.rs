//! The cryptographic collaborators. Nothing in this file is proved: each
//! function below hands its arguments to an outside crate, and its contract
//! records what that crate's source shows of the result.

use chacha20poly1305::aead::Aead;
use chacha20poly1305::{Key, KeyInit, XChaCha20Poly1305, XNonce};
use rand_chacha::rand_core::RngCore;
use rand_chacha::ChaCha20Rng;
use vstd::prelude::*;

verus! {

/// The error of `chacha20poly1305`: a unit value that says nothing of its cause.
#[verifier::external_type_specification]
#[verifier::external_body]
pub struct ExAeadError(chacha20poly1305::Error);

/// The generator from which nonces are drawn.
#[verifier::external_type_specification]
#[verifier::external_body]
pub struct ExChaCha20Rng(ChaCha20Rng);

/// What XChaCha20-Poly1305 makes of `plaintext` under `key` and `nonce`, with
/// no associated data: the ciphertext followed by its tag.
pub uninterp spec fn aead_sealed(key: Seq<u8>, nonce: Seq<u8>, plaintext: Seq<u8>) -> Seq<u8>;

/// What XChaCha20-Poly1305 recovers from `sealed` under `key` and `nonce`, with
/// no associated data: the plaintext, or nothing where the tag does not verify.
pub uninterp spec fn aead_opened(key: Seq<u8>, nonce: Seq<u8>, sealed: Seq<u8>) -> Option<Seq<u8>>;

/// The BLAKE3 digest of `input`.
pub uninterp spec fn blake3_of(input: Seq<u8>) -> Seq<u8>;

/// The Ed25519 public key that belongs to the 32-byte secret `secret`.
pub uninterp spec fn public_key_of(secret: Seq<u8>) -> Seq<u8>;

/// `XChaCha20Poly1305::encrypt` of `chacha20poly1305`, on a plaintext of at
/// most 16 MiB. The cipher refuses, and past its refusal runs out of key
/// stream, only on plaintexts of some 256 GiB, far beyond what is admitted
/// here; on what is admitted it returns the ciphertext, as long as the
/// plaintext, followed by the 16-byte tag. Opening that result under the same
/// key and nonce recomputes the same tag over the same ciphertext and so
/// gives the plaintext back.
#[verifier::external_body]
pub(crate) fn aead_seal(key: &[u8; 32], nonce: &[u8; 24], plaintext: &[u8]) -> (r: Result<
    Vec<u8>,
    chacha20poly1305::Error,
>)
    requires
        plaintext@.len() <= 16777216,
    ensures
        r is Ok,
        r matches Ok(c) ==> c@ == aead_sealed(key@, nonce@, plaintext@),
        r matches Ok(c) ==> c@.len() == plaintext@.len() + 16,
        r matches Ok(c) ==> aead_opened(key@, nonce@, c@) == Some(plaintext@),
{
    XChaCha20Poly1305::new(Key::from_slice(key)).encrypt(XNonce::from_slice(nonce), plaintext)
}

/// `XChaCha20Poly1305::decrypt` of `chacha20poly1305`, on an input of at most
/// 16 MiB. It fails on an input shorter than the tag and wherever the tag
/// does not verify; where it succeeds, the plaintext is what is left of the
/// input without its tag.
#[verifier::external_body]
pub(crate) fn aead_open(key: &[u8; 32], nonce: &[u8; 24], sealed: &[u8]) -> (r: Result<
    Vec<u8>,
    chacha20poly1305::Error,
>)
    requires
        sealed@.len() <= 16777216,
    ensures
        r matches Ok(p) ==> aead_opened(key@, nonce@, sealed@) == Some(p@),
        r matches Ok(p) ==> p@.len() + 16 == sealed@.len(),
        r is Err ==> aead_opened(key@, nonce@, sealed@) is None,
{
    XChaCha20Poly1305::new(Key::from_slice(key)).decrypt(XNonce::from_slice(nonce), sealed)
}

/// `blake3::hash`: the 32-byte digest of the input.
#[verifier::external_body]
pub(crate) fn blake3_digest(input: &[u8; 32]) -> (r: [u8; 32])
    ensures
        r@ == blake3_of(input@),
{
    *blake3::hash(input).as_bytes()
}

/// `SecretKey::public` of `iroh_base`, on the secret key that
/// `SecretKey::from_bytes` makes of the 32 bytes: the bytes of its public key.
#[verifier::external_body]
pub(crate) fn public_key(secret: &[u8; 32]) -> (r: [u8; 32])
    ensures
        r@ == public_key_of(secret@),
{
    *iroh_base::key::SecretKey::from_bytes(secret).public().as_bytes()
}

/// `RngCore::fill_bytes` of `rand_chacha`'s `ChaCha20Rng`, on a buffer of
/// nonce width. Nothing is promised of the bytes drawn.
#[verifier::external_body]
pub(crate) fn fresh_nonce(rng: &mut ChaCha20Rng) -> (nonce: [u8; 24]) {
    let mut nonce = [0u8; 24];
    rng.fill_bytes(&mut nonce);
    nonce
}

} // verus!
