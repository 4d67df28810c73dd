//! The authenticated-encryption primitive of the encrypted transport:
//! AES-256-GCM frame sealing and opening, and PBKDF2 key derivation, each
//! consumed through a named result.

use vstd::prelude::*;

verus! {

/// The 32-byte key that PBKDF2-HMAC-SHA512 with 10240 iterations derives
/// from a salt and a seed; the result depends on those two alone.
pub uninterp spec fn derived_key(salt: Seq<u8>, seed: Seq<u8>) -> Seq<u8>;

/// What AES-256-GCM sealing produces, named raw (see `sealed`, which pins
/// the documented output length and is the form the contracts use).
pub uninterp spec fn sealed_raw(key: Seq<u8>, nonce: Seq<u8>, pt: Seq<u8>) -> Seq<u8>;

/// The AES-256-GCM sealing of plaintext `pt` under `key` and `nonce` with
/// empty associated data: the ciphertext followed by the 16-byte tag.  The
/// bytes are the named result; the length, which the algorithm documents as
/// the plaintext's plus the tag's, is pinned by construction.
pub open spec fn sealed(key: Seq<u8>, nonce: Seq<u8>, pt: Seq<u8>) -> Seq<u8> {
    Seq::new(
        pt.len() + 16,
        |i: int|
            if i < sealed_raw(key, nonce, pt).len() {
                sealed_raw(key, nonce, pt)[i]
            } else {
                0u8
            },
    )
}

/// Relies on ring::pbkdf2::derive with PBKDF2_HMAC_SHA512 and 10240
/// iterations: fills 32 bytes that depend on the salt and the seed alone.
#[verifier::external_body]
pub(crate) fn derive_key(salt: &[u8], seed: &[u8]) -> (r: Vec<u8>)
    ensures
        r@ == derived_key(salt@, seed@),
        r@.len() == 32,
{
    let mut out = vec![0u8; 32];
    ring::pbkdf2::derive(
        ring::pbkdf2::PBKDF2_HMAC_SHA512,
        core::num::NonZeroU32::new(10240).unwrap(),
        salt,
        seed,
        &mut out,
    );
    out
}

/// Relies on ring's AES-256-GCM seal_in_place_append_tag with empty
/// associated data: seals the buffer in place under the 32-byte key and
/// 12-byte nonce, appending the 16-byte tag; the output depends on key,
/// nonce and plaintext alone.
#[verifier::external_body]
pub fn encrypt_frame(data: &mut Vec<u8>, key: &[u8], iv: &[u8])
    requires
        key@.len() == 32,
        iv@.len() == 12,
        old(data)@.len() < 0xffffffff,
    ensures
        final(data)@ == sealed_raw(key@, iv@, old(data)@),
        final(data)@ == sealed(key@, iv@, old(data)@),
{
    let unbound = ring::aead::UnboundKey::new(&ring::aead::AES_256_GCM, key).unwrap();
    let sealing = ring::aead::LessSafeKey::new(unbound);
    let mut nonce_bytes = [0u8; 12];
    nonce_bytes.copy_from_slice(iv);
    let nonce = ring::aead::Nonce::assume_unique_for_key(nonce_bytes);
    sealing.seal_in_place_append_tag(nonce, ring::aead::Aad::empty(), data).unwrap();
}

/// Relies on ring's AES-256-GCM open_in_place with empty associated data:
/// it succeeds exactly on a buffer that some plaintext seals to under the
/// same key and nonce, and then returns that plaintext, which is unique
/// because decryption is the deterministic inverse of encryption.
#[verifier::external_body]
pub fn decrypt_frame(data: &Vec<u8>, key: &[u8], iv: &[u8]) -> (r: Option<Vec<u8>>)
    requires
        key@.len() == 32,
        iv@.len() == 12,
    ensures
        r matches Some(pt) ==> sealed(key@, iv@, pt@) == data@,
        r matches Some(pt) ==> forall|m: Seq<u8>| sealed(key@, iv@, m) == data@ ==> m == pt@,
        r is None ==> forall|m: Seq<u8>| sealed(key@, iv@, m) != data@,
{
    let unbound = ring::aead::UnboundKey::new(&ring::aead::AES_256_GCM, key).unwrap();
    let opening = ring::aead::LessSafeKey::new(unbound);
    let mut nonce_bytes = [0u8; 12];
    nonce_bytes.copy_from_slice(iv);
    let nonce = ring::aead::Nonce::assume_unique_for_key(nonce_bytes);
    let mut buf = data.clone();
    match opening.open_in_place(nonce, ring::aead::Aad::empty(), &mut buf) {
        Ok(pt) => {
            let n = pt.len();
            buf.truncate(n);
            Some(buf)
        },
        Err(_) => None,
    }
}

} // verus!
