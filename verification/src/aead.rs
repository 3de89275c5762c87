//! Authenticated encryption: XChaCha20-Poly1305 with random 24-byte nonces.

use vstd::prelude::*;

use crate::error::VaulturaError;
use chacha20poly1305::aead::Aead;
use chacha20poly1305::{KeyInit, XChaCha20Poly1305, XNonce};
use rand::Rng;

verus! {

/// Length in bytes of the nonce.
pub const NONCE_LENGTH: usize = 24;

/// Length in bytes of the authentication tag appended to every ciphertext.
pub const TAG_LENGTH: usize = 16;

/// The XChaCha20-Poly1305 ciphertext (message plus tag) for a key, nonce and
/// plaintext. A name for what the cipher returns: the result depends on these
/// arguments alone.
pub uninterp spec fn xchacha_seal(key: Seq<u8>, nonce: Seq<u8>, plaintext: Seq<u8>) -> Seq<u8>;

/// The result of authenticated decryption for a key, nonce and ciphertext:
/// the recovered plaintext, or nothing when authentication fails. A name for
/// what the cipher returns: the result depends on these arguments alone.
pub uninterp spec fn xchacha_open(key: Seq<u8>, nonce: Seq<u8>, ciphertext: Seq<u8>) -> Option<
    Seq<u8>,
>;

/// Relies on chacha20poly1305::XChaCha20Poly1305 through aead::Aead::encrypt,
/// with a freshly random nonce: under a 32-byte key the call succeeds for any
/// plaintext within the cipher's length bound; the ciphertext is the sealed
/// plaintext under the returned 24-byte nonce, is 16 bytes longer than the
/// plaintext, and opens back to the plaintext under the same key and nonce.
#[verifier::external_body]
pub fn encrypt(key: &Vec<u8>, plaintext: &[u8]) -> (r: Result<
    (Vec<u8>, Vec<u8>),
    VaulturaError,
>)
    requires
        key@.len() == 32,
        plaintext@.len() <= 0xffff_ffff,
    ensures
        r is Ok,
        r matches Ok((nonce, ct)) ==> {
            &&& nonce@.len() == NONCE_LENGTH
            &&& ct@ == xchacha_seal(key@, nonce@, plaintext@)
            &&& ct@.len() == plaintext@.len() + TAG_LENGTH
            &&& xchacha_open(key@, nonce@, ct@) == Some(plaintext@)
        },
{
    let cipher = match XChaCha20Poly1305::new_from_slice(key.as_slice()) {
        Ok(c) => c,
        Err(e) => return Err(VaulturaError::Encryption(e.to_string())),
    };
    let mut nonce_bytes = [0u8; 24];
    rand::rng().fill_bytes(&mut nonce_bytes);
    let nonce = XNonce::from(nonce_bytes);
    match cipher.encrypt(&nonce, plaintext) {
        Ok(ct) => Ok((nonce_bytes.to_vec(), ct)),
        Err(e) => Err(VaulturaError::Encryption(e.to_string())),
    }
}

/// Relies on chacha20poly1305::XChaCha20Poly1305 through aead::Aead::decrypt:
/// under a 32-byte key and 24-byte nonce, decryption succeeds exactly when
/// the ciphertext authenticates under them, and then returns the sealed
/// plaintext.
#[verifier::external_body]
pub fn decrypt(key: &Vec<u8>, nonce: &[u8], ciphertext: &[u8]) -> (r: Result<
    Vec<u8>,
    VaulturaError,
>)
    requires
        key@.len() == 32,
        nonce@.len() == NONCE_LENGTH,
        ciphertext@.len() <= 0xffff_ffff,
    ensures
        r is Ok <==> xchacha_open(key@, nonce@, ciphertext@) is Some,
        r matches Ok(p) ==> xchacha_open(key@, nonce@, ciphertext@) == Some(p@),
        r matches Err(e) ==> e is Decryption,
{
    let cipher = match XChaCha20Poly1305::new_from_slice(key.as_slice()) {
        Ok(c) => c,
        Err(e) => return Err(VaulturaError::Decryption(e.to_string())),
    };
    let nonce_arr: [u8; 24] = match nonce.try_into() {
        Ok(a) => a,
        Err(_) => return Err(VaulturaError::Decryption("bad nonce length".to_owned())),
    };
    let nonce = XNonce::from(nonce_arr);
    match cipher.decrypt(&nonce, ciphertext) {
        Ok(p) => Ok(p),
        Err(e) => Err(VaulturaError::Decryption(e.to_string())),
    }
}

} // verus!
