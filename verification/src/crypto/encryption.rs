//! AES-256-GCM encryption of package content.

use vstd::prelude::*;
use crate::error::Lib3mfError;
use aes_gcm::aead::{Aead, KeyInit};
use aes_gcm::{Aes256Gcm, Key, Nonce};
use rand::RngCore;

verus! {

/// What AES-256-GCM (the `aes-gcm` crate) makes of a plaintext under a key and nonce: the
/// ciphertext with its tag appended, or the error message.
pub uninterp spec fn aes_gcm_sealed(key: Seq<u8>, nonce: Seq<u8>, plaintext: Seq<u8>) -> Result<Seq<u8>, Seq<char>>;

/// What AES-256-GCM makes of a ciphertext (tag appended) under a key and nonce: the
/// plaintext, or the error message when the tag does not match.
pub uninterp spec fn aes_gcm_opened(key: Seq<u8>, nonce: Seq<u8>, ciphertext: Seq<u8>) -> Result<Seq<u8>, Seq<char>>;

/// Twelve bytes from the operating system's random source (`rand`'s `OsRng`). Nothing is
/// stated of them but their number.
#[verifier::external_body]
fn random_nonce() -> (n: Vec<u8>)
    ensures
        n@.len() == 12,
{
    let mut n = vec![0u8; 12];
    rand::rngs::OsRng.fill_bytes(&mut n);
    n
}

/// Encrypts with `Aes256Gcm::encrypt`. The result is a function of the arguments alone and
/// is not stated here, but for its length: the ciphertext is as long as the plaintext, and
/// the 16-byte tag is appended.
#[verifier::external_body]
fn seal(key: &[u8], nonce: &[u8], plaintext: &[u8]) -> (r: Result<Vec<u8>, String>)
    requires
        key@.len() == 32,
        nonce@.len() == 12,
    ensures
        match r {
            Ok(c) => aes_gcm_sealed(key@, nonce@, plaintext@) == Ok::<Seq<u8>, Seq<char>>(c@)
                && c@.len() == plaintext@.len() + 16,
            Err(m) => aes_gcm_sealed(key@, nonce@, plaintext@) == Err::<Seq<u8>, Seq<char>>(m@),
        },
{
    let cipher = Aes256Gcm::new(Key::<Aes256Gcm>::from_slice(key));
    cipher.encrypt(Nonce::from_slice(nonce), plaintext).map_err(|e| e.to_string())
}

/// Decrypts with `Aes256Gcm::decrypt`. The result is a function of the arguments alone and
/// is not stated here, but for what authenticated encryption promises: a ciphertext that
/// sealing a plaintext under this key and nonce gave opens to that plaintext.
#[verifier::external_body]
fn open(key: &[u8], nonce: &[u8], ciphertext: &[u8]) -> (r: Result<Vec<u8>, String>)
    requires
        key@.len() == 32,
        nonce@.len() == 12,
    ensures
        match r {
            Ok(p) => aes_gcm_opened(key@, nonce@, ciphertext@) == Ok::<Seq<u8>, Seq<char>>(p@)
                && forall|q: Seq<u8>| #[trigger] aes_gcm_sealed(key@, nonce@, q) == Ok::<Seq<u8>, Seq<char>>(ciphertext@) ==> q == p@,
            Err(m) => aes_gcm_opened(key@, nonce@, ciphertext@) == Err::<Seq<u8>, Seq<char>>(m@)
                && forall|q: Seq<u8>| #[trigger] aes_gcm_sealed(key@, nonce@, q) != Ok::<Seq<u8>, Seq<char>>(ciphertext@),
        },
{
    let cipher = Aes256Gcm::new(Key::<Aes256Gcm>::from_slice(key));
    cipher.decrypt(Nonce::from_slice(nonce), ciphertext).map_err(|e| e.to_string())
}

/// The message for a key of the wrong length.
pub open spec fn key_length_message() -> Seq<char> {
    "Invalid key length for AES-256-GCM"@
}

/// Encrypts `plaintext` under a 32-byte key with a fresh random 12-byte nonce, returning
/// the ciphertext (tag appended) and the nonce. A key of another length is a validation
/// error; a failure of the cipher is an encryption error.
pub fn encrypt_aes256gcm(key: &[u8], plaintext: &[u8]) -> (r: Result<(Vec<u8>, Vec<u8>), Lib3mfError>)
    ensures
        key@.len() != 32 ==> (r matches Err(Lib3mfError::Validation(m)) && m@ == key_length_message()),
        key@.len() == 32 ==> match r {
            Ok((c, n)) => n@.len() == 12 && aes_gcm_sealed(key@, n@, plaintext@) == Ok::<Seq<u8>, Seq<char>>(c@)
                && c@.len() == plaintext@.len() + 16,
            Err(e) => e matches Lib3mfError::EncryptionError(m) && exists|n: Seq<u8>| n.len() == 12
                && #[trigger] aes_gcm_sealed(key@, n, plaintext@) is Err
                && m@ == "Encryption failed: "@ + aes_gcm_sealed(key@, n, plaintext@)->Err_0,
        },
{
    if key.len() != 32 {
        return Err(Lib3mfError::Validation(String::from_str("Invalid key length for AES-256-GCM")));
    }
    let nonce = random_nonce();
    match seal(key, nonce.as_slice(), plaintext) {
        Ok(c) => Ok((c, nonce)),
        Err(m) => Err(Lib3mfError::EncryptionError(String::from_str("Encryption failed: ").concat(m.as_str()))),
    }
}

/// Decrypts a ciphertext (tag appended) under a 32-byte key and 12-byte nonce. Keys and
/// nonces of other lengths are validation errors; a ciphertext that does not authenticate
/// is an encryption error. What [`encrypt_aes256gcm`] gave decrypts to what it encrypted.
pub fn decrypt_aes256gcm(key: &[u8], nonce: &[u8], ciphertext: &[u8]) -> (r: Result<Vec<u8>, Lib3mfError>)
    ensures
        key@.len() != 32 ==> (r matches Err(Lib3mfError::Validation(m)) && m@ == key_length_message()),
        key@.len() == 32 && nonce@.len() != 12 ==> (r matches Err(Lib3mfError::Validation(m))
            && m@ == "Invalid nonce length for AES-256-GCM"@),
        key@.len() == 32 && nonce@.len() == 12 ==> match aes_gcm_opened(key@, nonce@, ciphertext@) {
            Ok(p) => r matches Ok(v) && v@ == p,
            Err(x) => r matches Err(Lib3mfError::EncryptionError(m)) && m@ == "Decryption failed: "@ + x,
        },
        forall|p: Seq<u8>| key@.len() == 32 && nonce@.len() == 12
            && #[trigger] aes_gcm_sealed(key@, nonce@, p) == Ok::<Seq<u8>, Seq<char>>(ciphertext@)
            ==> (r matches Ok(v) && v@ == p),
{
    if key.len() != 32 {
        return Err(Lib3mfError::Validation(String::from_str("Invalid key length for AES-256-GCM")));
    }
    if nonce.len() != 12 {
        return Err(Lib3mfError::Validation(String::from_str("Invalid nonce length for AES-256-GCM")));
    }
    match open(key, nonce, ciphertext) {
        Ok(p) => Ok(p),
        Err(m) => Err(Lib3mfError::EncryptionError(String::from_str("Decryption failed: ").concat(m.as_str()))),
    }
}

} // verus!
