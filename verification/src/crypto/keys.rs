//! RSA keys: reading them from PEM text, and wrapping content keys with RSA-OAEP.

use vstd::prelude::*;
use crate::error::Lib3mfError;
use rsa::pkcs1::{DecodeRsaPrivateKey, DecodeRsaPublicKey};
use rsa::pkcs8::{DecodePrivateKey, DecodePublicKey};
use rsa::{Oaep, RsaPrivateKey, RsaPublicKey};
use rsa::pkcs1v15::Signature as Pkcs1v15Signature;
use sha1::Sha1;

verus! {

/// An RSA private key.
#[verifier::external_type_specification]
#[verifier::external_body]
pub struct ExRsaPrivateKey(rsa::RsaPrivateKey);

/// An RSA public key.
#[verifier::external_type_specification]
#[verifier::external_body]
pub struct ExRsaPublicKey(rsa::RsaPublicKey);

/// An RSASSA-PKCS1-v1_5 signature value.
#[verifier::external_type_specification]
#[verifier::external_body]
pub struct ExPkcs1v15Signature(Pkcs1v15Signature);

/// Why the `rsa` crate refuses PEM text as a PKCS#1 private key, or `None` when it reads one.
pub uninterp spec fn pkcs1_private_error(pem: Seq<char>) -> Option<Seq<char>>;

/// Why the `rsa` crate refuses PEM text as a PKCS#8 private key, or `None` when it reads one.
pub uninterp spec fn pkcs8_private_error(pem: Seq<char>) -> Option<Seq<char>>;

/// Why the `rsa` crate refuses PEM text as a PKCS#1 public key, or `None` when it reads one.
pub uninterp spec fn pkcs1_public_error(pem: Seq<char>) -> Option<Seq<char>>;

/// Why the `rsa` crate refuses PEM text as a public key info (SPKI), or `None` when it
/// reads one.
pub uninterp spec fn spki_public_error(pem: Seq<char>) -> Option<Seq<char>>;

/// Reads a PKCS#1 private key with `RsaPrivateKey::from_pkcs1_pem`. Whether it succeeds,
/// and the error message, are functions of the text; the key read is not described.
#[verifier::external_body]
fn private_pkcs1(pem: &str) -> (r: Result<RsaPrivateKey, String>)
    ensures
        match r {
            Ok(_) => pkcs1_private_error(pem@) is None,
            Err(m) => pkcs1_private_error(pem@) == Some(m@),
        },
{
    RsaPrivateKey::from_pkcs1_pem(pem).map_err(|e| e.to_string())
}

/// Reads a PKCS#8 private key with `RsaPrivateKey::from_pkcs8_pem`. Whether it succeeds,
/// and the error message, are functions of the text; the key read is not described.
#[verifier::external_body]
fn private_pkcs8(pem: &str) -> (r: Result<RsaPrivateKey, String>)
    ensures
        match r {
            Ok(_) => pkcs8_private_error(pem@) is None,
            Err(m) => pkcs8_private_error(pem@) == Some(m@),
        },
{
    RsaPrivateKey::from_pkcs8_pem(pem).map_err(|e| e.to_string())
}

/// Reads a PKCS#1 public key with `RsaPublicKey::from_pkcs1_pem`. Whether it succeeds,
/// and the error message, are functions of the text; the key read is not described.
#[verifier::external_body]
fn public_pkcs1(pem: &str) -> (r: Result<RsaPublicKey, String>)
    ensures
        match r {
            Ok(_) => pkcs1_public_error(pem@) is None,
            Err(m) => pkcs1_public_error(pem@) == Some(m@),
        },
{
    RsaPublicKey::from_pkcs1_pem(pem).map_err(|e| e.to_string())
}

/// Reads a public key info with `RsaPublicKey::from_public_key_pem`. Whether it succeeds,
/// and the error message, are functions of the text; the key read is not described.
#[verifier::external_body]
fn public_spki(pem: &str) -> (r: Result<RsaPublicKey, String>)
    ensures
        match r {
            Ok(_) => spki_public_error(pem@) is None,
            Err(m) => spki_public_error(pem@) == Some(m@),
        },
{
    RsaPublicKey::from_public_key_pem(pem).map_err(|e| e.to_string())
}

/// Encrypts with RSA-OAEP (SHA-1) and the operating system's random source. The padding is
/// random, so nothing is stated of the result.
#[verifier::external_body]
fn oaep_encrypt(key: &RsaPublicKey, data: &[u8]) -> Result<Vec<u8>, String> {
    key.encrypt(&mut rand::rngs::OsRng, Oaep::new::<Sha1>(), data).map_err(|e| e.to_string())
}

/// Decrypts with RSA-OAEP (SHA-1). The key is opaque here, so nothing is stated of the
/// result.
#[verifier::external_body]
fn oaep_decrypt(key: &RsaPrivateKey, data: &[u8]) -> Result<Vec<u8>, String> {
    key.decrypt(Oaep::new::<Sha1>(), data).map_err(|e| e.to_string())
}

/// RSA key handling.
pub struct KeyManager;

impl KeyManager {
    /// Reads an RSA private key from PEM text, as PKCS#1 and else as PKCS#8; when neither
    /// reads it, a validation error with the PKCS#8 reader's message.
    pub fn load_private_key(pem: &str) -> (r: Result<RsaPrivateKey, Lib3mfError>)
        ensures
            r is Ok <==> pkcs1_private_error(pem@) is None || pkcs8_private_error(pem@) is None,
            r is Err ==> (r matches Err(Lib3mfError::Validation(m))
                && m@ == "Invalid private key format: "@ + pkcs8_private_error(pem@)->Some_0),
    {
        match private_pkcs1(pem) {
            Ok(k) => Ok(k),
            Err(_) => match private_pkcs8(pem) {
                Ok(k) => Ok(k),
                Err(e) => Err(Lib3mfError::Validation(String::from_str("Invalid private key format: ").concat(e.as_str()))),
            },
        }
    }

    /// Reads an RSA public key from PEM text, as PKCS#1 and else as a public key info; when
    /// neither reads it, a validation error with the second reader's message.
    pub fn load_public_key(pem: &str) -> (r: Result<RsaPublicKey, Lib3mfError>)
        ensures
            r is Ok <==> pkcs1_public_error(pem@) is None || spki_public_error(pem@) is None,
            r is Err ==> (r matches Err(Lib3mfError::Validation(m))
                && m@ == "Invalid public key format: "@ + spki_public_error(pem@)->Some_0),
    {
        match public_pkcs1(pem) {
            Ok(k) => Ok(k),
            Err(_) => match public_spki(pem) {
                Ok(k) => Ok(k),
                Err(e) => Err(Lib3mfError::Validation(String::from_str("Invalid public key format: ").concat(e.as_str()))),
            },
        }
    }

    /// Wraps (encrypts) a content key with the public key, by RSA-OAEP with SHA-1; a failure
    /// is an encryption error.
    pub fn wrap_key(public_key: &RsaPublicKey, cek: &[u8]) -> (r: Result<Vec<u8>, Lib3mfError>)
        ensures
            r is Err ==> (r matches Err(Lib3mfError::EncryptionError(m)) && m@.take(21) == "Key wrapping failed: "@),
    {
        match oaep_encrypt(public_key, cek) {
            Ok(w) => Ok(w),
            Err(e) => {
                let m = String::from_str("Key wrapping failed: ").concat(e.as_str());
                proof {
                    reveal_strlit("Key wrapping failed: ");
                    assert(m@.take(21) =~= "Key wrapping failed: "@);
                }
                Err(Lib3mfError::EncryptionError(m))
            },
        }
    }

    /// Unwraps (decrypts) a content key with the private key, by RSA-OAEP with SHA-1; a
    /// failure is an encryption error.
    pub fn unwrap_key(private_key: &RsaPrivateKey, wrapped_key: &[u8]) -> (r: Result<Vec<u8>, Lib3mfError>)
        ensures
            r is Err ==> (r matches Err(Lib3mfError::EncryptionError(m)) && m@.take(23) == "Key unwrapping failed: "@),
    {
        match oaep_decrypt(private_key, wrapped_key) {
            Ok(k) => Ok(k),
            Err(e) => {
                let m = String::from_str("Key unwrapping failed: ").concat(e.as_str());
                proof {
                    reveal_strlit("Key unwrapping failed: ");
                    assert(m@.take(23) =~= "Key unwrapping failed: "@);
                }
                Err(Lib3mfError::EncryptionError(m))
            },
        }
    }
}

} // verus!
