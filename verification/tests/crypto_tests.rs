use base64::Engine;
use base64::prelude::BASE64_STANDARD;
use lib3mf_core::archive::ArchiveReader;
use lib3mf_core::crypto::context::SecureContext;
use lib3mf_core::crypto::encryption::{decrypt_aes256gcm, encrypt_aes256gcm};
use lib3mf_core::crypto::keys::KeyManager;
use lib3mf_core::crypto::verification::{
    check_reference_content, extract_key_from_signature, verify_signature, verify_signature_extended,
};
use lib3mf_core::error::Lib3mfError;
use lib3mf_core::model::crypto::{
    CanonicalizationMethod, DigestMethod, DigestValue, KeyInfo, KeyValue, RSAKeyValue, Reference, Signature,
    SignatureMethod, SignatureValue, SignedInfo, X509Data,
};
use lib3mf_core::model::secure_content::{AccessRight, KeyStore, ResourceDataGroup};
use rsa::pkcs8::{EncodePrivateKey, EncodePublicKey, LineEnding};
use rsa::signature::{SignatureEncoding, Signer};
use rsa::traits::PublicKeyParts;
use rsa::{RsaPrivateKey, RsaPublicKey};
use sha2::{Digest, Sha256};

const SHA256_URI: &str = "http://www.w3.org/2001/04/xmlenc#sha256";
const SHA1_URI: &str = "http://www.w3.org/2000/09/xmldsig#sha1";
const RSA_SHA256_URI: &str = "http://www.w3.org/2001/04/xmldsig-more#rsa-sha256";

fn private_key() -> RsaPrivateKey {
    RsaPrivateKey::new(&mut rand::rngs::OsRng, 1024).unwrap()
}

fn validation_message(r: Result<impl std::fmt::Debug, Lib3mfError>) -> String {
    match r {
        Err(Lib3mfError::Validation(m)) => m,
        other => panic!("expected a validation error, got {:?}", other),
    }
}

fn reference(uri: &str, method: &str, digest: &str) -> Reference {
    Reference {
        uri: uri.to_string(),
        digest_method: DigestMethod { algorithm: method.to_string() },
        digest_value: DigestValue { value: digest.to_string() },
        transforms: None,
    }
}

fn signature(references: Vec<Reference>, method: &str, value: &str, key_info: Option<KeyInfo>) -> Signature {
    Signature {
        signed_info: SignedInfo {
            canonicalization_method: CanonicalizationMethod {
                algorithm: "http://www.w3.org/2006/12/xml-c14n11".to_string(),
            },
            signature_method: SignatureMethod { algorithm: method.to_string() },
            references,
        },
        signature_value: SignatureValue { value: value.to_string() },
        key_info,
    }
}

fn sha256_b64(data: &[u8]) -> String {
    BASE64_STANDARD.encode(Sha256::digest(data))
}

fn sign(key: &RsaPrivateKey, message: &[u8]) -> String {
    let signing_key = rsa::pkcs1v15::SigningKey::<Sha256>::new(key.clone());
    BASE64_STANDARD.encode(signing_key.sign(message).to_bytes())
}

const PART: &[u8] = b"<model>content</model>";
const SIGNED_INFO: &[u8] = b"<SignedInfo>canonical</SignedInfo>";

fn resolver(uri: &str) -> Result<Vec<u8>, Lib3mfError> {
    if uri == "/3D/3dmodel.model" {
        Ok(PART.to_vec())
    } else {
        Err(Lib3mfError::Io(format!("missing {}", uri)))
    }
}

#[test]
fn aes_round_trip() {
    let key = [7u8; 32];
    let (ciphertext, nonce) = encrypt_aes256gcm(&key, b"secret model").unwrap();
    assert_eq!(nonce.len(), 12);
    assert_eq!(ciphertext.len(), b"secret model".len() + 16);
    assert_ne!(&ciphertext[..12], b"secret model");
    assert_eq!(decrypt_aes256gcm(&key, &nonce, &ciphertext).unwrap(), b"secret model");
}

#[test]
fn aes_key_and_nonce_lengths() {
    assert_eq!(validation_message(encrypt_aes256gcm(&[0u8; 16], b"x")), "Invalid key length for AES-256-GCM");
    assert_eq!(validation_message(decrypt_aes256gcm(&[0u8; 31], &[0u8; 12], b"x")), "Invalid key length for AES-256-GCM");
    assert_eq!(
        validation_message(decrypt_aes256gcm(&[0u8; 32], &[0u8; 11], b"x")),
        "Invalid nonce length for AES-256-GCM"
    );
}

#[test]
fn aes_tampered_ciphertext_fails() {
    let key = [9u8; 32];
    let (mut ciphertext, nonce) = encrypt_aes256gcm(&key, b"payload").unwrap();
    ciphertext[0] ^= 1;
    match decrypt_aes256gcm(&key, &nonce, &ciphertext) {
        Err(Lib3mfError::EncryptionError(m)) => assert!(m.starts_with("Decryption failed: ")),
        other => panic!("unexpected {:?}", other),
    }
    let other_key = [8u8; 32];
    let (c, n) = encrypt_aes256gcm(&key, b"payload").unwrap();
    assert!(matches!(decrypt_aes256gcm(&other_key, &n, &c), Err(Lib3mfError::EncryptionError(_))));
}

#[test]
fn key_manager_pem_and_wrapping() {
    let private = private_key();
    let public = RsaPublicKey::from(&private);
    let private_pem = private.to_pkcs8_pem(LineEnding::LF).unwrap();
    let public_pem = public.to_public_key_pem(LineEnding::LF).unwrap();
    let loaded_private = KeyManager::load_private_key(&private_pem).unwrap();
    let loaded_public = KeyManager::load_public_key(&public_pem).unwrap();
    let cek = [42u8; 32];
    let wrapped = KeyManager::wrap_key(&loaded_public, &cek).unwrap();
    assert_ne!(wrapped, cek.to_vec());
    assert_eq!(KeyManager::unwrap_key(&loaded_private, &wrapped).unwrap(), cek.to_vec());
    match KeyManager::unwrap_key(&loaded_private, &[1, 2, 3]) {
        Err(Lib3mfError::EncryptionError(m)) => assert!(m.starts_with("Key unwrapping failed: ")),
        other => panic!("unexpected {:?}", other),
    }
}

#[test]
fn key_manager_rejects_bad_pem() {
    assert!(validation_message(KeyManager::load_private_key("not a key")).starts_with("Invalid private key format: "));
    assert!(validation_message(KeyManager::load_public_key("not a key")).starts_with("Invalid public key format: "));
}

struct MemoryArchive {
    entries: Vec<(String, Vec<u8>)>,
}

impl ArchiveReader for MemoryArchive {
    fn entry(&self, _name: vstd::seq::Seq<char>) -> Option<vstd::seq::Seq<u8>> {
        None
    }

    fn has_entry(&self, _name: vstd::seq::Seq<char>) -> bool {
        false
    }

    fn read_entry(&mut self, name: &str) -> Result<Vec<u8>, Lib3mfError> {
        for (n, d) in &self.entries {
            if n == name {
                return Ok(d.clone());
            }
        }
        Err(Lib3mfError::Io(format!("Entry not found: {}", name)))
    }

    fn entry_exists(&mut self, name: &str) -> bool {
        self.entries.iter().any(|(n, _)| n == name)
    }

    fn list_entries(&mut self) -> Result<Vec<String>, Lib3mfError> {
        Ok(self.entries.iter().map(|(n, _)| n.clone()).collect())
    }
}

fn keystore_for(public: &RsaPublicKey, uuid: u128, cek: &[u8], consumer: &str) -> KeyStore {
    KeyStore {
        uuid: 1,
        consumers: vec![],
        resource_data_groups: vec![ResourceDataGroup {
            key_uuid: uuid,
            access_rights: vec![AccessRight {
                consumer_id: consumer.to_string(),
                algorithm: "http://www.w3.org/2009/xmlenc11#rsa-oaep-mgf1p".to_string(),
                wrapped_key: KeyManager::wrap_key(public, cek).unwrap(),
            }],
        }],
    }
}

#[test]
fn secure_context_decrypts_entry() {
    let private = private_key();
    let public = RsaPublicKey::from(&private);
    let cek = [5u8; 32];
    let uuid: u128 = 0x0123_4567_89ab_cdef_0123_4567_89ab_cdef;
    let (ciphertext, nonce) = encrypt_aes256gcm(&cek, b"hidden part").unwrap();
    let mut stored = nonce.clone();
    stored.extend_from_slice(&ciphertext);
    let mut archive = MemoryArchive { entries: vec![("3D/secret.model".to_string(), stored)] };
    let keystore = keystore_for(&public, uuid, &cek, "consumer-1");
    let mut ctx = SecureContext::new(
        keystore,
        private,
        vec![("3D/secret.model".to_string(), uuid)],
        "consumer-1".to_string(),
    );
    assert_eq!(ctx.decrypt_entry(&mut archive, "3D/secret.model").unwrap(), Some(b"hidden part".to_vec()));
    // The second read uses the cached key.
    assert_eq!(ctx.decrypt_entry(&mut archive, "3D/secret.model").unwrap(), Some(b"hidden part".to_vec()));
    // A path without a key is not encrypted.
    assert_eq!(ctx.decrypt_entry(&mut archive, "3D/other.model").unwrap(), None);
}

#[test]
fn secure_context_errors() {
    let private = private_key();
    let public = RsaPublicKey::from(&private);
    let cek = [6u8; 32];
    let uuid: u128 = 0x0123_4567_89ab_cdef_0123_4567_89ab_cdef;
    let mut archive = MemoryArchive { entries: vec![("3D/short.model".to_string(), vec![0u8; 20])] };
    let keystore = keystore_for(&public, uuid, &cek, "consumer-1");
    let mut ctx = SecureContext::new(
        keystore.clone(),
        private.clone(),
        vec![("3D/a.model".to_string(), 7), ("3D/short.model".to_string(), uuid)],
        "someone-else".to_string(),
    );
    assert_eq!(
        validation_message(ctx.decrypt_entry(&mut archive, "3D/a.model")),
        "KeyUUID 00000000-0000-0000-0000-000000000007 not found in KeyStore"
    );
    assert_eq!(
        validation_message(ctx.decrypt_entry(&mut archive, "3D/short.model")),
        "No access right for consumer someone-else in group 01234567-89ab-cdef-0123-456789abcdef"
    );
    let mut ctx = SecureContext::new(
        keystore,
        private,
        vec![("3D/short.model".to_string(), uuid)],
        "consumer-1".to_string(),
    );
    assert_eq!(validation_message(ctx.decrypt_entry(&mut archive, "3D/short.model")), "Encrypted file too short");
    assert!(matches!(ctx.decrypt_entry(&mut archive, "3D/missing.model"), Ok(None)));
}

#[test]
fn reference_content_checks() {
    let good = reference("/3D/3dmodel.model", SHA256_URI, &sha256_b64(PART));
    assert!(check_reference_content(&good, Ok(PART.to_vec())).is_ok());
    assert_eq!(
        validation_message(check_reference_content(&good, Ok(b"other".to_vec()))),
        "Digest mismatch for URI /3D/3dmodel.model"
    );
    assert!(matches!(
        check_reference_content(&good, Err(Lib3mfError::ResourceNotFound(4))),
        Err(Lib3mfError::ResourceNotFound(4))
    ));
    let sha1 = reference("/3D/3dmodel.model", SHA1_URI, &BASE64_STANDARD.encode(sha1::Sha1::digest(PART)));
    assert!(check_reference_content(&sha1, Ok(PART.to_vec())).is_ok());
    let wrong_sha1 = reference("/3D/3dmodel.model", SHA1_URI, &sha256_b64(PART));
    assert!(check_reference_content(&wrong_sha1, Ok(PART.to_vec())).is_err());
    let md5 = reference("/p", "http://www.w3.org/2001/04/xmldsig-more#md5", "AAAA");
    assert_eq!(
        validation_message(check_reference_content(&md5, Ok(vec![]))),
        "Unsupported digest method: http://www.w3.org/2001/04/xmldsig-more#md5"
    );
    let bad64 = reference("/p", SHA256_URI, "%%%");
    assert!(validation_message(check_reference_content(&bad64, Ok(vec![]))).starts_with("Invalid base64 digest: "));
}

#[test]
fn verify_signature_accepts_valid_signature() {
    let private = private_key();
    let public = RsaPublicKey::from(&private);
    let refs = vec![reference("/3D/3dmodel.model", SHA256_URI, &sha256_b64(PART))];
    let sig = signature(refs, RSA_SHA256_URI, &sign(&private, SIGNED_INFO), None);
    assert_eq!(verify_signature(&sig, &public, resolver, SIGNED_INFO).unwrap(), true);
    assert!(validation_message(verify_signature(&sig, &public, resolver, b"<SignedInfo>changed</SignedInfo>"))
        .starts_with("Signature verification failed: "));
}

#[test]
fn verify_signature_failures() {
    let private = private_key();
    let public = RsaPublicKey::from(&private);
    let value = sign(&private, SIGNED_INFO);
    let bad_ref = vec![reference("/3D/3dmodel.model", SHA256_URI, &sha256_b64(b"tampered"))];
    assert_eq!(
        validation_message(verify_signature(&signature(bad_ref, RSA_SHA256_URI, &value, None), &public, resolver, SIGNED_INFO)),
        "Digest mismatch for URI /3D/3dmodel.model"
    );
    let missing = vec![reference("/3D/missing.model", SHA256_URI, &sha256_b64(PART))];
    assert!(matches!(
        verify_signature(&signature(missing, RSA_SHA256_URI, &value, None), &public, resolver, SIGNED_INFO),
        Err(Lib3mfError::Io(m)) if m == "missing /3D/missing.model"
    ));
    let refs = vec![reference("/3D/3dmodel.model", SHA256_URI, &sha256_b64(PART))];
    assert_eq!(
        validation_message(verify_signature(&signature(refs.clone(), "urn:dsa", &value, None), &public, resolver, SIGNED_INFO)),
        "Unsupported signature method: urn:dsa"
    );
    assert!(validation_message(verify_signature(&signature(refs, RSA_SHA256_URI, "!!", None), &public, resolver, SIGNED_INFO))
        .starts_with("Invalid base64 signature: "));
}

#[test]
fn key_from_key_value() {
    let private = private_key();
    let public = RsaPublicKey::from(&private);
    let info = KeyInfo {
        key_name: None,
        key_value: Some(KeyValue {
            rsa_key_value: Some(RSAKeyValue {
                modulus: BASE64_STANDARD.encode(public.n().to_bytes_be()),
                exponent: BASE64_STANDARD.encode(public.e().to_bytes_be()),
            }),
        }),
        x509_data: None,
    };
    let refs = vec![reference("/3D/3dmodel.model", SHA256_URI, &sha256_b64(PART))];
    let sig = signature(refs, RSA_SHA256_URI, &sign(&private, SIGNED_INFO), Some(info));
    assert_eq!(extract_key_from_signature(&sig).unwrap(), public);
    assert_eq!(verify_signature_extended(&sig, resolver, SIGNED_INFO).unwrap(), true);
}

#[test]
fn key_extraction_failures() {
    let none = signature(vec![], RSA_SHA256_URI, "", None);
    assert_eq!(
        validation_message(extract_key_from_signature(&none)),
        "No usable KeyValue or X509Certificate found in KeyInfo"
    );
    let empty = signature(vec![], RSA_SHA256_URI, "", Some(KeyInfo { key_name: None, key_value: None, x509_data: None }));
    assert_eq!(
        validation_message(verify_signature_extended(&empty, resolver, SIGNED_INFO)),
        "No usable KeyValue or X509Certificate found in KeyInfo"
    );
    let bad_modulus = KeyInfo {
        key_name: None,
        key_value: Some(KeyValue {
            rsa_key_value: Some(RSAKeyValue { modulus: "*".to_string(), exponent: "AQAB".to_string() }),
        }),
        x509_data: None,
    };
    let sig = signature(vec![], RSA_SHA256_URI, "", Some(bad_modulus));
    assert!(validation_message(extract_key_from_signature(&sig)).starts_with("Invalid modulus base64: "));
    let bad_exponent = KeyInfo {
        key_name: None,
        key_value: Some(KeyValue {
            rsa_key_value: Some(RSAKeyValue { modulus: "AQAB".to_string(), exponent: "*".to_string() }),
        }),
        x509_data: None,
    };
    let sig = signature(vec![], RSA_SHA256_URI, "", Some(bad_exponent));
    assert!(validation_message(extract_key_from_signature(&sig)).starts_with("Invalid exponent base64: "));
    let tiny = KeyInfo {
        key_name: None,
        key_value: Some(KeyValue {
            rsa_key_value: Some(RSAKeyValue { modulus: "AQAB".to_string(), exponent: "AQAB".to_string() }),
        }),
        x509_data: None,
    };
    let sig = signature(vec![], RSA_SHA256_URI, "", Some(tiny));
    assert!(validation_message(extract_key_from_signature(&sig)).starts_with("Invalid RSA key components: "));
    let cert = KeyInfo {
        key_name: None,
        key_value: None,
        x509_data: Some(X509Data { certificate: Some(" AAAA \n BBBB ".to_string()) }),
    };
    let sig = signature(vec![], RSA_SHA256_URI, "", Some(cert));
    assert!(validation_message(extract_key_from_signature(&sig)).starts_with("Invalid X509 certificate: "));
    let cert = KeyInfo {
        key_name: None,
        key_value: None,
        x509_data: Some(X509Data { certificate: Some("A*".to_string()) }),
    };
    let sig = signature(vec![], RSA_SHA256_URI, "", Some(cert));
    assert!(validation_message(extract_key_from_signature(&sig)).starts_with("Invalid X509 base64: "));
}
