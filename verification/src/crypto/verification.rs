//! XML signature checks: the digests of the references, the signature value, and the key
//! carried in `KeyInfo`.

use vstd::prelude::*;
use crate::error::Lib3mfError;
use crate::model::crypto::{Reference, Signature};
use crate::text::{remove_white, same_text, unspaced};
use base64::Engine;
use base64::prelude::BASE64_STANDARD;
use rsa::RsaPublicKey;
use rsa::pkcs1v15::Signature as Pkcs1v15Signature;
use rsa::pkcs8::DecodePublicKey;
use rsa::signature::Verifier;
use sha1::Sha1;
use sha2::{Digest, Sha256};
use x509_parser::prelude::FromDer;

verus! {

/// What standard base64 with padding (the `base64` crate's `STANDARD` engine) decodes a text
/// to, or the message of its decoding error.
pub uninterp spec fn base64_decoded(text: Seq<char>) -> Result<Seq<u8>, Seq<char>>;

/// The SHA-256 digest of some bytes (the `sha2` crate).
pub uninterp spec fn sha256_digest(data: Seq<u8>) -> Seq<u8>;

/// The SHA-1 digest of some bytes (the `sha1` crate).
pub uninterp spec fn sha1_digest(data: Seq<u8>) -> Seq<u8>;

/// Why the `rsa` crate refuses a modulus and an exponent (big-endian bytes) as a public key,
/// or `None` when it accepts them.
pub uninterp spec fn rsa_components_error(modulus: Seq<u8>, exponent: Seq<u8>) -> Option<Seq<char>>;

/// The raw subject public key info (DER) of a DER certificate as `x509-parser` reads it, or
/// the message of its parse error.
pub uninterp spec fn certificate_key_info(der: Seq<u8>) -> Result<Seq<u8>, Seq<char>>;

/// Why the `rsa` crate refuses DER bytes as an RSA subject public key info, or `None` when it
/// reads one.
pub uninterp spec fn key_info_der_error(der: Seq<u8>) -> Option<Seq<char>>;

/// Decodes a text with `BASE64_STANDARD.decode`: the bytes, or the message of the error.
#[verifier::external_body]
pub(crate) fn decode_base64(text: &str) -> (r: Result<Vec<u8>, String>)
    ensures
        match r {
            Ok(v) => base64_decoded(text@) == Ok::<Seq<u8>, Seq<char>>(v@),
            Err(m) => base64_decoded(text@) == Err::<Seq<u8>, Seq<char>>(m@),
        },
{
    BASE64_STANDARD.decode(text).map_err(|e| e.to_string())
}

/// The SHA-256 digest (`Sha256::digest`), 32 bytes.
#[verifier::external_body]
fn sha256(data: &[u8]) -> (d: Vec<u8>)
    ensures
        d@ == sha256_digest(data@),
        d@.len() == 32,
{
    Sha256::digest(data).to_vec()
}

/// The SHA-1 digest (`Sha1::digest`), 20 bytes.
#[verifier::external_body]
fn sha1(data: &[u8]) -> (d: Vec<u8>)
    ensures
        d@ == sha1_digest(data@),
        d@.len() == 20,
{
    Sha1::digest(data).to_vec()
}

/// An RSA public key from its modulus and exponent (big-endian bytes, read by
/// `BigUint::from_bytes_be`), by `RsaPublicKey::new`. Whether it is accepted, and the error
/// message, are functions of the bytes; the key itself is not described.
#[verifier::external_body]
fn public_key_from_components(modulus: &[u8], exponent: &[u8]) -> (r: Result<RsaPublicKey, String>)
    ensures
        match r {
            Ok(_) => rsa_components_error(modulus@, exponent@) is None,
            Err(m) => rsa_components_error(modulus@, exponent@) == Some(m@),
        },
{
    let n = rsa::BigUint::from_bytes_be(modulus);
    let e = rsa::BigUint::from_bytes_be(exponent);
    RsaPublicKey::new(n, e).map_err(|x| x.to_string())
}

/// Parses a DER certificate with `X509Certificate::from_der` and gives the raw bytes of its
/// subject public key info, or the message of the parse error.
#[verifier::external_body]
fn subject_key_info(der: &[u8]) -> (r: Result<Vec<u8>, String>)
    ensures
        match r {
            Ok(k) => certificate_key_info(der@) == Ok::<Seq<u8>, Seq<char>>(k@),
            Err(m) => certificate_key_info(der@) == Err::<Seq<u8>, Seq<char>>(m@),
        },
{
    match x509_parser::certificate::X509Certificate::from_der(der) {
        Ok((_, cert)) => Ok(cert.tbs_certificate.subject_pki.raw.to_vec()),
        Err(e) => Err(e.to_string()),
    }
}

/// Reads an RSA public key from a DER subject public key info with
/// `RsaPublicKey::from_public_key_der`. Whether it succeeds, and the error message, are
/// functions of the bytes; the key itself is not described.
#[verifier::external_body]
fn public_key_from_der(der: &[u8]) -> (r: Result<RsaPublicKey, String>)
    ensures
        match r {
            Ok(_) => key_info_der_error(der@) is None,
            Err(m) => key_info_der_error(der@) == Some(m@),
        },
{
    RsaPublicKey::from_public_key_der(der).map_err(|e| e.to_string())
}

/// Reads signature bytes with `pkcs1v15::Signature::try_from`, which accepts any bytes.
#[verifier::external_body]
fn pkcs1v15_signature(bytes: &[u8]) -> (r: Result<Pkcs1v15Signature, String>)
    ensures
        r is Ok,
{
    rsa::pkcs1v15::Signature::try_from(bytes).map_err(|e| e.to_string())
}

/// Checks an RSASSA-PKCS1-v1_5 signature with SHA-256 over a message
/// (`VerifyingKey::<Sha256>::verify`). The key is opaque here, so nothing is stated of the
/// outcome.
#[verifier::external_body]
fn verify_pkcs1v15_sha256(key: &RsaPublicKey, message: &[u8], signature: &Pkcs1v15Signature) -> Result<(), String> {
    let verifying_key = rsa::pkcs1v15::VerifyingKey::<Sha256>::new(key.clone());
    verifying_key.verify(message, signature).map_err(|e| e.to_string())
}

/// The RSA-SHA256 signature method.
pub open spec fn rsa_sha256_uri() -> Seq<char> {
    "http://www.w3.org/2001/04/xmldsig-more#rsa-sha256"@
}

/// The SHA-256 digest method.
pub open spec fn sha256_uri() -> Seq<char> {
    "http://www.w3.org/2001/04/xmlenc#sha256"@
}

/// The SHA-1 digest method.
pub open spec fn sha1_uri() -> Seq<char> {
    "http://www.w3.org/2000/09/xmldsig#sha1"@
}

/// The digest that a digest method computes of some content; `None` for a method that is
/// not supported.
pub open spec fn digest_by(method: Seq<char>, content: Seq<u8>) -> Option<Seq<u8>> {
    if method == sha256_uri() {
        Some(sha256_digest(content))
    } else if method == sha1_uri() {
        Some(sha1_digest(content))
    } else {
        None
    }
}

/// Why the content of a reference fails its check, as a validation message; `None` when its
/// digest matches the stored one.
pub open spec fn reference_failure(reference: Reference, content: Seq<u8>) -> Option<Seq<char>> {
    let method = reference.digest_method.algorithm@;
    match digest_by(method, content) {
        None => Some("Unsupported digest method: "@ + method),
        Some(d) => match base64_decoded(reference.digest_value.value@) {
            Err(x) => Some("Invalid base64 digest: "@ + x),
            Ok(stored) => if d == stored {
                None
            } else {
                Some("Digest mismatch for URI "@ + reference.uri@)
            },
        },
    }
}

/// Whether `r` is what checking a reference gives for what resolving its URI gave.
pub open spec fn reference_outcome(reference: Reference, content: Result<Vec<u8>, Lib3mfError>, r: Result<(), Lib3mfError>) -> bool {
    match content {
        Err(e) => r == Err::<(), Lib3mfError>(e),
        Ok(c) => match reference_failure(reference, c@) {
            None => r is Ok,
            Some(m) => r matches Err(Lib3mfError::Validation(x)) && x@ == m,
        },
    }
}

/// Checks a reference against what resolving its URI gave: a resolver error is returned as
/// it is, and otherwise the digest of the content must match the stored one.
pub fn check_reference_content(reference: &Reference, content: Result<Vec<u8>, Lib3mfError>) -> (r: Result<(), Lib3mfError>)
    ensures
        reference_outcome(*reference, content, r),
{
    let content = match content {
        Ok(c) => c,
        Err(e) => return Err(e),
    };
    let method = reference.digest_method.algorithm.as_str();
    let calculated = if same_text(method, "http://www.w3.org/2001/04/xmlenc#sha256") {
        sha256(content.as_slice())
    } else if same_text(method, "http://www.w3.org/2000/09/xmldsig#sha1") {
        sha1(content.as_slice())
    } else {
        return Err(Lib3mfError::Validation(String::from_str("Unsupported digest method: ").concat(method)));
    };
    let stored = match decode_base64(reference.digest_value.value.as_str()) {
        Ok(v) => v,
        Err(m) => return Err(Lib3mfError::Validation(String::from_str("Invalid base64 digest: ").concat(m.as_str()))),
    };
    if !bytes_equal(calculated.as_slice(), stored.as_slice()) {
        return Err(Lib3mfError::Validation(String::from_str("Digest mismatch for URI ").concat(reference.uri.as_str())));
    }
    Ok(())
}

/// Whether two byte strings are equal.
fn bytes_equal(a: &[u8], b: &[u8]) -> (r: bool)
    ensures
        r == (a@ == b@),
{
    if a.len() != b.len() {
        return false;
    }
    let mut i: usize = 0;
    while i < a.len()
        invariant
            a@.len() == b@.len(),
            i <= a@.len(),
            forall|k: int| 0 <= k < i ==> a@[k] == b@[k],
        decreases a@.len() - i,
    {
        if a[i] != b[i] {
            return false;
        }
        i = i + 1;
    }
    proof {
        assert(a@ =~= b@);
    }
    true
}

/// Whether the resolver, asked for a URI, may give `content`.
pub open spec fn resolves<F: Fn(&str) -> Result<Vec<u8>, Lib3mfError>>(resolver: F, uri: Seq<char>, content: Result<Vec<u8>, Lib3mfError>) -> bool {
    exists|u: &str| u@ == uri && #[trigger] call_ensures(resolver, (u,), content)
}

/// Whether some content that the resolver may give for the reference's URI passes its check.
pub open spec fn reference_passes<F: Fn(&str) -> Result<Vec<u8>, Lib3mfError>>(resolver: F, reference: Reference) -> bool {
    exists|c: Vec<u8>| resolves(resolver, reference.uri@, Ok::<Vec<u8>, Lib3mfError>(c))
        && #[trigger] reference_failure(reference, c@) is None
}

/// Whether checking the reference may fail with `e` for what the resolver may give.
pub open spec fn reference_fails_with<F: Fn(&str) -> Result<Vec<u8>, Lib3mfError>>(resolver: F, reference: Reference, e: Lib3mfError) -> bool {
    exists|c: Result<Vec<u8>, Lib3mfError>| resolves(resolver, reference.uri@, c)
        && #[trigger] reference_outcome(reference, c, Err::<(), Lib3mfError>(e))
}

/// Whether the references before index `k` pass their checks.
pub open spec fn references_pass<F: Fn(&str) -> Result<Vec<u8>, Lib3mfError>>(resolver: F, refs: Seq<Reference>, k: int) -> bool {
    forall|j: int| 0 <= j < k ==> #[trigger] reference_passes(resolver, refs[j])
}

/// Why the signature value fails once the references passed, as a validation message;
/// `None` when it comes to the RSA check: its base64 must decode and its method must be
/// RSA-SHA256.
pub open spec fn signature_value_failure(signature: Signature) -> Option<Seq<char>> {
    let method = signature.signed_info.signature_method.algorithm@;
    match base64_decoded(signature.signature_value.value@) {
        Err(x) => Some("Invalid base64 signature: "@ + x),
        Ok(_) => if method == rsa_sha256_uri() {
            None
        } else {
            Some("Unsupported signature method: "@ + method)
        },
    }
}

/// Whether `r` is what checking the signature may give: the references are checked in
/// order and the first failure is returned; then the signature value is checked, last by
/// RSA, whose failure is reported with its message.
pub open spec fn signature_outcome<F: Fn(&str) -> Result<Vec<u8>, Lib3mfError>>(resolver: F, signature: Signature, r: Result<bool, Lib3mfError>) -> bool {
    let refs = signature.signed_info.references@;
    match r {
        Ok(b) => b && references_pass(resolver, refs, refs.len() as int)
            && signature_value_failure(signature) is None,
        Err(e) => (exists|i: int| 0 <= i < refs.len() && references_pass(resolver, refs, i)
            && #[trigger] reference_fails_with(resolver, refs[i], e))
            || (references_pass(resolver, refs, refs.len() as int) && match signature_value_failure(signature) {
                Some(m) => e matches Lib3mfError::Validation(x) && x@ == m,
                None => e matches Lib3mfError::Validation(x)
                    && exists|t: Seq<char>| x@ == #[trigger] ("Signature verification failed: "@ + t),
            }),
    }
}

/// Resolves the content of a reference and checks its digest.
fn verify_reference<F: Fn(&str) -> Result<Vec<u8>, Lib3mfError>>(reference: &Reference, content_resolver: &F) -> (r: Result<(), Lib3mfError>)
    requires
        forall|u: &str| call_requires(*content_resolver, (u,)),
    ensures
        exists|c: Result<Vec<u8>, Lib3mfError>| resolves(*content_resolver, reference.uri@, c)
            && #[trigger] reference_outcome(*reference, c, r),
        r is Ok ==> reference_passes(*content_resolver, *reference),
{
    let uri = reference.uri.as_str();
    let content = content_resolver(uri);
    let ghost given = content;
    let r = check_reference_content(reference, content);
    proof {
        assert(resolves(*content_resolver, reference.uri@, given));
        if r is Ok {
            let c = given->Ok_0;
            assert(reference_failure(*reference, c@) is None);
            assert(resolves(*content_resolver, reference.uri@, Ok::<Vec<u8>, Lib3mfError>(c)));
        }
    }
    r
}

/// Verifies an XML digital signature: every reference's content, given by
/// `content_resolver` for its URI, must match its digest, and the signature value must be an
/// RSA-SHA256 signature by `public_key` over `signed_info_bytes` (the canonical bytes of
/// `SignedInfo`). The first failure is returned.
pub fn verify_signature<F: Fn(&str) -> Result<Vec<u8>, Lib3mfError>>(
    signature: &Signature,
    public_key: &RsaPublicKey,
    content_resolver: F,
    signed_info_bytes: &[u8],
) -> (r: Result<bool, Lib3mfError>)
    requires
        forall|u: &str| call_requires(content_resolver, (u,)),
    ensures
        signature_outcome(content_resolver, *signature, r),
{
    let refs = &signature.signed_info.references;
    let mut i: usize = 0;
    while i < refs.len()
        invariant
            refs@ == signature.signed_info.references@,
            i <= refs@.len(),
            forall|u: &str| call_requires(content_resolver, (u,)),
            references_pass(content_resolver, refs@, i as int),
        decreases refs@.len() - i,
    {
        match verify_reference(&refs[i], &content_resolver) {
            Ok(()) => {},
            Err(e) => {
                proof {
                    assert(reference_fails_with(content_resolver, refs@[i as int], e));
                }
                return Err(e);
            },
        }
        i = i + 1;
    }
    let sig_value = match decode_base64(signature.signature_value.value.as_str()) {
        Ok(v) => v,
        Err(m) => return Err(Lib3mfError::Validation(String::from_str("Invalid base64 signature: ").concat(m.as_str()))),
    };
    let method = signature.signed_info.signature_method.algorithm.as_str();
    if !same_text(method, "http://www.w3.org/2001/04/xmldsig-more#rsa-sha256") {
        return Err(Lib3mfError::Validation(String::from_str("Unsupported signature method: ").concat(method)));
    }
    let rsa_signature = match pkcs1v15_signature(sig_value.as_slice()) {
        Ok(s) => s,
        Err(m) => return Err(Lib3mfError::Validation(String::from_str("Invalid RSA signature format: ").concat(m.as_str()))),
    };
    match verify_pkcs1v15_sha256(public_key, signed_info_bytes, &rsa_signature) {
        Ok(()) => Ok(true),
        Err(m) => {
            let x = String::from_str("Signature verification failed: ").concat(m.as_str());
            proof {
                assert(x@ == "Signature verification failed: "@ + m@);
            }
            Err(Lib3mfError::Validation(x))
        },
    }
}

/// The message when `KeyInfo` holds no key that can be used.
pub open spec fn no_key_message() -> Seq<char> {
    "No usable KeyValue or X509Certificate found in KeyInfo"@
}

/// Why no public key can be had from a signature's `KeyInfo`, as a validation message;
/// `None` when one can. An RSA `KeyValue` is tried first, then an X.509 certificate (its
/// base64 with white space removed).
pub open spec fn key_failure(signature: Signature) -> Option<Seq<char>> {
    match signature.key_info {
        None => Some(no_key_message()),
        Some(info) => if info.key_value is Some && info.key_value->0.rsa_key_value is Some {
            let value = info.key_value->0.rsa_key_value->0;
            match base64_decoded(value.modulus@) {
                Err(x) => Some("Invalid modulus base64: "@ + x),
                Ok(n) => match base64_decoded(value.exponent@) {
                    Err(x) => Some("Invalid exponent base64: "@ + x),
                    Ok(e) => match rsa_components_error(n, e) {
                        Some(x) => Some("Invalid RSA key components: "@ + x),
                        None => None,
                    },
                },
            }
        } else if info.x509_data is Some && info.x509_data->0.certificate is Some {
            match base64_decoded(unspaced(info.x509_data->0.certificate->0@)) {
                Err(x) => Some("Invalid X509 base64: "@ + x),
                Ok(der) => match certificate_key_info(der) {
                    Err(x) => Some("Invalid X509 certificate: "@ + x),
                    Ok(spki) => match key_info_der_error(spki) {
                        Some(x) => Some("Invalid RSA key in cert: "@ + x),
                        None => None,
                    },
                },
            }
        } else {
            Some(no_key_message())
        },
    }
}

/// The RSA public key carried in a signature's `KeyInfo`: from an RSA `KeyValue`
/// (modulus and exponent in base64) if there is one, else from an X.509 certificate.
pub fn extract_key_from_signature(signature: &Signature) -> (r: Result<RsaPublicKey, Lib3mfError>)
    ensures
        match key_failure(*signature) {
            None => r is Ok,
            Some(m) => r matches Err(Lib3mfError::Validation(x)) && x@ == m,
        },
{
    if let Some(info) = &signature.key_info {
        if let Some(kv) = &info.key_value {
            if let Some(rsa_val) = &kv.rsa_key_value {
                let n_bytes = match decode_base64(rsa_val.modulus.as_str()) {
                    Ok(v) => v,
                    Err(m) => return Err(Lib3mfError::Validation(String::from_str("Invalid modulus base64: ").concat(m.as_str()))),
                };
                let e_bytes = match decode_base64(rsa_val.exponent.as_str()) {
                    Ok(v) => v,
                    Err(m) => return Err(Lib3mfError::Validation(String::from_str("Invalid exponent base64: ").concat(m.as_str()))),
                };
                return match public_key_from_components(n_bytes.as_slice(), e_bytes.as_slice()) {
                    Ok(k) => Ok(k),
                    Err(m) => Err(Lib3mfError::Validation(String::from_str("Invalid RSA key components: ").concat(m.as_str()))),
                };
            }
        }
        if let Some(x509) = &info.x509_data {
            if let Some(cert_b64) = &x509.certificate {
                let clean = remove_white(cert_b64.as_str());
                let cert_der = match decode_base64(clean.as_str()) {
                    Ok(v) => v,
                    Err(m) => return Err(Lib3mfError::Validation(String::from_str("Invalid X509 base64: ").concat(m.as_str()))),
                };
                let spki = match subject_key_info(cert_der.as_slice()) {
                    Ok(k) => k,
                    Err(m) => return Err(Lib3mfError::Validation(String::from_str("Invalid X509 certificate: ").concat(m.as_str()))),
                };
                return match public_key_from_der(spki.as_slice()) {
                    Ok(k) => Ok(k),
                    Err(m) => Err(Lib3mfError::Validation(String::from_str("Invalid RSA key in cert: ").concat(m.as_str()))),
                };
            }
        }
    }
    Err(Lib3mfError::Validation(String::from_str("No usable KeyValue or X509Certificate found in KeyInfo")))
}

/// Verifies a signature with the key carried in its own `KeyInfo`.
pub fn verify_signature_extended<F: Fn(&str) -> Result<Vec<u8>, Lib3mfError>>(
    signature: &Signature,
    content_resolver: F,
    signed_info_bytes: &[u8],
) -> (r: Result<bool, Lib3mfError>)
    requires
        forall|u: &str| call_requires(content_resolver, (u,)),
    ensures
        match key_failure(*signature) {
            None => signature_outcome(content_resolver, *signature, r),
            Some(m) => r matches Err(Lib3mfError::Validation(x)) && x@ == m,
        },
{
    let key = match extract_key_from_signature(signature) {
        Ok(k) => k,
        Err(e) => return Err(e),
    };
    verify_signature(signature, &key, content_resolver, signed_info_bytes)
}

} // verus!
