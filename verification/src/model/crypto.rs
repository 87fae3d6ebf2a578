//! Digital signature structures (Secure Content extension).

use vstd::prelude::*;

verus! {

/// An XML digital signature.
#[derive(Debug, Clone)]
pub struct Signature {
    /// The signed information.
    pub signed_info: SignedInfo,
    /// The signature value.
    pub signature_value: SignatureValue,
    /// Key information.
    pub key_info: Option<KeyInfo>,
}

/// The signed part of a signature.
#[derive(Debug, Clone)]
pub struct SignedInfo {
    /// Canonicalization algorithm.
    pub canonicalization_method: CanonicalizationMethod,
    /// Signature algorithm.
    pub signature_method: SignatureMethod,
    /// The signed references.
    pub references: Vec<Reference>,
}

/// Canonicalization method of a signature.
#[derive(Debug, Clone)]
pub struct CanonicalizationMethod {
    /// Algorithm URI.
    pub algorithm: String,
}

/// Signature algorithm of a signature.
#[derive(Debug, Clone)]
pub struct SignatureMethod {
    /// Algorithm URI.
    pub algorithm: String,
}

/// A reference covered by a signature.
#[derive(Debug, Clone)]
pub struct Reference {
    /// The referenced part.
    pub uri: String,
    /// Digest algorithm.
    pub digest_method: DigestMethod,
    /// Digest value.
    pub digest_value: DigestValue,
    /// Transforms applied before digesting.
    pub transforms: Option<Vec<Transform>>,
}

/// A transform applied to referenced content.
#[derive(Debug, Clone)]
pub struct Transform {
    /// Algorithm URI.
    pub algorithm: String,
}

/// Digest algorithm of a reference.
#[derive(Debug, Clone)]
pub struct DigestMethod {
    /// Algorithm URI.
    pub algorithm: String,
}

/// Digest of a reference.
#[derive(Debug, Clone)]
pub struct DigestValue {
    /// Base64 digest.
    pub value: String,
}

/// The value of a signature.
#[derive(Debug, Clone)]
pub struct SignatureValue {
    /// Base64 signature.
    pub value: String,
}

/// Information about the signing key.
#[derive(Debug, Clone)]
pub struct KeyInfo {
    /// Key name.
    pub key_name: Option<String>,
    /// Key value.
    pub key_value: Option<KeyValue>,
    /// Certificate data.
    pub x509_data: Option<X509Data>,
}

/// Certificate data of a key.
#[derive(Debug, Clone)]
pub struct X509Data {
    /// Base64 certificate.
    pub certificate: Option<String>,
}

/// A public key value.
#[derive(Debug, Clone)]
pub struct KeyValue {
    /// RSA public key.
    pub rsa_key_value: Option<RSAKeyValue>,
}

/// An RSA public key.
#[derive(Debug, Clone)]
pub struct RSAKeyValue {
    /// Base64 modulus.
    pub modulus: String,
    /// Base64 exponent.
    pub exponent: String,
}

/// Summary of a certificate.
#[derive(Debug, Clone)]
pub struct CertificateInfo {
    /// Subject name.
    pub subject: String,
    /// Issuer name.
    pub issuer: String,
    /// Serial number.
    pub serial_number: String,
}

} // verus!
