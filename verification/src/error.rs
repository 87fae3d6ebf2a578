//! Errors returned by the fallible operations of the library.

use vstd::prelude::*;
use crate::text::{decimal, push_decimal};

verus! {

/// The main error type for all fallible operations.
#[derive(Debug, Clone, PartialEq, Eq)]
pub enum Lib3mfError {
    /// An I/O failure (missing entry, unreadable archive), with its description.
    Io(String),
    /// The model failed a validation check.
    Validation(String),
    /// A referenced resource ID does not exist in the model.
    ResourceNotFound(u32),
    /// The 3MF structure is malformed.
    InvalidStructure(String),
    /// A cryptographic operation failed.
    EncryptionError(String),
    /// The operation needs a feature that was not enabled (feature description, feature name).
    FeatureNotEnabled(String, String),
}

/// The human-readable message of an error.
pub open spec fn error_message(e: Lib3mfError) -> Seq<char> {
    match e {
        Lib3mfError::Io(m) => "I/O error: "@ + m@,
        Lib3mfError::Validation(m) => "Validation failed: "@ + m@,
        Lib3mfError::ResourceNotFound(id) => "Resource not found: "@ + decimal(id as nat),
        Lib3mfError::InvalidStructure(m) => "Invalid 3MF structure: "@ + m@,
        Lib3mfError::EncryptionError(m) => "Encryption error: "@ + m@,
        Lib3mfError::FeatureNotEnabled(a, b) =>
            "Feature not enabled: "@ + a@ + ". Rebuild with `cargo build --features "@ + b@ + "`"@,
    }
}

impl Lib3mfError {
    /// The human-readable message of this error.
    pub fn to_string(&self) -> (s: String)
        ensures
            s@ == error_message(*self),
    {
        match self {
            Lib3mfError::Io(m) => String::from_str("I/O error: ").concat(m.as_str()),
            Lib3mfError::Validation(m) => String::from_str("Validation failed: ").concat(m.as_str()),
            Lib3mfError::ResourceNotFound(id) => {
                let mut s = String::from_str("Resource not found: ");
                push_decimal(&mut s, *id as u64);
                s
            },
            Lib3mfError::InvalidStructure(m) => String::from_str("Invalid 3MF structure: ").concat(
                m.as_str(),
            ),
            Lib3mfError::EncryptionError(m) => String::from_str("Encryption error: ").concat(
                m.as_str(),
            ),
            Lib3mfError::FeatureNotEnabled(a, b) => {
                let s = String::from_str("Feature not enabled: ").concat(a.as_str());
                let s = s.concat(". Rebuild with `cargo build --features ");
                let s = s.concat(b.as_str());
                s.concat("`")
            },
        }
    }
}

} // verus!
