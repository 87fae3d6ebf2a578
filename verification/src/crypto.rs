//! Secure Content: content encryption, key wrapping and XML signature checks.

pub mod context;
pub mod encryption;
pub mod keys;
pub mod verification;
