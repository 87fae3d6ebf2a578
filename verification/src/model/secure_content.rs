//! Key store structures (Secure Content extension).

use vstd::prelude::*;

verus! {

/// The key store of a package.
#[derive(Debug, Clone)]
pub struct KeyStore {
    /// UUID of the key store (128-bit value).
    pub uuid: u128,
    /// Consumers that may decrypt content.
    pub consumers: Vec<Consumer>,
    /// Groups of encrypted resources.
    pub resource_data_groups: Vec<ResourceDataGroup>,
}

/// A consumer of encrypted content.
#[derive(Debug, Clone)]
pub struct Consumer {
    /// Consumer identifier.
    pub id: String,
    /// Identifier of the key wrapping the content key.
    pub key_id: Option<String>,
    /// Wrapped key value.
    pub key_value: Option<String>,
}

/// A group of resources sharing a content key.
#[derive(Debug, Clone)]
pub struct ResourceDataGroup {
    /// UUID of the content encryption key (128-bit value).
    pub key_uuid: u128,
    /// Access rights of consumers.
    pub access_rights: Vec<AccessRight>,
}

/// One consumer's access to a content key.
#[derive(Debug, Clone)]
pub struct AccessRight {
    /// The consumer.
    pub consumer_id: String,
    /// Key wrapping algorithm.
    pub algorithm: String,
    /// The wrapped content key.
    pub wrapped_key: Vec<u8>,
}

} // verus!
