//! Utilities over whole models.

pub mod diff;
pub mod c14n;
pub mod hardware;
