//! Verified core of a reader and checker for the 3D Manufacturing Format (3MF).
//!
//! The crate holds the in-memory model of a 3MF document (resources, meshes,
//! materials, build items), the resource registry with its global ID namespace,
//! the progressive validation rules, mesh repair on triangle topology, the
//! component resolver, model comparison and OPC model discovery.
//!
//! Coordinates and other IEEE-754 values are carried as their 32-bit patterns
//! (`f32::to_bits`); arithmetic on them lives with the callers.

pub mod archive;
pub mod crypto;
pub mod error;
pub mod model;
pub mod parser;
pub mod text;
pub mod utils;
pub mod validation;
pub mod topology;
