//! The in-memory representation of a 3MF document.

pub mod build_section;
pub mod core_model;
pub mod crypto;
pub mod materials;
pub mod mesh;
pub mod package;
pub mod repair;
pub mod resolver;
pub mod resources;
pub mod secure_content;
pub mod slice;
pub mod stats;
pub mod stats_impl;
pub mod units;
pub mod volumetric;
