//! Readers of the XML and JSON parts of a package.

pub mod xml_parser;
pub mod bambu_config;
pub mod boolean_parser;
pub mod build_parser;
pub mod component_parser;
pub mod crypto_parser;
pub mod displacement_parser;
pub mod json_value;
pub mod material_parser;
pub mod mesh_parser;
pub mod model_parser;
pub mod secure_content_parser;
pub mod slice_parser;
pub mod streaming;
pub mod visitor;
pub mod volumetric_parser;
