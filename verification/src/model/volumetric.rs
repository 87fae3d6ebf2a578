//! Volumetric extension resources.

use vstd::prelude::*;
use crate::model::resources::ResourceId;

verus! {

/// A stack of volumetric layers.
#[derive(Debug, Clone)]
pub struct VolumetricStack {
    /// Resource ID of the stack.
    pub id: ResourceId,
    /// Extension version string.
    pub version: String,
    /// Inline layers.
    pub layers: Vec<VolumetricLayer>,
    /// References to stacks in other parts.
    pub refs: Vec<VolumetricRef>,
}

/// A layer at a Z height (bit pattern).
#[derive(Debug, Clone)]
pub struct VolumetricLayer {
    /// Z height (bit pattern).
    pub z_height: u32,
    /// Package path of the layer content.
    pub content_path: String,
}

/// A reference to a volumetric stack in another part.
#[derive(Debug, Clone)]
pub struct VolumetricRef {
    /// The referenced stack.
    pub stack_id: ResourceId,
    /// Package path of the part.
    pub path: String,
}

} // verus!
