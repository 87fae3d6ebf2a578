//! The build section: which objects to manufacture and where.

use vstd::prelude::*;
use crate::model::mesh::Transform;
use crate::model::resources::ResourceId;

verus! {

/// The list of items to manufacture.
#[derive(Debug, Clone)]
pub struct Build {
    /// The items, in document order.
    pub items: Vec<BuildItem>,
}

/// An instance of an object to manufacture.
#[derive(Debug, Clone)]
pub struct BuildItem {
    /// The object to manufacture.
    pub object_id: ResourceId,
    /// Production extension UUID.
    pub uuid: Option<u128>,
    /// Package path of the part holding the object.
    pub path: Option<String>,
    /// Part number of this instance.
    pub part_number: Option<String>,
    /// Placement of the object.
    pub transform: Transform,
    /// Whether the item is printable; unspecified when `None`.
    pub printable: Option<bool>,
}

impl Default for Build {
    fn default() -> (b: Self)
        ensures
            b.items@.len() == 0,
    {
        Build { items: Vec::new() }
    }
}

} // verus!
