//! Slice extension resources. Heights and coordinates are bit patterns.

use vstd::prelude::*;
use crate::model::resources::ResourceId;

verus! {

/// A stack of 2D slices.
#[derive(Debug, Clone)]
pub struct SliceStack {
    /// Resource ID of the stack.
    pub id: ResourceId,
    /// Bottom Z of the first slice (bit pattern).
    pub z_bottom: u32,
    /// Inline slices.
    pub slices: Vec<Slice>,
    /// References to stacks in other parts.
    pub refs: Vec<SliceRef>,
}

/// One slice at a Z height.
#[derive(Debug, Clone)]
pub struct Slice {
    /// Top Z of this slice (bit pattern).
    pub z_top: u32,
    /// Vertices of the slice plane.
    pub vertices: Vec<Vertex2D>,
    /// Contour polygons.
    pub polygons: Vec<Polygon>,
}

/// A 2D vertex (bit patterns).
#[derive(Debug, Clone, Copy, PartialEq, Eq)]
pub struct Vertex2D {
    /// X coordinate.
    pub x: u32,
    /// Y coordinate.
    pub y: u32,
}

/// A closed contour.
#[derive(Debug, Clone)]
pub struct Polygon {
    /// Start vertex index.
    pub start_segment: u32,
    /// The segments.
    pub segments: Vec<Segment>,
}

/// A contour segment.
#[derive(Debug, Clone)]
pub struct Segment {
    /// End vertex index.
    pub v2: u32,
    /// Property index at the start.
    pub p1: Option<u32>,
    /// Property index at the end.
    pub p2: Option<u32>,
    /// Property resource of the segment.
    pub pid: Option<ResourceId>,
}

/// A reference to a slice stack in another part.
#[derive(Debug, Clone)]
pub struct SliceRef {
    /// The referenced stack.
    pub slice_stack_id: ResourceId,
    /// Package path of the part.
    pub slice_path: String,
}

} // verus!
