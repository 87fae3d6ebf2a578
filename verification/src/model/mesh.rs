//! Objects and their geometry: meshes, components, boolean shapes, displacement meshes.
//!
//! Coordinates, radii and matrix entries are IEEE-754 single-precision values
//! carried as their bit patterns.

use vstd::prelude::*;
use crate::model::resources::ResourceId;

verus! {

/// Type of a 3MF object, deciding validation requirements and build behavior.
#[derive(Debug, Clone, Copy, PartialEq, Eq)]
pub enum ObjectType {
    /// Printable part; must be manifold (the default).
    Model,
    /// Support structure; may be non-manifold.
    Support,
    /// Solid support; must be manifold.
    SolidSupport,
    /// Surface geometry; may be non-manifold.
    Surface,
    /// Other geometry; may not be referenced from the build.
    Other,
}

/// The name of an object type as written in 3MF files.
pub open spec fn object_type_name(t: ObjectType) -> Seq<char> {
    match t {
        ObjectType::Model => "model"@,
        ObjectType::Support => "support"@,
        ObjectType::SolidSupport => "solidsupport"@,
        ObjectType::Surface => "surface"@,
        ObjectType::Other => "other"@,
    }
}

/// Whether objects of this type must be manifold.
pub open spec fn spec_requires_manifold(t: ObjectType) -> bool {
    t == ObjectType::Model || t == ObjectType::SolidSupport
}

/// Whether build items may reference objects of this type.
pub open spec fn spec_can_be_in_build(t: ObjectType) -> bool {
    t != ObjectType::Other
}

impl ObjectType {
    /// Returns true if this type requires manifold mesh validation.
    pub fn requires_manifold(&self) -> (r: bool)
        ensures
            r == spec_requires_manifold(*self),
    {
        match self {
            ObjectType::Model | ObjectType::SolidSupport => true,
            _ => false,
        }
    }

    /// Returns true if this type can be referenced by build items.
    pub fn can_be_in_build(&self) -> (r: bool)
        ensures
            r == spec_can_be_in_build(*self),
    {
        match self {
            ObjectType::Other => false,
            _ => true,
        }
    }

    /// The name of the type as written in 3MF files (`model`, `support`, ...).
    pub fn to_string(&self) -> (s: String)
        ensures
            s@ == object_type_name(*self),
    {
        match self {
            ObjectType::Model => String::from_str("model"),
            ObjectType::Support => String::from_str("support"),
            ObjectType::SolidSupport => String::from_str("solidsupport"),
            ObjectType::Surface => String::from_str("surface"),
            ObjectType::Other => String::from_str("other"),
        }
    }
}

impl Default for ObjectType {
    fn default() -> (t: Self)
        ensures
            t == ObjectType::Model,
    {
        ObjectType::Model
    }
}

/// A 4x4 transformation matrix in column-major order, each entry a bit pattern.
#[derive(Debug, Clone, Copy, PartialEq, Eq)]
pub struct Transform {
    /// The sixteen entries, column by column.
    pub m: [u32; 16],
}

/// The bit pattern of 1.0.
pub const ONE_BITS: u32 = 0x3f80_0000;

impl Transform {
    /// The identity matrix.
    pub fn identity() -> (t: Transform)
        ensures
            forall|i: int| 0 <= i < 16 ==> #[trigger] t.m[i] == (if i % 5 == 0 { ONE_BITS } else { 0u32 }),
    {
        let t = Transform {
            m: [ONE_BITS, 0, 0, 0, 0, ONE_BITS, 0, 0, 0, 0, ONE_BITS, 0, 0, 0, 0, ONE_BITS],
        };
        assert(forall|i: int| 0 <= i < 16 ==> #[trigger] t.m[i] == (if i % 5 == 0 { ONE_BITS } else { 0u32 })) by {
            assert forall|i: int| 0 <= i < 16 implies #[trigger] t.m[i] == (if i % 5 == 0 { ONE_BITS } else { 0u32 }) by {
                assert(t.m@[i] == t.m[i]);
            }
        }
        t
    }
}

/// Whether a single-precision bit pattern denotes a finite number
/// (its exponent field is not all ones).
pub open spec fn bits_finite(b: u32) -> bool {
    (b / 0x80_0000) % 256 != 255
}

/// Whether a single-precision bit pattern denotes a finite number.
pub fn is_finite_bits(b: u32) -> (r: bool)
    ensures
        r == bits_finite(b),
{
    (b / 0x80_0000) % 256 != 255
}

/// Whether all sixteen entries of a matrix are finite.
pub open spec fn transform_finite(t: Transform) -> bool {
    forall|i: int| 0 <= i < 16 ==> bits_finite(#[trigger] t.m[i])
}

/// Whether all entries of a transformation matrix are finite.
pub fn is_transform_valid(t: &Transform) -> (r: bool)
    ensures
        r == transform_finite(*t),
{
    let mut i: usize = 0;
    while i < 16
        invariant
            i <= 16,
            forall|j: int| 0 <= j < i ==> bits_finite(#[trigger] t.m[j]),
        decreases 16 - i,
    {
        if !is_finite_bits(t.m[i]) {
            return false;
        }
        i = i + 1;
    }
    true
}

/// A 3D object resource containing geometry and metadata.
#[derive(Debug, Clone)]
pub struct Object {
    /// Resource ID of the object.
    pub id: ResourceId,
    /// Object type.
    pub object_type: ObjectType,
    /// Human-readable name.
    pub name: Option<String>,
    /// Part number.
    pub part_number: Option<String>,
    /// Production extension UUID, as a 128-bit value.
    pub uuid: Option<u128>,
    /// Default property resource.
    pub pid: Option<ResourceId>,
    /// Default property index.
    pub pindex: Option<u32>,
    /// Package path of the object's thumbnail.
    pub thumbnail: Option<String>,
    /// The geometric content.
    pub geometry: Geometry,
}

/// The geometric content of an object.
#[derive(Debug, Clone)]
pub enum Geometry {
    /// A triangle mesh.
    Mesh(Mesh),
    /// An assembly of other objects.
    Components(Components),
    /// A reference to a slice stack resource.
    SliceStack(ResourceId),
    /// A reference to a volumetric stack resource.
    VolumetricStack(ResourceId),
    /// A boolean (CSG) shape.
    BooleanShape(BooleanShape),
    /// A mesh with displacement mapping.
    DisplacementMesh(DisplacementMesh),
}

/// Whether geometry holds inline content.
pub open spec fn geometry_has_content(g: Geometry) -> bool {
    match g {
        Geometry::Mesh(m) => m.vertices@.len() > 0 || m.triangles@.len() > 0,
        Geometry::Components(c) => c.components@.len() > 0,
        Geometry::BooleanShape(_) => true,
        Geometry::DisplacementMesh(_) => true,
        Geometry::SliceStack(_) => false,
        Geometry::VolumetricStack(_) => false,
    }
}

impl Geometry {
    /// Returns true if this geometry contains content: a non-empty mesh, components,
    /// a boolean shape or a displacement mesh. Stack references hold no inline content.
    pub fn has_content(&self) -> (r: bool)
        ensures
            r == geometry_has_content(*self),
    {
        match self {
            Geometry::Mesh(mesh) => mesh.vertices.len() > 0 || mesh.triangles.len() > 0,
            Geometry::Components(c) => c.components.len() > 0,
            Geometry::BooleanShape(_) => true,
            Geometry::DisplacementMesh(_) => true,
            Geometry::SliceStack(_) => false,
            Geometry::VolumetricStack(_) => false,
        }
    }
}

/// An assembly of components.
#[derive(Debug, Clone)]
pub struct Components {
    /// The component instances.
    pub components: Vec<Component>,
}

/// A reference to another object with a transformation.
#[derive(Debug, Clone)]
pub struct Component {
    /// The referenced object.
    pub object_id: ResourceId,
    /// Package path of the model part holding the object, if not this part.
    pub path: Option<String>,
    /// Production extension UUID.
    pub uuid: Option<u128>,
    /// Transformation applied to the referenced object.
    pub transform: Transform,
}

/// Type of a boolean operation.
#[derive(Debug, Clone, Copy, PartialEq, Eq)]
pub enum BooleanOperationType {
    /// Union (the default).
    Union,
    /// Difference.
    Difference,
    /// Intersection.
    Intersection,
}

/// One boolean operation applied to a shape.
#[derive(Debug, Clone)]
pub struct BooleanOperation {
    /// The operation.
    pub operation_type: BooleanOperationType,
    /// The object applied.
    pub object_id: ResourceId,
    /// Transformation of the applied object.
    pub transform: Transform,
    /// Package path of the applied object, if in another part.
    pub path: Option<String>,
}

/// A shape built from a base object and boolean operations.
#[derive(Debug, Clone)]
pub struct BooleanShape {
    /// The base object.
    pub base_object_id: ResourceId,
    /// Transformation of the base object.
    pub base_transform: Transform,
    /// Package path of the base object, if in another part.
    pub base_path: Option<String>,
    /// The operations, in order.
    pub operations: Vec<BooleanOperation>,
}

/// A triangle mesh.
#[derive(Debug, Clone)]
pub struct Mesh {
    /// The vertices.
    pub vertices: Vec<Vertex>,
    /// The triangles, by vertex index.
    pub triangles: Vec<Triangle>,
    /// Beam lattice data.
    pub beam_lattice: Option<BeamLattice>,
}

impl Mesh {
    /// Creates an empty mesh.
    pub fn new() -> (m: Mesh)
        ensures
            m.vertices@.len() == 0,
            m.triangles@.len() == 0,
            m.beam_lattice is None,
    {
        Mesh { vertices: Vec::new(), triangles: Vec::new(), beam_lattice: None }
    }

    /// Adds a vertex (coordinates as bit patterns) and returns its index.
    pub fn add_vertex(&mut self, x: u32, y: u32, z: u32) -> (idx: u32)
        requires
            old(self).vertices@.len() < u32::MAX,
        ensures
            final(self).vertices@ == old(self).vertices@.push(Vertex { x, y, z }),
            final(self).triangles@ == old(self).triangles@,
            final(self).beam_lattice == old(self).beam_lattice,
            idx == old(self).vertices@.len(),
    {
        self.vertices.push(Vertex { x, y, z });
        (self.vertices.len() - 1) as u32
    }

    /// Adds a triangle over three vertex indices, without properties.
    pub fn add_triangle(&mut self, v1: u32, v2: u32, v3: u32)
        ensures
            final(self).triangles@ == old(self).triangles@.push(
                Triangle { v1, v2, v3, p1: None, p2: None, p3: None, pid: None },
            ),
            final(self).vertices@ == old(self).vertices@,
            final(self).beam_lattice == old(self).beam_lattice,
    {
        self.triangles.push(Triangle { v1, v2, v3, p1: None, p2: None, p3: None, pid: None });
    }
}

impl Default for Mesh {
    fn default() -> (m: Self)
        ensures
            m.vertices@.len() == 0,
            m.triangles@.len() == 0,
            m.beam_lattice is None,
    {
        Mesh::new()
    }
}

/// Beam lattice data (Beam Lattice extension).
#[derive(Debug, Clone)]
pub struct BeamLattice {
    /// Minimum beam length (bit pattern).
    pub min_length: u32,
    /// Precision (bit pattern).
    pub precision: u32,
    /// Clipping mode.
    pub clipping_mode: ClippingMode,
    /// The beams.
    pub beams: Vec<Beam>,
    /// Named groups of beams.
    pub beam_sets: Vec<BeamSet>,
}

/// Clipping mode of a beam lattice.
#[derive(Debug, Clone, Copy, PartialEq, Eq)]
pub enum ClippingMode {
    /// No clipping, `none` (the default).
    NoClipping,
    /// Clip to the inside of the mesh.
    Inside,
    /// Clip to the outside of the mesh.
    Outside,
}

/// A beam between two vertices; radii are bit patterns.
#[derive(Debug, Clone, Copy, PartialEq, Eq)]
pub struct Beam {
    /// First vertex.
    pub v1: u32,
    /// Second vertex.
    pub v2: u32,
    /// Radius at the first vertex (bit pattern).
    pub r1: u32,
    /// Radius at the second vertex (bit pattern).
    pub r2: u32,
    /// Property index at the first vertex.
    pub p1: Option<u32>,
    /// Property index at the second vertex.
    pub p2: Option<u32>,
    /// Cap style.
    pub cap_mode: CapMode,
}

/// Beam end cap style.
#[derive(Debug, Clone, Copy, PartialEq, Eq)]
pub enum CapMode {
    /// Spherical cap (the default).
    Sphere,
    /// Hemispherical cap.
    Hemisphere,
    /// Flat cap.
    Butt,
}

/// A named group of beams.
#[derive(Debug, Clone)]
pub struct BeamSet {
    /// Name.
    pub name: Option<String>,
    /// Identifier.
    pub identifier: Option<String>,
    /// Indices into the beam list.
    pub refs: Vec<u32>,
}

/// A vertex; coordinates are single-precision bit patterns.
#[derive(Debug, Clone, Copy, PartialEq, Eq)]
pub struct Vertex {
    /// X coordinate (bit pattern).
    pub x: u32,
    /// Y coordinate (bit pattern).
    pub y: u32,
    /// Z coordinate (bit pattern).
    pub z: u32,
}

/// A triangle by vertex indices, with optional per-vertex and per-triangle properties.
#[derive(Debug, Clone, Copy, PartialEq, Eq)]
pub struct Triangle {
    /// First vertex (counter-clockwise).
    pub v1: u32,
    /// Second vertex.
    pub v2: u32,
    /// Third vertex.
    pub v3: u32,
    /// Property index at v1.
    pub p1: Option<u32>,
    /// Property index at v2.
    pub p2: Option<u32>,
    /// Property index at v3.
    pub p3: Option<u32>,
    /// Property resource of the whole triangle.
    pub pid: Option<u32>,
}

/// A normal vector (bit patterns).
#[derive(Debug, Clone, Copy, PartialEq, Eq)]
pub struct NormalVector {
    /// X component.
    pub nx: u32,
    /// Y component.
    pub ny: u32,
    /// Z component.
    pub nz: u32,
}

/// A gradient vector for displacement mapping (bit patterns).
#[derive(Debug, Clone, Copy, PartialEq, Eq)]
pub struct GradientVector {
    /// U component.
    pub gu: u32,
    /// V component.
    pub gv: u32,
}

/// A triangle of a displacement mesh.
#[derive(Debug, Clone, Copy, PartialEq, Eq)]
pub struct DisplacementTriangle {
    /// First vertex.
    pub v1: u32,
    /// Second vertex.
    pub v2: u32,
    /// Third vertex.
    pub v3: u32,
    /// Displacement coordinate index at v1.
    pub d1: Option<u32>,
    /// Displacement coordinate index at v2.
    pub d2: Option<u32>,
    /// Displacement coordinate index at v3.
    pub d3: Option<u32>,
    /// Property index at v1.
    pub p1: Option<u32>,
    /// Property index at v2.
    pub p2: Option<u32>,
    /// Property index at v3.
    pub p3: Option<u32>,
    /// Property resource of the whole triangle.
    pub pid: Option<u32>,
}

/// A mesh with displacement mapping.
#[derive(Debug, Clone)]
pub struct DisplacementMesh {
    /// The vertices.
    pub vertices: Vec<Vertex>,
    /// The triangles.
    pub triangles: Vec<DisplacementTriangle>,
    /// Per-vertex normals.
    pub normals: Vec<NormalVector>,
    /// Per-vertex gradients.
    pub gradients: Option<Vec<GradientVector>>,
}

} // verus!
