//! Callbacks of the streaming model reader.

use vstd::prelude::*;
use crate::error::Lib3mfError;
use crate::model::build_section::BuildItem;
use crate::model::materials::{BaseMaterialsGroup, Color, ColorGroup};
use crate::model::mesh::{Beam, DisplacementTriangle};
use crate::model::resources::ResourceId;
use crate::parser::material_parser::bases_view;
use crate::parser::xml_parser::opt_view;

verus! {

/// One callback as values: which one and what it was handed (numbers as bit patterns).
pub enum Visit {
    StartModel,
    EndModel,
    /// Name and value.
    Metadata(Seq<char>, Seq<char>),
    StartResources,
    EndResources,
    /// Resource ID and the (name, display color) of each material.
    BaseMaterials(u32, Seq<(Seq<char>, Color)>),
    /// Resource ID and the colors.
    ColorGroup(u32, Seq<Color>),
    /// Object ID.
    StartMesh(u32),
    /// Coordinates.
    Vertex(u32, u32, u32),
    /// Vertex indices.
    Triangle(u32, u32, u32),
    EndMesh,
    /// Object ID.
    StartBeamLattice(u32),
    Beam(Beam),
    EndBeamLattice,
    /// Object ID.
    StartDisplacementMesh(u32),
    /// Coordinates.
    DisplacementVertex(u32, u32, u32),
    DisplacementTriangle(DisplacementTriangle),
    /// Components.
    DisplacementNormal(u32, u32, u32),
    EndDisplacementMesh,
    StartBuild,
    EndBuild,
    /// Object ID, UUID, path, part number, transform entries and printable flag.
    BuildItem(u32, Option<u128>, Option<Seq<char>>, Option<Seq<char>>, Seq<u32>, Option<bool>),
}

/// A build item handed to a callback, as values.
pub open spec fn item_visit(item: BuildItem) -> Visit {
    Visit::BuildItem(item.object_id.0, item.uuid, opt_view(item.path), opt_view(item.part_number), item.transform.m@, item.printable)
}

/// A callback and what it answered.
pub type VisitLog = Seq<(Visit, Result<(), Lib3mfError>)>;

/// Receives the parts of a model as the streaming reader meets them.
///
/// A visitor keeps a log of the calls made to it, [`ModelVisitor::log`]: each callback adds
/// what it was handed and what it answered. An error answer stops the reader.
pub trait ModelVisitor {
    /// The calls made so far, with their answers.
    spec fn log(&self) -> VisitLog;

    /// The model element starts.
    fn on_start_model(&mut self) -> (r: Result<(), Lib3mfError>)
        ensures
            final(self).log() == old(self).log().push((Visit::StartModel, r));

    /// The model element ends.
    fn on_end_model(&mut self) -> (r: Result<(), Lib3mfError>)
        ensures
            final(self).log() == old(self).log().push((Visit::EndModel, r));

    /// A metadata entry.
    fn on_metadata(&mut self, name: &str, value: &str) -> (r: Result<(), Lib3mfError>)
        ensures
            final(self).log() == old(self).log().push((Visit::Metadata(name@, value@), r));

    /// The resources container starts.
    fn on_start_resources(&mut self) -> (r: Result<(), Lib3mfError>)
        ensures
            final(self).log() == old(self).log().push((Visit::StartResources, r));

    /// The resources container ends.
    fn on_end_resources(&mut self) -> (r: Result<(), Lib3mfError>)
        ensures
            final(self).log() == old(self).log().push((Visit::EndResources, r));

    /// A base materials group, read whole.
    fn on_base_materials(&mut self, id: ResourceId, group: &BaseMaterialsGroup) -> (r: Result<(), Lib3mfError>)
        ensures
            final(self).log() == old(self).log().push((Visit::BaseMaterials(id.0, bases_view(group.materials@)), r));

    /// A color group, read whole.
    fn on_color_group(&mut self, id: ResourceId, group: &ColorGroup) -> (r: Result<(), Lib3mfError>)
        ensures
            final(self).log() == old(self).log().push((Visit::ColorGroup(id.0, group.colors@), r));

    /// A mesh starts.
    fn on_start_mesh(&mut self, id: ResourceId) -> (r: Result<(), Lib3mfError>)
        ensures
            final(self).log() == old(self).log().push((Visit::StartMesh(id.0), r));

    /// A vertex of the current mesh (coordinates as bit patterns).
    fn on_vertex(&mut self, x: u32, y: u32, z: u32) -> (r: Result<(), Lib3mfError>)
        ensures
            final(self).log() == old(self).log().push((Visit::Vertex(x, y, z), r));

    /// A triangle of the current mesh.
    fn on_triangle(&mut self, v1: u32, v2: u32, v3: u32) -> (r: Result<(), Lib3mfError>)
        ensures
            final(self).log() == old(self).log().push((Visit::Triangle(v1, v2, v3), r));

    /// A mesh ends.
    fn on_end_mesh(&mut self) -> (r: Result<(), Lib3mfError>)
        ensures
            final(self).log() == old(self).log().push((Visit::EndMesh, r));

    /// A beam lattice of a mesh starts.
    fn on_start_beam_lattice(&mut self, id: ResourceId) -> (r: Result<(), Lib3mfError>)
        ensures
            final(self).log() == old(self).log().push((Visit::StartBeamLattice(id.0), r));

    /// A beam of the current lattice.
    fn on_beam(&mut self, beam: &Beam) -> (r: Result<(), Lib3mfError>)
        ensures
            final(self).log() == old(self).log().push((Visit::Beam(*beam), r));

    /// A beam lattice ends.
    fn on_end_beam_lattice(&mut self) -> (r: Result<(), Lib3mfError>)
        ensures
            final(self).log() == old(self).log().push((Visit::EndBeamLattice, r));

    /// A displacement mesh starts.
    fn on_start_displacement_mesh(&mut self, id: ResourceId) -> (r: Result<(), Lib3mfError>)
        ensures
            final(self).log() == old(self).log().push((Visit::StartDisplacementMesh(id.0), r));

    /// A vertex of the current displacement mesh.
    fn on_displacement_vertex(&mut self, x: u32, y: u32, z: u32) -> (r: Result<(), Lib3mfError>)
        ensures
            final(self).log() == old(self).log().push((Visit::DisplacementVertex(x, y, z), r));

    /// A triangle of the current displacement mesh.
    fn on_displacement_triangle(&mut self, triangle: &DisplacementTriangle) -> (r: Result<(), Lib3mfError>)
        ensures
            final(self).log() == old(self).log().push((Visit::DisplacementTriangle(*triangle), r));

    /// A normal vector of the current displacement mesh.
    fn on_displacement_normal(&mut self, nx: u32, ny: u32, nz: u32) -> (r: Result<(), Lib3mfError>)
        ensures
            final(self).log() == old(self).log().push((Visit::DisplacementNormal(nx, ny, nz), r));

    /// A displacement mesh ends.
    fn on_end_displacement_mesh(&mut self) -> (r: Result<(), Lib3mfError>)
        ensures
            final(self).log() == old(self).log().push((Visit::EndDisplacementMesh, r));

    /// The build container starts.
    fn on_start_build(&mut self) -> (r: Result<(), Lib3mfError>)
        ensures
            final(self).log() == old(self).log().push((Visit::StartBuild, r));

    /// The build container ends.
    fn on_end_build(&mut self) -> (r: Result<(), Lib3mfError>)
        ensures
            final(self).log() == old(self).log().push((Visit::EndBuild, r));

    /// An item of the build.
    fn on_build_item(&mut self, item: &BuildItem) -> (r: Result<(), Lib3mfError>)
        ensures
            final(self).log() == old(self).log().push((item_visit(*item), r));
}

} // verus!
