//! Statistics about a model: counts of materials, displacement data and thumbnails, and
//! the vendor records of slicer project files that hold no measurements.

use vstd::prelude::*;
use crate::model::core_model::Model;
use crate::model::mesh::{DisplacementTriangle, Geometry, Object};
use crate::model::resolver::ResolvedMesh;
use crate::model::units::Unit;
use crate::text::same_text;
use crate::utils::hardware::HardwareCapabilities;

verus! {

/// Whether a package thumbnail exists, and how many objects name a thumbnail.
#[derive(Debug, Clone, Default)]
pub struct ThumbnailStats {
    /// Whether a package-level thumbnail is present.
    pub package_thumbnail_present: bool,
    /// Number of objects with a thumbnail.
    pub object_thumbnail_count: usize,
}

/// Counts of the material and property resources.
#[derive(Debug, Clone, Default)]
pub struct MaterialsStats {
    /// Base material groups.
    pub base_materials_count: usize,
    /// Color groups.
    pub color_groups_count: usize,
    /// Texture coordinate groups.
    pub texture_2d_groups_count: usize,
    /// Composite material groups.
    pub composite_materials_count: usize,
    /// Multi-property groups.
    pub multi_properties_count: usize,
}

/// Production extension statistics.
#[derive(Debug, Clone, Default)]
pub struct ProductionStats {
    /// Objects and build items that carry a UUID (not counted yet: always 0).
    pub uuid_count: usize,
}

/// Displacement extension statistics.
#[derive(Debug, Clone, Default)]
pub struct DisplacementStats {
    /// Displacement meshes.
    pub mesh_count: usize,
    /// Displacement textures.
    pub texture_count: usize,
    /// Normal vectors over all displacement meshes.
    pub normal_count: u64,
    /// Gradient vectors over all displacement meshes.
    pub gradient_count: u64,
    /// Triangles that name a displacement coordinate.
    pub displaced_triangle_count: u64,
    /// Triangles of all displacement meshes.
    pub total_triangle_count: u64,
}

/// Counts over what the build reaches, walking component trees across model parts.
///
/// Measurements in space (bounding box, surface area, volume) are taken by the caller from
/// `placed_meshes`.
#[derive(Debug)]
pub struct GeometryStats {
    /// Meshes reached (each instance counted).
    pub object_count: usize,
    /// Build items.
    pub instance_count: usize,
    /// Triangles over all meshes reached.
    pub triangle_count: u64,
    /// Vertices over all meshes reached.
    pub vertex_count: u64,
    /// Whether all meshes are known to be manifold (not examined here: always `false`).
    pub is_manifold: bool,
    /// Objects reached per type name (`model`, `support`, ...), types that occur only.
    pub type_counts: Vec<(String, usize)>,
    /// The meshes reached, in walk order, with the transforms that place them.
    pub placed_meshes: Vec<ResolvedMesh>,
}

/// Statistics and metadata of a model and its package.
#[derive(Debug)]
pub struct ModelStats {
    /// Unit of the model.
    pub unit: Unit,
    /// The `Application` metadata value.
    pub generator: Option<String>,
    /// The model's metadata entries.
    pub metadata: Vec<(String, String)>,
    /// Counts over the geometry reached from the build.
    pub geometry: GeometryStats,
    /// Material resource counts.
    pub materials: MaterialsStats,
    /// Production extension statistics.
    pub production: ProductionStats,
    /// Displacement extension statistics.
    pub displacement: DisplacementStats,
    /// Slicer project data (for packages written by Bambu Studio or OrcaSlicer).
    pub vendor: VendorData,
    /// The machine the statistics were taken on.
    pub system_info: HardwareCapabilities,
    /// Thumbnail statistics.
    pub thumbnails: ThumbnailStats,
}

/// A filament used by a sliced print.
#[derive(Debug, Clone, Default)]
pub struct FilamentInfo {
    /// Filament slot index.
    pub id: u32,
    /// Tray index of the material system.
    pub tray_info_idx: Option<String>,
    /// Filament type (`PLA`, `PETG`, ...), empty when not given.
    pub type_: String,
    /// Display color.
    pub color: Option<String>,
    /// Estimated length used in meters, as written.
    pub used_m: Option<String>,
    /// Estimated weight used in grams, as written.
    pub used_g: Option<String>,
}

/// Slicer project data of a package written by Bambu Studio or OrcaSlicer.
#[derive(Debug, Clone, Default)]
pub struct VendorData {
    /// Printer model.
    pub printer_model: Option<String>,
    /// Filaments used by the print (those of the first plate).
    pub filaments: Vec<FilamentInfo>,
    /// Build plates.
    pub plates: Vec<PlateInfo>,
    /// Estimated print time over all plates.
    pub print_time_estimate: Option<String>,
    /// Version of the slicer that wrote the package (`BambuStudio-01.09.00.00`).
    pub slicer_version: Option<String>,
    /// Nozzle diameter in millimeters, as the settings give it.
    pub nozzle_diameter: Option<DecimalText>,
    /// Warnings of the slicer over all plates.
    pub slicer_warnings: Vec<SlicerWarning>,
    /// Per-object metadata.
    pub object_metadata: Vec<BambuObjectMetadata>,
    /// Project settings.
    pub project_settings: Option<BambuProjectSettings>,
    /// Slicer profiles embedded in the package.
    pub profile_configs: Vec<BambuProfileConfig>,
    /// Assembly information.
    pub assembly_info: Vec<AssemblyItem>,
    /// Path of the cover thumbnail named by the package relationships.
    pub bambu_cover_thumbnail: Option<String>,
    /// Path of the embedded G-code named by the package relationships.
    pub bambu_gcode: Option<String>,
}

/// A build plate of a slicer project.
#[derive(Debug, Clone, Default)]
pub struct PlateInfo {
    /// Plate index (from 1).
    pub id: u32,
    /// Display name.
    pub name: Option<String>,
    /// Whether the plate is locked.
    pub locked: bool,
    /// Path of the plate's sliced G-code.
    pub gcode_file: Option<String>,
    /// Path of the plate's thumbnail.
    pub thumbnail_file: Option<String>,
    /// Object instances on the plate.
    pub items: Vec<PlateModelInstance>,
}

/// An object instance on a build plate.
#[derive(Debug, Clone, Copy, Default)]
pub struct PlateModelInstance {
    /// Object resource ID.
    pub object_id: u32,
    /// Instance index.
    pub instance_id: u32,
    /// Identify ID from the project metadata.
    pub identify_id: Option<u32>,
}

/// A warning of the slicer.
#[derive(Debug, Clone, Default)]
pub struct SlicerWarning {
    /// Message.
    pub msg: String,
    /// Severity level.
    pub level: Option<String>,
    /// Machine-readable code.
    pub error_code: Option<String>,
}

/// Kind of a part of a slicer object.
#[derive(Debug, Clone, PartialEq)]
pub enum PartSubtype {
    /// A printable part (the default).
    NormalPart,
    /// A modifier volume.
    ModifierPart,
    /// A support blocker volume.
    SupportBlocker,
    /// A support enforcer volume.
    SupportEnforcer,
    /// Any other subtype, by name.
    Other(String),
}

impl Default for PartSubtype {
    fn default() -> (r: Self)
        ensures
            r is NormalPart,
    {
        PartSubtype::NormalPart
    }
}

/// The subtype a name denotes.
pub open spec fn part_subtype_of(s: Seq<char>) -> (nat, Seq<char>) {
    if s == "normal_part"@ {
        (0, Seq::empty())
    } else if s == "modifier_part"@ {
        (1, Seq::empty())
    } else if s == "support_blocker"@ {
        (2, Seq::empty())
    } else if s == "support_enforcer"@ {
        (3, Seq::empty())
    } else {
        (4, s)
    }
}

/// A subtype as values: its variant and, for others, its name.
pub open spec fn part_subtype_view(p: PartSubtype) -> (nat, Seq<char>) {
    match p {
        PartSubtype::NormalPart => (0, Seq::empty()),
        PartSubtype::ModifierPart => (1, Seq::empty()),
        PartSubtype::SupportBlocker => (2, Seq::empty()),
        PartSubtype::SupportEnforcer => (3, Seq::empty()),
        PartSubtype::Other(s) => (4, s@),
    }
}

impl PartSubtype {
    /// The subtype named `s`: the four known names, else `Other` with the name.
    pub fn parse(s: &str) -> (r: Self)
        ensures
            part_subtype_view(r) == part_subtype_of(s@),
    {
        if same_text(s, "normal_part") {
            PartSubtype::NormalPart
        } else if same_text(s, "modifier_part") {
            PartSubtype::ModifierPart
        } else if same_text(s, "support_blocker") {
            PartSubtype::SupportBlocker
        } else if same_text(s, "support_enforcer") {
            PartSubtype::SupportEnforcer
        } else {
            PartSubtype::Other(String::from_str(s))
        }
    }
}

/// Mesh repair statistics of the slicer.
#[derive(Debug, Clone, Copy, Default)]
pub struct BambuMeshStat {
    /// Edges fixed.
    pub edges_fixed: Option<u32>,
    /// Degenerate faces removed.
    pub degenerate_facets: Option<u32>,
    /// Faces removed.
    pub facets_removed: Option<u32>,
    /// Faces reversed.
    pub facets_reversed: Option<u32>,
    /// Backwards edges corrected.
    pub backwards_edges: Option<u32>,
}

/// Metadata of an object of a slicer project.
#[derive(Debug, Clone)]
pub struct BambuObjectMetadata {
    /// Object resource ID.
    pub id: u32,
    /// Display name.
    pub name: Option<String>,
    /// Extruder index.
    pub extruder: Option<u32>,
    /// Number of faces.
    pub face_count: Option<u64>,
    /// Its parts.
    pub parts: Vec<BambuPartMetadata>,
}

/// Metadata of a part of a slicer object.
#[derive(Debug, Clone)]
pub struct BambuPartMetadata {
    /// Part index.
    pub id: u32,
    /// Kind of part.
    pub subtype: PartSubtype,
    /// Display name.
    pub name: Option<String>,
    /// Transform, as written.
    pub matrix: Option<String>,
    /// Where the part came from.
    pub source: Option<BambuPartSource>,
    /// Mesh repair statistics.
    pub mesh_stat: Option<BambuMeshStat>,
    /// Print setting overrides (name, value), names unique.
    pub print_overrides: Vec<(String, String)>,
}

/// The source volume of a part.
#[derive(Debug, Clone)]
pub struct BambuPartSource {
    /// Source volume ID.
    pub volume_id: Option<u32>,
    /// X offset, as written.
    pub offset_x: Option<String>,
    /// Y offset, as written.
    pub offset_y: Option<String>,
    /// Z offset, as written.
    pub offset_z: Option<String>,
}

/// A decimal number as a settings file gives it, to be read by the caller: a JSON number
/// (as `serde_json` prints it) or a JSON string holding one (as written).
#[derive(Debug, Clone, PartialEq)]
pub enum DecimalText {
    /// A JSON number's text.
    Number(String),
    /// A JSON string's content.
    Text(String),
}

/// Project settings of a slicer project.
#[derive(Debug, Clone)]
pub struct BambuProjectSettings {
    /// Printer model.
    pub printer_model: Option<String>,
    /// Printer profile it inherits from.
    pub printer_inherits: Option<String>,
    /// Bed type.
    pub bed_type: Option<String>,
    /// Layer height in millimeters.
    pub layer_height: Option<DecimalText>,
    /// First layer height in millimeters.
    pub first_layer_height: Option<DecimalText>,
    /// Filament types per extruder.
    pub filament_type: Vec<String>,
    /// Filament colors per extruder.
    pub filament_colour: Vec<String>,
    /// Nozzle diameters per extruder.
    pub nozzle_diameter: Vec<DecimalText>,
    /// Print sequence.
    pub print_sequence: Option<String>,
    /// Number of walls.
    pub wall_loops: Option<u32>,
    /// Infill density.
    pub infill_density: Option<String>,
    /// Support type.
    pub support_type: Option<String>,
    /// Other settings (key, value as JSON), keys unique.
    pub extras: Vec<(String, String)>,
}

/// A slicer profile of a project.
#[derive(Debug, Clone)]
pub struct BambuProfileConfig {
    /// Kind of profile: `filament`, `machine` or `process`.
    pub config_type: String,
    /// The N of `*_settings_N.config`.
    pub index: u32,
    /// Profile it inherits from.
    pub inherits: Option<String>,
    /// Display name.
    pub name: Option<String>,
    /// Other settings (key, value as JSON), keys unique.
    pub extras: Vec<(String, String)>,
}

/// An assembly item of a slicer project.
#[derive(Debug, Clone, Default)]
pub struct AssemblyItem {
    /// Object resource ID.
    pub object_id: u32,
    /// Number of instances.
    pub instance_count: u32,
    /// Transform, as written.
    pub transform: Option<String>,
    /// Offset, as written.
    pub offset: Option<String>,
}

/// Whether a displacement triangle names a displacement coordinate.
pub open spec fn displaced(t: DisplacementTriangle) -> bool {
    t.d1 is Some || t.d2 is Some || t.d3 is Some
}

/// The number of triangles among the first `n` that name a displacement coordinate.
pub open spec fn displaced_upto(tris: Seq<DisplacementTriangle>, n: nat) -> nat
    decreases n,
{
    if n == 0 { 0 } else { displaced_upto(tris, (n - 1) as nat) + (if displaced(tris[n - 1]) { 1nat } else { 0nat }) }
}

/// The displacement statistics of the first `n` objects.
pub open spec fn displacement_upto(objs: Seq<Object>, n: nat) -> (nat, nat, nat, nat, nat)
    decreases n,
{
    if n == 0 {
        (0, 0, 0, 0, 0)
    } else {
        let r = displacement_upto(objs, (n - 1) as nat);
        match objs[n - 1].geometry {
            Geometry::DisplacementMesh(dm) => (
                r.0 + 1,
                r.1 + dm.normals@.len(),
                r.2 + match dm.gradients { Some(g) => g@.len(), None => 0 },
                r.3 + dm.triangles@.len(),
                r.4 + displaced_upto(dm.triangles@, dm.triangles@.len()),
            ),
            _ => r,
        }
    }
}

/// The number of the first `n` objects that name a thumbnail.
pub open spec fn thumbnails_upto(objs: Seq<Object>, n: nat) -> nat
    decreases n,
{
    if n == 0 { 0 } else { thumbnails_upto(objs, (n - 1) as nat) + (if objs[n - 1].thumbnail is Some { 1nat } else { 0nat }) }
}

proof fn lemma_displaced_bound(tris: Seq<DisplacementTriangle>, n: nat)
    requires
        n <= tris.len(),
    ensures
        displaced_upto(tris, n) <= n,
    decreases n,
{
    if n > 0 {
        lemma_displaced_bound(tris, (n - 1) as nat);
    }
}

fn count_displaced(tris: &Vec<DisplacementTriangle>) -> (n: u64)
    requires
        tris@.len() <= u64::MAX,
    ensures
        n == displaced_upto(tris@, tris@.len()),
{
    let mut n: u64 = 0;
    let mut i: usize = 0;
    while i < tris.len()
        invariant
            i <= tris@.len(),
            tris@.len() <= u64::MAX,
            n == displaced_upto(tris@, i as nat),
        decreases tris@.len() - i,
    {
        proof { lemma_displaced_bound(tris@, i as nat); }
        let t = &tris[i];
        if t.d1.is_some() || t.d2.is_some() || t.d3.is_some() {
            n = n + 1;
        }
        i = i + 1;
    }
    n
}

impl Model {
    /// Counts displacement meshes, their normals, gradients and triangles (and those that
    /// name a displacement coordinate), and displacement textures.
    pub fn compute_displacement_stats(&self) -> (s: DisplacementStats)
        requires
            displacement_upto(self.resources.objects(), self.resources.objects().len()).1 <= u64::MAX,
            displacement_upto(self.resources.objects(), self.resources.objects().len()).2 <= u64::MAX,
            displacement_upto(self.resources.objects(), self.resources.objects().len()).3 <= u64::MAX,
        ensures
            ({
                let d = displacement_upto(self.resources.objects(), self.resources.objects().len());
                &&& s.mesh_count == d.0
                &&& s.normal_count == d.1
                &&& s.gradient_count == d.2
                &&& s.total_triangle_count == d.3
                &&& s.displaced_triangle_count == d.4
                &&& s.texture_count == self.resources.displacement_2d().len()
            }),
    {
        let objs = self.resources.iter_objects();
        let mut s = DisplacementStats {
            mesh_count: 0,
            texture_count: self.resources.displacement_2d_count(),
            normal_count: 0,
            gradient_count: 0,
            displaced_triangle_count: 0,
            total_triangle_count: 0,
        };
        let ghost total = displacement_upto(objs@, objs@.len());
        let mut i: usize = 0;
        while i < objs.len()
            invariant
                objs@ == self.resources.objects(),
                i <= objs@.len(),
                total == displacement_upto(objs@, objs@.len()),
                total.1 <= u64::MAX,
                total.2 <= u64::MAX,
                total.3 <= u64::MAX,
                s.texture_count == self.resources.displacement_2d().len(),
                ({
                    let d = displacement_upto(objs@, i as nat);
                    &&& s.mesh_count == d.0
                    &&& s.normal_count == d.1
                    &&& s.gradient_count == d.2
                    &&& s.total_triangle_count == d.3
                    &&& s.displaced_triangle_count == d.4
                }),
            decreases objs@.len() - i,
        {
            proof {
                lemma_displacement_mono(objs@, (i + 1) as nat, objs@.len());
                lemma_displacement_bounds(objs@, i as nat);
                lemma_displacement_bounds(objs@, (i + 1) as nat);
            }
            match &objs[i].geometry {
                Geometry::DisplacementMesh(dm) => {
                    s.mesh_count = s.mesh_count + 1;
                    s.normal_count = s.normal_count + dm.normals.len() as u64;
                    let g = match &dm.gradients {
                        Some(g) => g.len() as u64,
                        None => 0,
                    };
                    s.gradient_count = s.gradient_count + g;
                    s.total_triangle_count = s.total_triangle_count + dm.triangles.len() as u64;
                    s.displaced_triangle_count = s.displaced_triangle_count + count_displaced(&dm.triangles);
                },
                _ => {},
            }
            i = i + 1;
        }
        s
    }

    /// Counts the material and property resource groups.
    pub fn materials_stats(&self) -> (s: MaterialsStats)
        ensures
            s.base_materials_count == self.resources.base_materials().len(),
            s.color_groups_count == self.resources.color_groups().len(),
            s.texture_2d_groups_count == self.resources.texture_2d_groups().len(),
            s.composite_materials_count == self.resources.composite_materials().len(),
            s.multi_properties_count == self.resources.multi_properties().len(),
    {
        MaterialsStats {
            base_materials_count: self.resources.base_material_groups_count(),
            color_groups_count: self.resources.color_groups_count(),
            texture_2d_groups_count: self.resources.texture_2d_groups_count(),
            composite_materials_count: self.resources.composite_materials_count(),
            multi_properties_count: self.resources.multi_properties_count(),
        }
    }

    /// Counts the objects that name a thumbnail.
    pub fn object_thumbnail_count(&self) -> (n: usize)
        ensures
            n == thumbnails_upto(self.resources.objects(), self.resources.objects().len()),
    {
        let objs = self.resources.iter_objects();
        let mut n: usize = 0;
        let mut i: usize = 0;
        while i < objs.len()
            invariant
                objs@ == self.resources.objects(),
                i <= objs@.len(),
                n == thumbnails_upto(objs@, i as nat),
                n <= i,
            decreases objs@.len() - i,
        {
            if objs[i].thumbnail.is_some() {
                n = n + 1;
            }
            i = i + 1;
        }
        n
    }
}

/// Later prefixes have larger totals.
proof fn lemma_displacement_mono(objs: Seq<Object>, a: nat, b: nat)
    requires
        a <= b <= objs.len(),
    ensures
        displacement_upto(objs, a).0 <= displacement_upto(objs, b).0,
        displacement_upto(objs, a).1 <= displacement_upto(objs, b).1,
        displacement_upto(objs, a).2 <= displacement_upto(objs, b).2,
        displacement_upto(objs, a).3 <= displacement_upto(objs, b).3,
        displacement_upto(objs, a).4 <= displacement_upto(objs, b).4,
    decreases b - a,
{
    if a < b {
        lemma_displacement_mono(objs, a, (b - 1) as nat);
    }
}

/// The displacement mesh count is at most the object count, and displaced triangles at most
/// all triangles.
proof fn lemma_displacement_bounds(objs: Seq<Object>, n: nat)
    requires
        n <= objs.len(),
    ensures
        displacement_upto(objs, n).0 <= n,
        displacement_upto(objs, n).4 <= displacement_upto(objs, n).3,
    decreases n,
{
    if n > 0 {
        lemma_displacement_bounds(objs, (n - 1) as nat);
        if let Geometry::DisplacementMesh(dm) = objs[n - 1].geometry {
            lemma_displaced_bound(dm.triangles@, dm.triangles@.len());
        }
    }
}

} // verus!
