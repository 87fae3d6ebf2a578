//! Reading of a 3MF model part: the model's unit, language and metadata, its resources
//! (objects with their geometry, materials and properties, slice and volumetric stacks,
//! boolean shapes, displacement textures) and its build.

use vstd::prelude::*;
use crate::error::Lib3mfError;
use crate::model::build_section::Build;
use crate::model::core_model::{Model, lookup_value};
use crate::model::materials::{
    BaseMaterialsGroup, BlendMethod, Channel, ColorGroup, CompositeMaterials, Displacement2D, FilterMode,
    MultiProperties, Texture2DGroup, TileStyle,
};
use crate::model::mesh::{
    BooleanShape, Components, DisplacementMesh, Geometry, Mesh, Object, ObjectType, DisplacementTriangle,
    GradientVector, NormalVector, Vertex,
};
use crate::model::resources::{
    Identified, ResourceCollection, ResourceId, duplicate_message, has_id, is_duplicate_error,
};
use crate::model::slice::SliceStack;
use crate::model::units::Unit;
use crate::model::volumetric::VolumetricStack;
use crate::parser::boolean_parser::{OperationView, boolean_scan, operations_view, parse_boolean_shape};
use crate::parser::build_parser::{ItemView, build_scan, items_view, parse_build};
use crate::parser::component_parser::{
    ComponentView, components_scan, components_view, optional_transform, parse_components, path_of,
    read_optional_transform, read_path,
};
use crate::parser::crypto_parser::{eof_error, moved_on};
use crate::parser::displacement_parser::{
    DisplacementMeshView, displacement_mesh_scan, displacement_mesh_view, empty_displacement_mesh,
    has_local_name, parse_displacement_2d, parse_displacement_mesh, displacement_2d_end,
};
use crate::parser::material_parser::{
    base_materials_scan, bases_view, colors_scan, composites_scan, composites_view, multis_scan, multis_view,
    parse_base_materials, parse_color_group, parse_composite_materials, parse_multi_properties,
    parse_texture_2d_group, parse_word_u32s, tex_coords_scan, word_u32s,
};
use crate::parser::mesh_parser::{MeshView, empty_mesh, mesh_scan, mesh_view, parse_mesh, u32_ok};
use crate::parser::slice_parser::{SliceRefView, SliceView, parse_slice_stack_content, slice_refs_view, slice_stack_scan, slices_view};
use crate::parser::volumetric_parser::{layers_view, parse_volumetric_stack_content, volumetric_refs_view, volumetric_scan};
use crate::parser::xml_parser::{
    AttrsView, EventView, NumberTable, NumbersView, XmlEvent, XmlParser, XmlTag, attr_f32, attr_f32_or, attr_text,
    attr_u32, attr_u32_ok, attr_uuid, attrs_view, eof_message, get_attribute, get_attribute_f32,
    get_attribute_u32, get_attribute_uuid, local_name, local_name_of, numbers_view, opt_view, split_words,
    text_content, words,
};
use crate::text::same_text;

verus! {

/// What `str::to_lowercase` makes of a text.
pub uninterp spec fn lowercased(text: Seq<char>) -> Seq<char>;

/// A text in lower case (`str::to_lowercase`).
#[verifier::external_body]
fn to_lowercase(text: &str) -> (r: String)
    ensures
        r@ == lowercased(text@),
{
    text.to_lowercase()
}

/// A displacement mesh as values, its gradients `None` where there are none.
pub type DisplacementMeshValue = (Seq<Vertex>, Seq<DisplacementTriangle>, Seq<NormalVector>, Option<Seq<GradientVector>>);

/// A displacement mesh read as values, its gradients `None` where there are none.
pub open spec fn finished_displacement_mesh(m: DisplacementMeshView) -> DisplacementMeshValue {
    (m.0, m.1, m.2, if m.3.len() == 0 { None } else { Some(m.3) })
}

/// A boolean shape as values: base object, base matrix entries, base path, operations.
pub type BooleanShapeView = (u32, Seq<u32>, Option<Seq<char>>, Seq<OperationView>);

/// The geometry of an object as values.
pub enum GeometryView {
    /// A mesh.
    Mesh(MeshView),
    /// Components.
    Components(Seq<ComponentView>),
    /// A slice stack reference.
    SliceStack(u32),
    /// A volumetric stack reference.
    VolumetricStack(u32),
    /// A boolean shape.
    BooleanShape(BooleanShapeView),
    /// A displacement mesh.
    DisplacementMesh(DisplacementMeshValue),
}

/// The geometry of an object as values.
pub open spec fn geometry_view(g: Geometry) -> GeometryView {
    match g {
        Geometry::Mesh(m) => GeometryView::Mesh(mesh_view(m)),
        Geometry::Components(c) => GeometryView::Components(components_view(c.components@)),
        Geometry::SliceStack(r) => GeometryView::SliceStack(r.0),
        Geometry::VolumetricStack(r) => GeometryView::VolumetricStack(r.0),
        Geometry::BooleanShape(b) => GeometryView::BooleanShape(
            (b.base_object_id.0, b.base_transform.m@, opt_view(b.base_path), operations_view(b.operations@)),
        ),
        Geometry::DisplacementMesh(d) => GeometryView::DisplacementMesh((d.vertices@, d.triangles@, d.normals@, match d.gradients {
            Some(g) => Some(g@),
            None => None,
        })),
    }
}

/// The geometry inside an `<object>` from position `pos` on, starting from `g`, and the
/// position after its end: a `<mesh>`, `<components>` or `<displacementmesh>` (known by
/// local names) replaces what an earlier one gave.
pub open spec fn object_geometry_scan(evs: Seq<EventView>, err: Option<Seq<char>>, pos: int, t: NumbersView, g: GeometryView) -> Result<(GeometryView, int), Seq<char>>
    decreases evs.len() - pos,
{
    if pos < 0 || pos >= evs.len() {
        Err(eof_message(err, "Unexpected EOF in object"@))
    } else {
        match evs[pos] {
            EventView::End(n) => if n == "object"@ {
                Ok((g, pos + 1))
            } else {
                object_geometry_scan(evs, err, pos + 1, t, g)
            },
            EventView::Start(x) => {
                let ln = local_name(x.0);
                if ln == "mesh"@ {
                    match mesh_scan(evs, err, pos + 1, t, empty_mesh()) {
                        Ok((m, p)) => if pos < p <= evs.len() { object_geometry_scan(evs, err, p, t, GeometryView::Mesh(m)) } else { Err(Seq::empty()) },
                        Err(e) => Err(e),
                    }
                } else if ln == "components"@ {
                    match components_scan(evs, err, pos + 1, t, Seq::empty()) {
                        Ok((c, p)) => if pos < p <= evs.len() { object_geometry_scan(evs, err, p, t, GeometryView::Components(c)) } else { Err(Seq::empty()) },
                        Err(e) => Err(e),
                    }
                } else if ln == "displacementmesh"@ {
                    match displacement_mesh_scan(evs, err, pos + 1, t, empty_displacement_mesh()) {
                        Ok((d, p)) => if pos < p <= evs.len() {
                            object_geometry_scan(evs, err, p, t, GeometryView::DisplacementMesh(finished_displacement_mesh(d)))
                        } else {
                            Err(Seq::empty())
                        },
                        Err(e) => Err(e),
                    }
                } else {
                    object_geometry_scan(evs, err, pos + 1, t, g)
                }
            },
            _ => object_geometry_scan(evs, err, pos + 1, t, g),
        }
    }
}

/// An empty mesh as a geometry.
pub open spec fn empty_mesh_geometry() -> GeometryView {
    GeometryView::Mesh(empty_mesh())
}

fn parse_object_geometry(parser: &mut XmlParser, numbers: &NumberTable) -> (r: Result<Geometry, Lib3mfError>)
    requires
        old(parser).wf(),
    ensures
        moved_on(*old(parser), *final(parser)),
        r is Ok ==> old(parser).pos < final(parser).pos,
        match object_geometry_scan(old(parser).events_of(), old(parser).error_of(), old(parser).pos as int, numbers_view(*numbers), empty_mesh_geometry()) {
            Ok((g, p)) => r matches Ok(x) && geometry_view(x) == g && final(parser).pos == p,
            Err(m) => r matches Err(Lib3mfError::Validation(x)) && x@ == m,
        },
{
    let ghost evs = parser.events_of();
    let ghost err = parser.error_of();
    let ghost start = parser.pos as int;
    let ghost tv = numbers_view(*numbers);
    let mut geometry = Geometry::Mesh(Mesh { vertices: Vec::new(), triangles: Vec::new(), beam_lattice: None });
    proof {
        assert(geometry_view(geometry) =~= empty_mesh_geometry());
    }
    loop
        invariant
            moved_on(*old(parser), *parser),
            start == old(parser).pos,
            evs == parser.events_of(),
            err == parser.error_of(),
            tv == numbers_view(*numbers),
            start <= parser.pos,
            object_geometry_scan(evs, err, start, tv, empty_mesh_geometry())
                == object_geometry_scan(evs, err, parser.pos as int, tv, geometry_view(geometry)),
        decreases evs.len() - parser.pos,
    {
        let ev = match parser.read_next_event() {
            Ok(Some(e)) => e,
            Ok(None) => return Err(eof_error(parser, "Unexpected EOF in object")),
            Err(e) => return Err(e),
        };
        match ev {
            XmlEvent::End(n) => {
                if same_text(n.as_str(), "object") {
                    return Ok(geometry);
                }
            },
            XmlEvent::Start(x) => {
                let ln = local_name_of(x.name.as_str());
                if same_text(ln.as_str(), "mesh") {
                    match parse_mesh(parser, numbers) {
                        Ok(m) => geometry = Geometry::Mesh(m),
                        Err(e) => return Err(e),
                    }
                } else if same_text(ln.as_str(), "components") {
                    match parse_components(parser, numbers) {
                        Ok(c) => geometry = Geometry::Components(c),
                        Err(e) => return Err(e),
                    }
                } else if same_text(ln.as_str(), "displacementmesh") {
                    match parse_displacement_mesh(parser, numbers) {
                        Ok(d) => {
                            proof {
                                if d.gradients is None {
                                    assert(displacement_mesh_view(d).3 =~= Seq::<GradientVector>::empty());
                                }
                            }
                            geometry = Geometry::DisplacementMesh(d);
                        },
                        Err(e) => return Err(e),
                    }
                }
            },
            _ => {},
        }
    }
}

/// The object type a `type` attribute names; a model otherwise.
pub open spec fn object_type_of(a: AttrsView) -> ObjectType {
    match attr_text(a, "type"@) {
        Some(s) => if s == "support"@ {
            ObjectType::Support
        } else if s == "solidsupport"@ {
            ObjectType::SolidSupport
        } else if s == "surface"@ {
            ObjectType::Surface
        } else if s == "other"@ {
            ObjectType::Other
        } else {
            ObjectType::Model
        },
        None => ObjectType::Model,
    }
}

/// The first of two optional numbers that is present.
pub open spec fn either(a: Option<u32>, b: Option<u32>) -> Option<u32> {
    match a {
        Some(x) => Some(x),
        None => b,
    }
}

/// An object as values: ID, type, name, part number, UUID, property group and index,
/// thumbnail, geometry.
pub type ObjectView = (u32, ObjectType, Option<Seq<char>>, Option<Seq<char>>, Option<u128>, Option<u32>, Option<u32>, Option<Seq<char>>, GeometryView);

/// An object as values.
pub open spec fn object_view(o: Object) -> ObjectView {
    (o.id.0, o.object_type, opt_view(o.name), opt_view(o.part_number), o.uuid, match o.pid {
        Some(p) => Some(p.0),
        None => None,
    }, o.pindex, opt_view(o.thumbnail), geometry_view(o.geometry))
}

/// What an `<object>` tag and the geometry read inside it give: its ID (required) and
/// UUID (checked in that order), name, part number, property group and index, type and
/// thumbnail; a slice stack, else a volumetric stack it names (with or without a
/// namespace prefix) takes the place of the geometry.
pub open spec fn object_of(a: AttrsView, g: GeometryView) -> ObjectView {
    let ss = either(attr_u32_ok(a, "slicestackid"@), attr_u32_ok(a, "s:slicestackid"@));
    let vs = either(attr_u32_ok(a, "volumetricstackid"@), attr_u32_ok(a, "v:volumetricstackid"@));
    let geometry = match ss {
        Some(s) => GeometryView::SliceStack(s),
        None => match vs {
            Some(v) => GeometryView::VolumetricStack(v),
            None => g,
        },
    };
    (attr_u32(a, "id"@)->Ok_0, object_type_of(a), attr_text(a, "name"@), attr_text(a, "partnumber"@),
        attr_uuid(a)->Ok_0, attr_u32_ok(a, "pid"@), attr_u32_ok(a, "pindex"@), attr_text(a, "thumbnail"@), geometry)
}

/// The resources of a model as values, with the IDs used so far: objects, base materials,
/// color groups, slice stacks, volumetric stacks, texture groups, composite materials,
/// multi-properties, displacement textures.
pub type ResourcesView = (
    Seq<u32>,
    Seq<ObjectView>,
    Seq<(u32, Seq<(Seq<char>, crate::model::materials::Color)>)>,
    Seq<(u32, Seq<crate::model::materials::Color>)>,
    Seq<(u32, u32, Seq<SliceView>, Seq<SliceRefView>)>,
    Seq<(u32, Seq<char>, Seq<(u32, Seq<char>)>, Seq<(u32, Seq<char>)>)>,
    Seq<(u32, u32, Seq<crate::model::materials::Texture2DCoord>)>,
    Seq<(u32, u32, Seq<u32>, Seq<Seq<u32>>)>,
    Seq<(u32, Seq<u32>, Seq<BlendMethod>, Seq<Seq<u32>>)>,
    Seq<(u32, Seq<char>, Channel, TileStyle, FilterMode, u32, u32)>,
);

/// No resources.
pub open spec fn no_resources() -> ResourcesView {
    (Seq::empty(), Seq::empty(), Seq::empty(), Seq::empty(), Seq::empty(), Seq::empty(), Seq::empty(), Seq::empty(), Seq::empty(), Seq::empty())
}

/// The channel a `channel` attribute names; green otherwise.
pub open spec fn channel_of(a: AttrsView) -> Channel {
    match attr_text(a, "channel"@) {
        Some(s) => if s == "R"@ {
            Channel::R
        } else if s == "B"@ {
            Channel::B
        } else if s == "A"@ {
            Channel::A
        } else {
            Channel::G
        },
        None => Channel::G,
    }
}

/// The tile style a `tilestyle` attribute names in any case; wrapping otherwise.
pub open spec fn tile_style_of(a: AttrsView) -> TileStyle {
    match attr_text(a, "tilestyle"@) {
        Some(s) => {
            let l = lowercased(s);
            if l == "mirror"@ {
                TileStyle::Mirror
            } else if l == "clamp"@ {
                TileStyle::Clamp
            } else if l == "none"@ {
                TileStyle::NoTiling
            } else {
                TileStyle::Wrap
            }
        },
        None => TileStyle::Wrap,
    }
}

/// The filter a `filter` attribute names in any case; linear otherwise.
pub open spec fn filter_of(a: AttrsView) -> FilterMode {
    match attr_text(a, "filter"@) {
        Some(s) => if lowercased(s) == "nearest"@ {
            FilterMode::Nearest
        } else {
            FilterMode::Linear
        },
        None => FilterMode::Linear,
    }
}

/// The blend methods of the words of a `blendmethods` attribute, or the message for the
/// first that is neither `mix` nor `multiply`.
pub open spec fn blend_methods_of(ws: Seq<Seq<char>>) -> Result<Seq<BlendMethod>, Seq<char>>
    decreases ws.len(),
{
    if ws.len() == 0 {
        Ok(Seq::empty())
    } else {
        match blend_methods_of(ws.drop_last()) {
            Err(m) => Err(m),
            Ok(v) => if ws.last() == "mix"@ {
                Ok(v.push(BlendMethod::Mix))
            } else if ws.last() == "multiply"@ {
                Ok(v.push(BlendMethod::Multiply))
            } else {
                Err("Invalid blend method: "@ + ws.last())
            },
        }
    }
}

/// What an `<object>` element whose content starts at `q` adds to `r`, and the position
/// after its end.
pub open spec fn object_element(evs: Seq<EventView>, err: Option<Seq<char>>, q: int, t: NumbersView, r: ResourcesView, a: AttrsView) -> Result<(ResourcesView, int), Seq<char>> {
    match attr_u32(a, "id"@) {
        Err(m) => Err(m),
        Ok(id) => match attr_uuid(a) {
            Err(m) => Err(m),
            Ok(_) => match object_geometry_scan(evs, err, q, t, empty_mesh_geometry()) {
                Err(m) => Err(m),
                Ok((g, p)) => if r.0.contains(id) {
                    Err(duplicate_message(id))
                } else {
                    Ok(((r.0.push(id), r.1.push(object_of(a, g)), r.2, r.3, r.4, r.5, r.6, r.7, r.8, r.9), p))
                },
            },
        },
    }
}

/// What a `<basematerials>` element whose content starts at `q` adds to `r`, and the
/// position after its end.
pub open spec fn base_materials_element(evs: Seq<EventView>, err: Option<Seq<char>>, q: int, r: ResourcesView, a: AttrsView) -> Result<(ResourcesView, int), Seq<char>> {
    match attr_u32(a, "id"@) {
        Err(m) => Err(m),
        Ok(id) => match base_materials_scan(evs, err, q) {
            Err(m) => Err(m),
            Ok((v, p)) => if r.0.contains(id) {
                Err(duplicate_message(id))
            } else {
                Ok(((r.0.push(id), r.1, r.2.push((id, v)), r.3, r.4, r.5, r.6, r.7, r.8, r.9), p))
            },
        },
    }
}

/// What a `<colorgroup>` element whose content starts at `q` adds to `r`, and the
/// position after its end.
pub open spec fn color_group_element(evs: Seq<EventView>, err: Option<Seq<char>>, q: int, r: ResourcesView, a: AttrsView) -> Result<(ResourcesView, int), Seq<char>> {
    match attr_u32(a, "id"@) {
        Err(m) => Err(m),
        Ok(id) => match colors_scan(evs, err, q) {
            Err(m) => Err(m),
            Ok((v, p)) => if r.0.contains(id) {
                Err(duplicate_message(id))
            } else {
                Ok(((r.0.push(id), r.1, r.2, r.3.push((id, v)), r.4, r.5, r.6, r.7, r.8, r.9), p))
            },
        },
    }
}

/// What a `<texture2dgroup>` element whose content starts at `q` adds to `r`, and the
/// position after its end.
pub open spec fn texture_group_element(evs: Seq<EventView>, err: Option<Seq<char>>, q: int, t: NumbersView, r: ResourcesView, a: AttrsView) -> Result<(ResourcesView, int), Seq<char>> {
    match attr_u32(a, "id"@) {
        Err(m) => Err(m),
        Ok(id) => match attr_u32(a, "texid"@) {
            Err(m) => Err(m),
            Ok(tex) => match tex_coords_scan(evs, err, q, t) {
                Err(m) => Err(m),
                Ok((v, p)) => if r.0.contains(id) {
                    Err(duplicate_message(id))
                } else {
                    Ok(((r.0.push(id), r.1, r.2, r.3, r.4, r.5, r.6.push((id, tex, v)), r.7, r.8, r.9), p))
                },
            },
        },
    }
}

/// What a `<compositematerials>` element whose content starts at `q` adds to `r`, and
/// the position after its end.
pub open spec fn composite_element(evs: Seq<EventView>, err: Option<Seq<char>>, q: int, t: NumbersView, r: ResourcesView, a: AttrsView) -> Result<(ResourcesView, int), Seq<char>> {
    match attr_u32(a, "id"@) {
        Err(m) => Err(m),
        Ok(id) => match attr_u32(a, "matid"@) {
            Err(m) => Err(m),
            Ok(mat) => match attr_text(a, "matindices"@) {
                None => Err("compositematerials missing matindices"@),
                Some(s) => match word_u32s(words(s)) {
                    None => Err("Invalid matindices value"@),
                    Some(indices) => match composites_scan(evs, err, q, t) {
                        Err(m) => Err(m),
                        Ok((v, p)) => if r.0.contains(id) {
                            Err(duplicate_message(id))
                        } else {
                            Ok(((r.0.push(id), r.1, r.2, r.3, r.4, r.5, r.6, r.7.push((id, mat, indices, v)), r.8, r.9), p))
                        },
                    },
                },
            },
        },
    }
}

/// What a `<multiproperties>` element whose content starts at `q` adds to `r`, and the
/// position after its end.
pub open spec fn multi_element(evs: Seq<EventView>, err: Option<Seq<char>>, q: int, r: ResourcesView, a: AttrsView) -> Result<(ResourcesView, int), Seq<char>> {
    match attr_u32(a, "id"@) {
        Err(m) => Err(m),
        Ok(id) => match attr_text(a, "pids"@) {
            None => Err("multiproperties missing pids"@),
            Some(ps) => match word_u32s(words(ps)) {
                None => Err("Invalid pid value"@),
                Some(pids) => match attr_text(a, "blendmethods"@) {
                    None => Err("multiproperties missing blendmethods"@),
                    Some(bs) => match blend_methods_of(words(bs)) {
                        Err(m) => Err(m),
                        Ok(blends) => match multis_scan(evs, err, q) {
                            Err(m) => Err(m),
                            Ok((v, p)) => if r.0.contains(id) {
                                Err(duplicate_message(id))
                            } else {
                                Ok(((r.0.push(id), r.1, r.2, r.3, r.4, r.5, r.6, r.7, r.8.push((id, pids, blends, v)), r.9), p))
                            },
                        },
                    },
                },
            },
        },
    }
}

/// What a `<slicestack>` element whose content starts at `q` adds to `r`, and the
/// position after its end.
pub open spec fn slice_stack_element(evs: Seq<EventView>, err: Option<Seq<char>>, q: int, t: NumbersView, r: ResourcesView, a: AttrsView) -> Result<(ResourcesView, int), Seq<char>> {
    match attr_u32(a, "id"@) {
        Err(m) => Err(m),
        Ok(id) => match slice_stack_scan(evs, err, q, t, (Seq::empty(), Seq::empty())) {
            Err(m) => Err(m),
            Ok((v, p)) => if r.0.contains(id) {
                Err(duplicate_message(id))
            } else {
                Ok(((r.0.push(id), r.1, r.2, r.3, r.4.push((id, attr_f32_or(a, "zbottom"@, t, 0), v.0, v.1)), r.5, r.6, r.7, r.8, r.9), p))
            },
        },
    }
}

/// What a `<volumetricstack>` element whose content starts at `q` adds to `r`, and the
/// position after its end.
pub open spec fn volumetric_element(evs: Seq<EventView>, err: Option<Seq<char>>, q: int, t: NumbersView, r: ResourcesView, a: AttrsView) -> Result<(ResourcesView, int), Seq<char>> {
    match attr_u32(a, "id"@) {
        Err(m) => Err(m),
        Ok(id) => match volumetric_scan(evs, err, q, t, (Seq::empty(), Seq::empty())) {
            Err(m) => Err(m),
            Ok((v, p)) => if r.0.contains(id) {
                Err(duplicate_message(id))
            } else {
                Ok(((r.0.push(id), r.1, r.2, r.3, r.4, r.5.push((id, Seq::empty(), v.0, v.1)), r.6, r.7, r.8, r.9), p))
            },
        },
    }
}

/// What a `<booleanshape>` element whose content starts at `q` adds to `r` (an object of
/// model type), and the position after its end.
pub open spec fn boolean_element(evs: Seq<EventView>, err: Option<Seq<char>>, q: int, t: NumbersView, r: ResourcesView, a: AttrsView) -> Result<(ResourcesView, int), Seq<char>> {
    match attr_u32(a, "id"@) {
        Err(m) => Err(m),
        Ok(id) => match attr_u32(a, "objectid"@) {
            Err(m) => Err(m),
            Ok(base) => match optional_transform(a, t) {
                Err(m) => Err(m),
                Ok(bt) => match boolean_scan(evs, err, q, t, Seq::empty()) {
                    Err(m) => Err(m),
                    Ok((ops, p)) => if r.0.contains(id) {
                        Err(duplicate_message(id))
                    } else {
                        let o: ObjectView = (id, ObjectType::Model, None, None, None, None, None, None,
                            GeometryView::BooleanShape((base, bt, path_of(a), ops)));
                        Ok(((r.0.push(id), r.1.push(o), r.2, r.3, r.4, r.5, r.6, r.7, r.8, r.9), p))
                    },
                },
            },
        },
    }
}

/// What a `<displacement2d>` element whose content starts at `q` adds to `r`, and the
/// position after its end.
pub open spec fn displacement_texture_element(evs: Seq<EventView>, err: Option<Seq<char>>, q: int, t: NumbersView, r: ResourcesView, a: AttrsView) -> Result<(ResourcesView, int), Seq<char>> {
    match attr_u32(a, "id"@) {
        Err(m) => Err(m),
        Ok(id) => match attr_text(a, "path"@) {
            None => Err("displacement2d missing path attribute"@),
            Some(path) => match attr_f32(a, "height"@, t) {
                Err(m) => Err(m),
                Ok(h) => match displacement_2d_end(evs, err, q) {
                    Err(m) => Err(m),
                    Ok(p) => if r.0.contains(id) {
                        Err(duplicate_message(id))
                    } else {
                        Ok(((r.0.push(id), r.1, r.2, r.3, r.4, r.5, r.6, r.7, r.8,
                            r.9.push((id, path, channel_of(a), tile_style_of(a), filter_of(a), h, attr_f32_or(a, "offset"@, t, 0)))), p))
                    },
                },
            },
        },
    }
}

/// What a resource element named `ln` (a local name) whose content starts at `q` adds to
/// `r`, and the position after its end; `None` for elements that are no resources.
pub open spec fn resource_element(evs: Seq<EventView>, err: Option<Seq<char>>, q: int, t: NumbersView, r: ResourcesView, ln: Seq<char>, a: AttrsView) -> Option<Result<(ResourcesView, int), Seq<char>>> {
    if ln == "object"@ {
        Some(object_element(evs, err, q, t, r, a))
    } else if ln == "basematerials"@ {
        Some(base_materials_element(evs, err, q, r, a))
    } else if ln == "colorgroup"@ {
        Some(color_group_element(evs, err, q, r, a))
    } else if ln == "texture2dgroup"@ {
        Some(texture_group_element(evs, err, q, t, r, a))
    } else if ln == "compositematerials"@ {
        Some(composite_element(evs, err, q, t, r, a))
    } else if ln == "multiproperties"@ {
        Some(multi_element(evs, err, q, r, a))
    } else if ln == "slicestack"@ {
        Some(slice_stack_element(evs, err, q, t, r, a))
    } else if ln == "volumetricstack"@ {
        Some(volumetric_element(evs, err, q, t, r, a))
    } else if ln == "booleanshape"@ {
        Some(boolean_element(evs, err, q, t, r, a))
    } else if ln == "displacement2d"@ {
        Some(displacement_texture_element(evs, err, q, t, r, a))
    } else {
        None
    }
}

/// The resources inside `<resources>` from position `pos` on, added to `r`, and the
/// position after its end. Each resource element (known by its local name) is read by
/// its own reader and added; an ID already used by any resource is refused.
pub open spec fn resources_scan(evs: Seq<EventView>, err: Option<Seq<char>>, pos: int, t: NumbersView, r: ResourcesView) -> Result<(ResourcesView, int), Seq<char>>
    decreases evs.len() - pos,
{
    if pos < 0 || pos >= evs.len() {
        Err(eof_message(err, "Unexpected EOF in resources"@))
    } else {
        match evs[pos] {
            EventView::End(n) => if n == "resources"@ {
                Ok((r, pos + 1))
            } else {
                resources_scan(evs, err, pos + 1, t, r)
            },
            EventView::Start(x) => match resource_element(evs, err, pos + 1, t, r, local_name(x.0), x.1) {
                None => resources_scan(evs, err, pos + 1, t, r),
                Some(Err(m)) => Err(m),
                Some(Ok((r2, p))) => if pos < p <= evs.len() { resources_scan(evs, err, p, t, r2) } else { Err(Seq::empty()) },
            },
            _ => resources_scan(evs, err, pos + 1, t, r),
        }
    }
}

/// Objects as values.
pub open spec fn objects_view(v: Seq<Object>) -> Seq<ObjectView> {
    v.map_values(|o: Object| object_view(o))
}

/// Base material groups as values.
pub open spec fn base_groups_view(v: Seq<BaseMaterialsGroup>) -> Seq<(u32, Seq<(Seq<char>, crate::model::materials::Color)>)> {
    v.map_values(|g: BaseMaterialsGroup| (g.id.0, bases_view(g.materials@)))
}

/// Color groups as values.
pub open spec fn color_groups_view(v: Seq<ColorGroup>) -> Seq<(u32, Seq<crate::model::materials::Color>)> {
    v.map_values(|g: ColorGroup| (g.id.0, g.colors@))
}

/// Slice stacks as values.
pub open spec fn slice_stacks_view(v: Seq<SliceStack>) -> Seq<(u32, u32, Seq<SliceView>, Seq<SliceRefView>)> {
    v.map_values(|s: SliceStack| (s.id.0, s.z_bottom, slices_view(s.slices@), slice_refs_view(s.refs@)))
}

/// Volumetric stacks as values.
pub open spec fn volumetric_stacks_view(v: Seq<VolumetricStack>) -> Seq<(u32, Seq<char>, Seq<(u32, Seq<char>)>, Seq<(u32, Seq<char>)>)> {
    v.map_values(|s: VolumetricStack| (s.id.0, s.version@, layers_view(s.layers@), volumetric_refs_view(s.refs@)))
}

/// Texture coordinate groups as values.
pub open spec fn texture_groups_view(v: Seq<Texture2DGroup>) -> Seq<(u32, u32, Seq<crate::model::materials::Texture2DCoord>)> {
    v.map_values(|g: Texture2DGroup| (g.id.0, g.texture_id.0, g.coords@))
}

/// Composite material groups as values.
pub open spec fn composite_groups_view(v: Seq<CompositeMaterials>) -> Seq<(u32, u32, Seq<u32>, Seq<Seq<u32>>)> {
    v.map_values(|g: CompositeMaterials| (g.id.0, g.base_material_id.0, g.indices@, composites_view(g.composites@)))
}

/// Resource IDs as numbers.
pub open spec fn id_numbers(v: Seq<ResourceId>) -> Seq<u32> {
    v.map_values(|r: ResourceId| r.0)
}

/// Multi-property groups as values.
pub open spec fn multi_groups_view(v: Seq<MultiProperties>) -> Seq<(u32, Seq<u32>, Seq<BlendMethod>, Seq<Seq<u32>>)> {
    v.map_values(|g: MultiProperties| (g.id.0, id_numbers(g.pids@), g.blend_methods@, multis_view(g.multis@)))
}

/// Displacement textures as values.
pub open spec fn displacement_textures_view(v: Seq<Displacement2D>) -> Seq<(u32, Seq<char>, Channel, TileStyle, FilterMode, u32, u32)> {
    v.map_values(|d: Displacement2D| (d.id.0, d.path@, d.channel, d.tile_style, d.filter, d.height, d.offset))
}

/// Whether a resource collection holds the resources `r` describes, and uses the IDs it
/// lists.
pub open spec fn resources_match(rc: ResourceCollection, r: ResourcesView) -> bool {
    &&& forall|k: u32| rc.spec_exists(k) <==> #[trigger] r.0.contains(k)
    &&& objects_view(rc.objects()) == r.1
    &&& base_groups_view(rc.base_materials()) == r.2
    &&& color_groups_view(rc.color_groups()) == r.3
    &&& slice_stacks_view(rc.slice_stacks()) == r.4
    &&& volumetric_stacks_view(rc.volumetric_stacks()) == r.5
    &&& texture_groups_view(rc.texture_2d_groups()) == r.6
    &&& composite_groups_view(rc.composite_materials()) == r.7
    &&& multi_groups_view(rc.multi_properties()) == r.8
    &&& displacement_textures_view(rc.displacement_2d()) == r.9
}

/// A sequence with one more element has an ID exactly when the shorter one has it or the
/// new element bears it.
proof fn lemma_has_id_push<T: Identified>(s: Seq<T>, x: T, k: u32)
    ensures
        has_id(s.push(x), k) <==> (has_id(s, k) || x.rid() == k),
{
    if has_id(s, k) {
        let i = choose|i: int| 0 <= i < s.len() && (#[trigger] s[i]).rid() == k;
        assert(s.push(x)[i] == s[i]);
    }
    if x.rid() == k {
        assert(s.push(x)[s.len() as int] == x);
    }
    if has_id(s.push(x), k) {
        let i = choose|i: int| 0 <= i < s.push(x).len() && (#[trigger] s.push(x)[i]).rid() == k;
        if i < s.len() {
            assert(s[i] == s.push(x)[i]);
        }
    }
}

/// Pushing a resource of ID `id` adds `id` to those in use.
proof fn lemma_exists_after(before: ResourceCollection, after: ResourceCollection, ids: Seq<u32>, id: u32)
    requires
        forall|k: u32| before.spec_exists(k) <==> #[trigger] ids.contains(k),
        forall|k: u32| after.spec_exists(k) <==> (before.spec_exists(k) || k == id),
    ensures
        forall|k: u32| after.spec_exists(k) <==> #[trigger] ids.push(id).contains(k),
{
    assert forall|k: u32| after.spec_exists(k) <==> #[trigger] ids.push(id).contains(k) by {
        if ids.push(id).contains(k) {
            let i = choose|i: int| 0 <= i < ids.push(id).len() && ids.push(id)[i] == k;
            if i < ids.len() {
                assert(ids[i] == k);
                assert(ids.contains(k));
            }
        }
        if ids.contains(k) {
            let i = choose|i: int| 0 <= i < ids.len() && ids[i] == k;
            assert(ids.push(id)[i] == k);
        }
        if k == id {
            assert(ids.push(id)[ids.len() as int] == id);
        }
    }
}

fn to_resource_ids(v: &Vec<u32>) -> (r: Vec<ResourceId>)
    ensures
        id_numbers(r@) == v@,
{
    let mut out: Vec<ResourceId> = Vec::new();
    let mut i: usize = 0;
    while i < v.len()
        invariant
            i <= v@.len(),
            id_numbers(out@) == v@.take(i as int),
        decreases v@.len() - i,
    {
        let ghost before = out@;
        out.push(ResourceId(v[i]));
        proof {
            assert(id_numbers(out@) =~= id_numbers(before).push(v@[i as int]));
            assert(v@.take(i + 1) =~= v@.take(i as int).push(v@[i as int]));
        }
        i = i + 1;
    }
    proof {
        assert(v@.take(i as int) =~= v@);
    }
    out
}

/// The blend methods of a `blendmethods` attribute, as [`blend_methods_of`] describes.
fn parse_blend_methods(s: &str) -> (r: Result<Vec<BlendMethod>, Lib3mfError>)
    ensures
        match blend_methods_of(words(s@)) {
            Ok(v) => r matches Ok(x) && x@ == v,
            Err(m) => r matches Err(Lib3mfError::Validation(x)) && x@ == m,
        },
{
    let parts = split_words(s);
    let ghost ws = words(s@);
    proof {
        assert forall|k: int| 0 <= k < ws.len() implies ws[k] == #[trigger] parts@[k]@ by {
            assert(parts@.map_values(|w: String| w@)[k] == parts@[k]@);
        }
        assert(ws.take(0) =~= Seq::<Seq<char>>::empty());
    }
    let mut out: Vec<BlendMethod> = Vec::new();
    let mut i: usize = 0;
    while i < parts.len()
        invariant
            ws == words(s@),
            ws.len() == parts@.len(),
            forall|k: int| 0 <= k < ws.len() ==> ws[k] == #[trigger] parts@[k]@,
            i <= parts@.len(),
            blend_methods_of(ws.take(i as int)) == Ok::<Seq<BlendMethod>, Seq<char>>(out@),
        decreases parts@.len() - i,
    {
        proof {
            assert(ws.take(i + 1).drop_last() =~= ws.take(i as int));
            assert(ws.take(i + 1).last() == parts@[i as int]@);
        }
        if same_text(parts[i].as_str(), "mix") {
            out.push(BlendMethod::Mix);
        } else if same_text(parts[i].as_str(), "multiply") {
            out.push(BlendMethod::Multiply);
        } else {
            proof {
                lemma_blend_error_sticks(ws, i + 1);
            }
            return Err(Lib3mfError::Validation(String::from_str("Invalid blend method: ").concat(parts[i].as_str())));
        }
        i = i + 1;
    }
    proof {
        assert(ws.take(i as int) =~= ws);
    }
    Ok(out)
}

proof fn lemma_blend_error_sticks(ws: Seq<Seq<char>>, k: int)
    requires
        0 <= k <= ws.len(),
        blend_methods_of(ws.take(k)) is Err,
    ensures
        blend_methods_of(ws) == blend_methods_of(ws.take(k)),
    decreases ws.len() - k,
{
    if k < ws.len() {
        assert(ws.take(k + 1).drop_last() =~= ws.take(k));
        lemma_blend_error_sticks(ws, k + 1);
    } else {
        assert(ws.take(k) =~= ws);
    }
}

fn read_base_materials(parser: &mut XmlParser, tag: &XmlTag, resources: &mut ResourceCollection, Ghost(r): Ghost<ResourcesView>) -> (res: Result<(), Lib3mfError>)
    requires
        old(parser).wf(),
        resources_match(*old(resources), r),
    ensures
        moved_on(*old(parser), *final(parser)),
        res is Ok ==> old(parser).pos < final(parser).pos,
        match base_materials_element(old(parser).events_of(), old(parser).error_of(), old(parser).pos as int, r, attrs_view(tag.attrs@)) {
            Ok((r2, p)) => res is Ok && resources_match(*final(resources), r2) && final(parser).pos == p,
            Err(m) => res matches Err(Lib3mfError::Validation(x)) && x@ == m,
        },
{
    let id = match get_attribute_u32(tag, "id") {
        Ok(v) => v,
        Err(e) => return Err(e),
    };
    let group = match parse_base_materials(parser, ResourceId(id)) {
        Ok(g) => g,
        Err(e) => return Err(e),
    };
    let ghost before = *resources;
    let ghost item = group;
    match resources.add_base_materials(group) {
        Ok(()) => {},
        Err(e) => return Err(e),
    }
    proof {
        assert forall|k: u32| resources.spec_exists(k) <==> (before.spec_exists(k) || k == id) by {
            lemma_has_id_push(before.base_materials(), item, k);
        }
        lemma_exists_after(before, *resources, r.0, id);
        assert(base_groups_view(resources.base_materials()) =~= base_groups_view(before.base_materials()).push((id, bases_view(item.materials@))));
    }
    Ok(())
}

fn read_color_group(parser: &mut XmlParser, tag: &XmlTag, resources: &mut ResourceCollection, Ghost(r): Ghost<ResourcesView>) -> (res: Result<(), Lib3mfError>)
    requires
        old(parser).wf(),
        resources_match(*old(resources), r),
    ensures
        moved_on(*old(parser), *final(parser)),
        res is Ok ==> old(parser).pos < final(parser).pos,
        match color_group_element(old(parser).events_of(), old(parser).error_of(), old(parser).pos as int, r, attrs_view(tag.attrs@)) {
            Ok((r2, p)) => res is Ok && resources_match(*final(resources), r2) && final(parser).pos == p,
            Err(m) => res matches Err(Lib3mfError::Validation(x)) && x@ == m,
        },
{
    let id = match get_attribute_u32(tag, "id") {
        Ok(v) => v,
        Err(e) => return Err(e),
    };
    let group = match parse_color_group(parser, ResourceId(id)) {
        Ok(g) => g,
        Err(e) => return Err(e),
    };
    let ghost before = *resources;
    let ghost item = group;
    match resources.add_color_group(group) {
        Ok(()) => {},
        Err(e) => return Err(e),
    }
    proof {
        assert forall|k: u32| resources.spec_exists(k) <==> (before.spec_exists(k) || k == id) by {
            lemma_has_id_push(before.color_groups(), item, k);
        }
        lemma_exists_after(before, *resources, r.0, id);
        assert(color_groups_view(resources.color_groups()) =~= color_groups_view(before.color_groups()).push((id, item.colors@)));
    }
    Ok(())
}

fn read_texture_group(parser: &mut XmlParser, tag: &XmlTag, resources: &mut ResourceCollection, Ghost(r): Ghost<ResourcesView>, numbers: &NumberTable) -> (res: Result<(), Lib3mfError>)
    requires
        old(parser).wf(),
        resources_match(*old(resources), r),
    ensures
        moved_on(*old(parser), *final(parser)),
        res is Ok ==> old(parser).pos < final(parser).pos,
        match texture_group_element(old(parser).events_of(), old(parser).error_of(), old(parser).pos as int, numbers_view(*numbers), r, attrs_view(tag.attrs@)) {
            Ok((r2, p)) => res is Ok && resources_match(*final(resources), r2) && final(parser).pos == p,
            Err(m) => res matches Err(Lib3mfError::Validation(x)) && x@ == m,
        },
{
    let id = match get_attribute_u32(tag, "id") {
        Ok(v) => v,
        Err(e) => return Err(e),
    };
    let tex = match get_attribute_u32(tag, "texid") {
        Ok(v) => v,
        Err(e) => return Err(e),
    };
    let group = match parse_texture_2d_group(parser, ResourceId(id), ResourceId(tex), numbers) {
        Ok(g) => g,
        Err(e) => return Err(e),
    };
    let ghost before = *resources;
    let ghost item = group;
    match resources.add_texture_2d_group(group) {
        Ok(()) => {},
        Err(e) => return Err(e),
    }
    proof {
        assert forall|k: u32| resources.spec_exists(k) <==> (before.spec_exists(k) || k == id) by {
            lemma_has_id_push(before.texture_2d_groups(), item, k);
        }
        lemma_exists_after(before, *resources, r.0, id);
        assert(texture_groups_view(resources.texture_2d_groups()) =~= texture_groups_view(before.texture_2d_groups()).push((id, tex, item.coords@)));
    }
    Ok(())
}

fn read_composite(parser: &mut XmlParser, tag: &XmlTag, resources: &mut ResourceCollection, Ghost(r): Ghost<ResourcesView>, numbers: &NumberTable) -> (res: Result<(), Lib3mfError>)
    requires
        old(parser).wf(),
        resources_match(*old(resources), r),
    ensures
        moved_on(*old(parser), *final(parser)),
        res is Ok ==> old(parser).pos < final(parser).pos,
        match composite_element(old(parser).events_of(), old(parser).error_of(), old(parser).pos as int, numbers_view(*numbers), r, attrs_view(tag.attrs@)) {
            Ok((r2, p)) => res is Ok && resources_match(*final(resources), r2) && final(parser).pos == p,
            Err(m) => res matches Err(Lib3mfError::Validation(x)) && x@ == m,
        },
{
    let id = match get_attribute_u32(tag, "id") {
        Ok(v) => v,
        Err(e) => return Err(e),
    };
    let mat = match get_attribute_u32(tag, "matid") {
        Ok(v) => v,
        Err(e) => return Err(e),
    };
    let text = match get_attribute(tag, "matindices") {
        Some(s) => s,
        None => return Err(Lib3mfError::Validation(String::from_str("compositematerials missing matindices"))),
    };
    let indices = match parse_word_u32s(text.as_str()) {
        Some(v) => v,
        None => return Err(Lib3mfError::Validation(String::from_str("Invalid matindices value"))),
    };
    let group = match parse_composite_materials(parser, ResourceId(id), ResourceId(mat), indices, numbers) {
        Ok(g) => g,
        Err(e) => return Err(e),
    };
    let ghost before = *resources;
    let ghost item = group;
    match resources.add_composite_materials(group) {
        Ok(()) => {},
        Err(e) => return Err(e),
    }
    proof {
        assert forall|k: u32| resources.spec_exists(k) <==> (before.spec_exists(k) || k == id) by {
            lemma_has_id_push(before.composite_materials(), item, k);
        }
        lemma_exists_after(before, *resources, r.0, id);
        assert(composite_groups_view(resources.composite_materials()) =~= composite_groups_view(before.composite_materials()).push((id, mat, item.indices@, composites_view(item.composites@))));
    }
    Ok(())
}

fn read_multi(parser: &mut XmlParser, tag: &XmlTag, resources: &mut ResourceCollection, Ghost(r): Ghost<ResourcesView>) -> (res: Result<(), Lib3mfError>)
    requires
        old(parser).wf(),
        resources_match(*old(resources), r),
    ensures
        moved_on(*old(parser), *final(parser)),
        res is Ok ==> old(parser).pos < final(parser).pos,
        match multi_element(old(parser).events_of(), old(parser).error_of(), old(parser).pos as int, r, attrs_view(tag.attrs@)) {
            Ok((r2, p)) => res is Ok && resources_match(*final(resources), r2) && final(parser).pos == p,
            Err(m) => res matches Err(Lib3mfError::Validation(x)) && x@ == m,
        },
{
    let id = match get_attribute_u32(tag, "id") {
        Ok(v) => v,
        Err(e) => return Err(e),
    };
    let ps = match get_attribute(tag, "pids") {
        Some(s) => s,
        None => return Err(Lib3mfError::Validation(String::from_str("multiproperties missing pids"))),
    };
    let numbers_read = match parse_word_u32s(ps.as_str()) {
        Some(v) => v,
        None => return Err(Lib3mfError::Validation(String::from_str("Invalid pid value"))),
    };
    let bs = match get_attribute(tag, "blendmethods") {
        Some(s) => s,
        None => return Err(Lib3mfError::Validation(String::from_str("multiproperties missing blendmethods"))),
    };
    let blends = match parse_blend_methods(bs.as_str()) {
        Ok(v) => v,
        Err(e) => return Err(e),
    };
    let pids = to_resource_ids(&numbers_read);
    let group = match parse_multi_properties(parser, ResourceId(id), pids, blends) {
        Ok(g) => g,
        Err(e) => return Err(e),
    };
    let ghost before = *resources;
    let ghost item = group;
    match resources.add_multi_properties(group) {
        Ok(()) => {},
        Err(e) => return Err(e),
    }
    proof {
        assert forall|k: u32| resources.spec_exists(k) <==> (before.spec_exists(k) || k == id) by {
            lemma_has_id_push(before.multi_properties(), item, k);
        }
        lemma_exists_after(before, *resources, r.0, id);
        assert(multi_groups_view(resources.multi_properties()) =~= multi_groups_view(before.multi_properties()).push((id, id_numbers(item.pids@), item.blend_methods@, multis_view(item.multis@))));
    }
    Ok(())
}

fn read_slice_stack(parser: &mut XmlParser, tag: &XmlTag, resources: &mut ResourceCollection, Ghost(r): Ghost<ResourcesView>, numbers: &NumberTable) -> (res: Result<(), Lib3mfError>)
    requires
        old(parser).wf(),
        resources_match(*old(resources), r),
    ensures
        moved_on(*old(parser), *final(parser)),
        res is Ok ==> old(parser).pos < final(parser).pos,
        match slice_stack_element(old(parser).events_of(), old(parser).error_of(), old(parser).pos as int, numbers_view(*numbers), r, attrs_view(tag.attrs@)) {
            Ok((r2, p)) => res is Ok && resources_match(*final(resources), r2) && final(parser).pos == p,
            Err(m) => res matches Err(Lib3mfError::Validation(x)) && x@ == m,
        },
{
    let id = match get_attribute_u32(tag, "id") {
        Ok(v) => v,
        Err(e) => return Err(e),
    };
    let z_bottom = match get_attribute_f32(tag, "zbottom", numbers) {
        Ok(z) => z,
        Err(_) => 0,
    };
    let stack = match parse_slice_stack_content(parser, ResourceId(id), z_bottom, numbers) {
        Ok(g) => g,
        Err(e) => return Err(e),
    };
    let ghost before = *resources;
    let ghost item = stack;
    match resources.add_slice_stack(stack) {
        Ok(()) => {},
        Err(e) => return Err(e),
    }
    proof {
        assert forall|k: u32| resources.spec_exists(k) <==> (before.spec_exists(k) || k == id) by {
            lemma_has_id_push(before.slice_stacks(), item, k);
        }
        lemma_exists_after(before, *resources, r.0, id);
        assert(slice_stacks_view(resources.slice_stacks()) =~= slice_stacks_view(before.slice_stacks()).push((id, item.z_bottom, slices_view(item.slices@), slice_refs_view(item.refs@))));
    }
    Ok(())
}

fn read_volumetric_stack(parser: &mut XmlParser, tag: &XmlTag, resources: &mut ResourceCollection, Ghost(r): Ghost<ResourcesView>, numbers: &NumberTable) -> (res: Result<(), Lib3mfError>)
    requires
        old(parser).wf(),
        resources_match(*old(resources), r),
    ensures
        moved_on(*old(parser), *final(parser)),
        res is Ok ==> old(parser).pos < final(parser).pos,
        match volumetric_element(old(parser).events_of(), old(parser).error_of(), old(parser).pos as int, numbers_view(*numbers), r, attrs_view(tag.attrs@)) {
            Ok((r2, p)) => res is Ok && resources_match(*final(resources), r2) && final(parser).pos == p,
            Err(m) => res matches Err(Lib3mfError::Validation(x)) && x@ == m,
        },
{
    let id = match get_attribute_u32(tag, "id") {
        Ok(v) => v,
        Err(e) => return Err(e),
    };
    let stack = match parse_volumetric_stack_content(parser, ResourceId(id), numbers) {
        Ok(g) => g,
        Err(e) => return Err(e),
    };
    let ghost before = *resources;
    let ghost item = stack;
    match resources.add_volumetric_stack(stack) {
        Ok(()) => {},
        Err(e) => return Err(e),
    }
    proof {
        assert forall|k: u32| resources.spec_exists(k) <==> (before.spec_exists(k) || k == id) by {
            lemma_has_id_push(before.volumetric_stacks(), item, k);
        }
        lemma_exists_after(before, *resources, r.0, id);
        assert(volumetric_stacks_view(resources.volumetric_stacks()) =~= volumetric_stacks_view(before.volumetric_stacks()).push((id, item.version@, layers_view(item.layers@), volumetric_refs_view(item.refs@))));
    }
    Ok(())
}

fn read_object(parser: &mut XmlParser, tag: &XmlTag, resources: &mut ResourceCollection, Ghost(r): Ghost<ResourcesView>, numbers: &NumberTable) -> (res: Result<(), Lib3mfError>)
    requires
        old(parser).wf(),
        resources_match(*old(resources), r),
    ensures
        moved_on(*old(parser), *final(parser)),
        res is Ok ==> old(parser).pos < final(parser).pos,
        match object_element(old(parser).events_of(), old(parser).error_of(), old(parser).pos as int, numbers_view(*numbers), r, attrs_view(tag.attrs@)) {
            Ok((r2, p)) => res is Ok && resources_match(*final(resources), r2) && final(parser).pos == p,
            Err(m) => res matches Err(Lib3mfError::Validation(x)) && x@ == m,
        },
{
    let id = match get_attribute_u32(tag, "id") {
        Ok(v) => v,
        Err(e) => return Err(e),
    };
    let name = get_attribute(tag, "name");
    let part_number = get_attribute(tag, "partnumber");
    let pid = match u32_ok(tag, "pid") {
        Some(p) => Some(ResourceId(p)),
        None => None,
    };
    let pindex = u32_ok(tag, "pindex");
    let uuid = match get_attribute_uuid(tag) {
        Ok(u) => u,
        Err(e) => return Err(e),
    };
    let slice_stack_id = match u32_ok(tag, "slicestackid") {
        Some(v) => Some(v),
        None => u32_ok(tag, "s:slicestackid"),
    };
    let vol_stack_id = match u32_ok(tag, "volumetricstackid") {
        Some(v) => Some(v),
        None => u32_ok(tag, "v:volumetricstackid"),
    };
    let object_type = match get_attribute(tag, "type") {
        Some(t) => if same_text(t.as_str(), "support") {
            ObjectType::Support
        } else if same_text(t.as_str(), "solidsupport") {
            ObjectType::SolidSupport
        } else if same_text(t.as_str(), "surface") {
            ObjectType::Surface
        } else if same_text(t.as_str(), "other") {
            ObjectType::Other
        } else {
            ObjectType::Model
        },
        None => ObjectType::Model,
    };
    let thumbnail = get_attribute(tag, "thumbnail");
    let content = match parse_object_geometry(parser, numbers) {
        Ok(g) => g,
        Err(e) => return Err(e),
    };
    let geometry = match slice_stack_id {
        Some(ss) => Geometry::SliceStack(ResourceId(ss)),
        None => match vol_stack_id {
            Some(vs) => Geometry::VolumetricStack(ResourceId(vs)),
            None => content,
        },
    };
    let object = Object { id: ResourceId(id), object_type, name, part_number, uuid, pid, pindex, thumbnail, geometry };
    let ghost before = *resources;
    let ghost item = object;
    match resources.add_object(object) {
        Ok(()) => {},
        Err(e) => return Err(e),
    }
    proof {
        assert forall|k: u32| resources.spec_exists(k) <==> (before.spec_exists(k) || k == id) by {
            lemma_has_id_push(before.objects(), item, k);
        }
        lemma_exists_after(before, *resources, r.0, id);
        assert(objects_view(resources.objects()) =~= objects_view(before.objects()).push(object_view(item)));
    }
    Ok(())
}

fn read_boolean_shape(parser: &mut XmlParser, tag: &XmlTag, resources: &mut ResourceCollection, Ghost(r): Ghost<ResourcesView>, numbers: &NumberTable) -> (res: Result<(), Lib3mfError>)
    requires
        old(parser).wf(),
        resources_match(*old(resources), r),
    ensures
        moved_on(*old(parser), *final(parser)),
        res is Ok ==> old(parser).pos < final(parser).pos,
        match boolean_element(old(parser).events_of(), old(parser).error_of(), old(parser).pos as int, numbers_view(*numbers), r, attrs_view(tag.attrs@)) {
            Ok((r2, p)) => res is Ok && resources_match(*final(resources), r2) && final(parser).pos == p,
            Err(m) => res matches Err(Lib3mfError::Validation(x)) && x@ == m,
        },
{
    let id = match get_attribute_u32(tag, "id") {
        Ok(v) => v,
        Err(e) => return Err(e),
    };
    let base = match get_attribute_u32(tag, "objectid") {
        Ok(v) => v,
        Err(e) => return Err(e),
    };
    let base_transform = match read_optional_transform(tag, numbers) {
        Ok(t) => t,
        Err(e) => return Err(e),
    };
    let base_path = read_path(tag);
    let shape = match parse_boolean_shape(parser, ResourceId(base), base_transform, base_path, numbers) {
        Ok(b) => b,
        Err(e) => return Err(e),
    };
    let object = Object {
        id: ResourceId(id),
        object_type: ObjectType::Model,
        name: None,
        part_number: None,
        uuid: None,
        pid: None,
        pindex: None,
        thumbnail: None,
        geometry: Geometry::BooleanShape(shape),
    };
    let ghost before = *resources;
    let ghost item = object;
    match resources.add_object(object) {
        Ok(()) => {},
        Err(e) => return Err(e),
    }
    proof {
        assert forall|k: u32| resources.spec_exists(k) <==> (before.spec_exists(k) || k == id) by {
            lemma_has_id_push(before.objects(), item, k);
        }
        lemma_exists_after(before, *resources, r.0, id);
        assert(objects_view(resources.objects()) =~= objects_view(before.objects()).push(object_view(item)));
    }
    Ok(())
}

fn read_displacement_texture(parser: &mut XmlParser, tag: &XmlTag, resources: &mut ResourceCollection, Ghost(r): Ghost<ResourcesView>, numbers: &NumberTable) -> (res: Result<(), Lib3mfError>)
    requires
        old(parser).wf(),
        resources_match(*old(resources), r),
    ensures
        moved_on(*old(parser), *final(parser)),
        res is Ok ==> old(parser).pos < final(parser).pos,
        match displacement_texture_element(old(parser).events_of(), old(parser).error_of(), old(parser).pos as int, numbers_view(*numbers), r, attrs_view(tag.attrs@)) {
            Ok((r2, p)) => res is Ok && resources_match(*final(resources), r2) && final(parser).pos == p,
            Err(m) => res matches Err(Lib3mfError::Validation(x)) && x@ == m,
        },
{
    let id = match get_attribute_u32(tag, "id") {
        Ok(v) => v,
        Err(e) => return Err(e),
    };
    let path = match get_attribute(tag, "path") {
        Some(p) => p,
        None => return Err(Lib3mfError::Validation(String::from_str("displacement2d missing path attribute"))),
    };
    let channel = match get_attribute(tag, "channel") {
        Some(c) => if same_text(c.as_str(), "R") {
            Channel::R
        } else if same_text(c.as_str(), "B") {
            Channel::B
        } else if same_text(c.as_str(), "A") {
            Channel::A
        } else {
            Channel::G
        },
        None => Channel::G,
    };
    let tile_style = match get_attribute(tag, "tilestyle") {
        Some(ts) => {
            let l = to_lowercase(ts.as_str());
            if same_text(l.as_str(), "mirror") {
                TileStyle::Mirror
            } else if same_text(l.as_str(), "clamp") {
                TileStyle::Clamp
            } else if same_text(l.as_str(), "none") {
                TileStyle::NoTiling
            } else {
                TileStyle::Wrap
            }
        },
        None => TileStyle::Wrap,
    };
    let filter = match get_attribute(tag, "filter") {
        Some(f) => {
            let l = to_lowercase(f.as_str());
            if same_text(l.as_str(), "nearest") {
                FilterMode::Nearest
            } else {
                FilterMode::Linear
            }
        },
        None => FilterMode::Linear,
    };
    let height = match get_attribute_f32(tag, "height", numbers) {
        Ok(h) => h,
        Err(e) => return Err(e),
    };
    let offset = match get_attribute_f32(tag, "offset", numbers) {
        Ok(o) => o,
        Err(_) => 0,
    };
    let texture = match parse_displacement_2d(parser, ResourceId(id), path, channel, tile_style, filter, height, offset) {
        Ok(d) => d,
        Err(e) => return Err(e),
    };
    let ghost before = *resources;
    let ghost item = texture;
    match resources.add_displacement_2d(texture) {
        Ok(()) => {},
        Err(e) => return Err(e),
    }
    proof {
        assert forall|k: u32| resources.spec_exists(k) <==> (before.spec_exists(k) || k == id) by {
            lemma_has_id_push(before.displacement_2d(), item, k);
        }
        lemma_exists_after(before, *resources, r.0, id);
        assert(displacement_textures_view(resources.displacement_2d()) =~= displacement_textures_view(before.displacement_2d()).push(
            (id, item.path@, item.channel, item.tile_style, item.filter, item.height, item.offset)));
    }
    Ok(())
}

fn parse_resources(parser: &mut XmlParser, resources: &mut ResourceCollection, Ghost(r0): Ghost<ResourcesView>, numbers: &NumberTable) -> (res: Result<(), Lib3mfError>)
    requires
        old(parser).wf(),
        resources_match(*old(resources), r0),
    ensures
        moved_on(*old(parser), *final(parser)),
        res is Ok ==> old(parser).pos < final(parser).pos,
        match resources_scan(old(parser).events_of(), old(parser).error_of(), old(parser).pos as int, numbers_view(*numbers), r0) {
            Ok((r, p)) => res is Ok && resources_match(*final(resources), r) && final(parser).pos == p,
            Err(m) => res matches Err(Lib3mfError::Validation(x)) && x@ == m,
        },
{
    let ghost evs = parser.events_of();
    let ghost err = parser.error_of();
    let ghost start = parser.pos as int;
    let ghost tv = numbers_view(*numbers);
    let ghost mut cur = r0;
    loop
        invariant
            moved_on(*old(parser), *parser),
            start == old(parser).pos,
            evs == parser.events_of(),
            err == parser.error_of(),
            tv == numbers_view(*numbers),
            start <= parser.pos,
            resources_match(*resources, cur),
            resources_scan(evs, err, start, tv, r0) == resources_scan(evs, err, parser.pos as int, tv, cur),
        decreases evs.len() - parser.pos,
    {
        let ev = match parser.read_next_event() {
            Ok(Some(e)) => e,
            Ok(None) => return Err(eof_error(parser, "Unexpected EOF in resources")),
            Err(e) => return Err(e),
        };
        let ghost q = parser.pos as int;
        match ev {
            XmlEvent::End(n) => {
                if same_text(n.as_str(), "resources") {
                    return Ok(());
                }
            },
            XmlEvent::Start(x) => {
                let ghost a = attrs_view(x.attrs@);
                let ln = local_name_of(x.name.as_str());
                if same_text(ln.as_str(), "object") {
                    match read_object(parser, &x, resources, Ghost(cur), numbers) {
                        Ok(()) => proof { cur = object_element(evs, err, q, tv, cur, a)->Ok_0.0; },
                        Err(e) => return Err(e),
                    }
                } else if same_text(ln.as_str(), "basematerials") {
                    match read_base_materials(parser, &x, resources, Ghost(cur)) {
                        Ok(()) => proof { cur = base_materials_element(evs, err, q, cur, a)->Ok_0.0; },
                        Err(e) => return Err(e),
                    }
                } else if same_text(ln.as_str(), "colorgroup") {
                    match read_color_group(parser, &x, resources, Ghost(cur)) {
                        Ok(()) => proof { cur = color_group_element(evs, err, q, cur, a)->Ok_0.0; },
                        Err(e) => return Err(e),
                    }
                } else if same_text(ln.as_str(), "texture2dgroup") {
                    match read_texture_group(parser, &x, resources, Ghost(cur), numbers) {
                        Ok(()) => proof { cur = texture_group_element(evs, err, q, tv, cur, a)->Ok_0.0; },
                        Err(e) => return Err(e),
                    }
                } else if same_text(ln.as_str(), "compositematerials") {
                    match read_composite(parser, &x, resources, Ghost(cur), numbers) {
                        Ok(()) => proof { cur = composite_element(evs, err, q, tv, cur, a)->Ok_0.0; },
                        Err(e) => return Err(e),
                    }
                } else if same_text(ln.as_str(), "multiproperties") {
                    match read_multi(parser, &x, resources, Ghost(cur)) {
                        Ok(()) => proof { cur = multi_element(evs, err, q, cur, a)->Ok_0.0; },
                        Err(e) => return Err(e),
                    }
                } else if same_text(ln.as_str(), "slicestack") {
                    match read_slice_stack(parser, &x, resources, Ghost(cur), numbers) {
                        Ok(()) => proof { cur = slice_stack_element(evs, err, q, tv, cur, a)->Ok_0.0; },
                        Err(e) => return Err(e),
                    }
                } else if same_text(ln.as_str(), "volumetricstack") {
                    match read_volumetric_stack(parser, &x, resources, Ghost(cur), numbers) {
                        Ok(()) => proof { cur = volumetric_element(evs, err, q, tv, cur, a)->Ok_0.0; },
                        Err(e) => return Err(e),
                    }
                } else if same_text(ln.as_str(), "booleanshape") {
                    match read_boolean_shape(parser, &x, resources, Ghost(cur), numbers) {
                        Ok(()) => proof { cur = boolean_element(evs, err, q, tv, cur, a)->Ok_0.0; },
                        Err(e) => return Err(e),
                    }
                } else if same_text(ln.as_str(), "displacement2d") {
                    match read_displacement_texture(parser, &x, resources, Ghost(cur), numbers) {
                        Ok(()) => proof { cur = displacement_texture_element(evs, err, q, tv, cur, a)->Ok_0.0; },
                        Err(e) => return Err(e),
                    }
                }
            },
            _ => {},
        }
    }
}

/// The unit a `unit` attribute names; millimeters for any other text.
pub open spec fn unit_of(u: Seq<char>) -> Unit {
    if u == "micron"@ {
        Unit::Micron
    } else if u == "centimeter"@ {
        Unit::Centimeter
    } else if u == "inch"@ {
        Unit::Inch
    } else if u == "foot"@ {
        Unit::Foot
    } else if u == "meter"@ {
        Unit::Meter
    } else {
        Unit::Millimeter
    }
}

/// A model as values: unit, language, metadata, resources, build items.
pub type ModelView = (Unit, Option<Seq<char>>, Map<Seq<char>, Seq<char>>, ResourcesView, Seq<ItemView>);

/// An empty model in millimeters.
pub open spec fn empty_model() -> ModelView {
    (Unit::Millimeter, None, Map::empty(), no_resources(), Seq::empty())
}

/// The model read from position `pos` on, starting from `m`: the `model` tag's unit and
/// language, `metadata` entries (a later one of a name replacing an earlier one),
/// `resources` and `build`; reading ends at the end of the model or of the document.
pub open spec fn model_scan(evs: Seq<EventView>, err: Option<Seq<char>>, pos: int, t: NumbersView, m: ModelView) -> Result<ModelView, Seq<char>>
    decreases evs.len() - pos,
{
    if pos < 0 || pos >= evs.len() {
        match err {
            Some(e) => Err(e),
            None => Ok(m),
        }
    } else {
        match evs[pos] {
            EventView::End(n) => if n == "model"@ {
                Ok(m)
            } else {
                model_scan(evs, err, pos + 1, t, m)
            },
            EventView::Start(x) => {
                let a = x.1;
                if x.0 == "model"@ {
                    let unit = match attr_text(a, "unit"@) {
                        Some(u) => unit_of(u),
                        None => m.0,
                    };
                    model_scan(evs, err, pos + 1, t, (unit, attr_text(a, "xml:lang"@), m.2, m.3, m.4))
                } else if x.0 == "metadata"@ {
                    match attr_text(a, "name"@) {
                        None => Err("Metadata missing name"@),
                        Some(name) => match text_content(evs, err, pos + 1, 0, Seq::empty()) {
                            Err(e) => Err(e),
                            Ok((c, p)) => if pos < p <= evs.len() {
                                model_scan(evs, err, p, t, (m.0, m.1, m.2.insert(name, c), m.3, m.4))
                            } else {
                                Err(Seq::empty())
                            },
                        },
                    }
                } else if x.0 == "resources"@ {
                    match resources_scan(evs, err, pos + 1, t, m.3) {
                        Err(e) => Err(e),
                        Ok((r, p)) => if pos < p <= evs.len() { model_scan(evs, err, p, t, (m.0, m.1, m.2, r, m.4)) } else { Err(Seq::empty()) },
                    }
                } else if x.0 == "build"@ {
                    match build_scan(evs, err, pos + 1, t, Seq::empty()) {
                        Err(e) => Err(e),
                        Ok((items, p)) => if pos < p <= evs.len() { model_scan(evs, err, p, t, (m.0, m.1, m.2, m.3, items)) } else { Err(Seq::empty()) },
                    }
                } else {
                    model_scan(evs, err, pos + 1, t, m)
                }
            },
            EventView::Empty(x) => if x.0 == "metadata"@ {
                match attr_text(x.1, "name"@) {
                    None => Err("Metadata missing name"@),
                    Some(name) => model_scan(evs, err, pos + 1, t, (m.0, m.1, m.2.insert(name, Seq::empty()), m.3, m.4)),
                }
            } else {
                model_scan(evs, err, pos + 1, t, m)
            },
            EventView::Text(_) | EventView::CData(_) => model_scan(evs, err, pos + 1, t, m),
        }
    }
}

/// Whether metadata pairs hold the entries of `md` (by name, first match).
pub open spec fn metadata_match(v: Seq<(String, String)>, md: Map<Seq<char>, Seq<char>>) -> bool {
    forall|k: Seq<char>| #![trigger lookup_value(v, k)] match lookup_value(v, k) {
        Some(x) => md.dom().contains(k) && md[k] == x@,
        None => !md.dom().contains(k),
    }
}

/// Whether a model is the one `m` describes (with no attachments or relationships).
pub open spec fn model_matches(model: Model, m: ModelView) -> bool {
    &&& model.unit == m.0
    &&& opt_view(model.language) == m.1
    &&& metadata_match(model.metadata@, m.2)
    &&& resources_match(model.resources, m.3)
    &&& items_view(model.build.items@) == m.4
    &&& model.attachments@.len() == 0
    &&& model.existing_relationships@.len() == 0
}

/// The model a document describes, as [`model_scan`] gives it from its events.
pub open spec fn model_of(data: Seq<u8>, t: NumbersView) -> Result<ModelView, Seq<char>> {
    let (evs, err) = crate::parser::xml_parser::xml_events(data, true);
    model_scan(evs, err, 0, t, empty_model())
}

/// Reads a model part (XML): the model's unit and language, its metadata, resources and
/// build. Numbers are read through `numbers`, which gives what the caller's number
/// readers make of each text. A read error of the document, or a malformed or missing
/// required value, is a validation error.
pub fn parse_model(data: &[u8], numbers: &NumberTable) -> (r: Result<Model, Lib3mfError>)
    ensures
        match model_of(data@, numbers_view(*numbers)) {
            Ok(m) => r matches Ok(x) && model_matches(x, m),
            Err(e) => r matches Err(Lib3mfError::Validation(x)) && x@ == e,
        },
{
    let mut parser = XmlParser::new(data);
    let ghost evs = parser.events_of();
    let ghost err = parser.error_of();
    let ghost tv = numbers_view(*numbers);
    let mut model = Model {
        unit: Unit::Millimeter,
        language: None,
        metadata: Vec::new(),
        resources: ResourceCollection::new(),
        build: Build { items: Vec::new() },
        attachments: Vec::new(),
        existing_relationships: Vec::new(),
    };
    let ghost mut cur = empty_model();
    proof {
        assert(objects_view(model.resources.objects()) =~= Seq::<ObjectView>::empty());
        assert(base_groups_view(model.resources.base_materials()) =~= Seq::empty());
        assert(color_groups_view(model.resources.color_groups()) =~= Seq::empty());
        assert(slice_stacks_view(model.resources.slice_stacks()) =~= Seq::empty());
        assert(volumetric_stacks_view(model.resources.volumetric_stacks()) =~= Seq::empty());
        assert(texture_groups_view(model.resources.texture_2d_groups()) =~= Seq::empty());
        assert(composite_groups_view(model.resources.composite_materials()) =~= Seq::empty());
        assert(multi_groups_view(model.resources.multi_properties()) =~= Seq::empty());
        assert(displacement_textures_view(model.resources.displacement_2d()) =~= Seq::empty());
        assert(items_view(model.build.items@) =~= Seq::<ItemView>::empty());
        assert(model_matches(model, cur));
    }
    loop
        invariant
            parser.wf(),
            evs == parser.events_of(),
            err == parser.error_of(),
            tv == numbers_view(*numbers),
            (evs, err) == crate::parser::xml_parser::xml_events(data@, true),
            model_matches(model, cur),
            model_scan(evs, err, 0, tv, empty_model()) == model_scan(evs, err, parser.pos as int, tv, cur),
        decreases evs.len() - parser.pos,
    {
        let ev = match parser.read_next_event() {
            Ok(Some(e)) => e,
            Ok(None) => return Ok(model),
            Err(e) => return Err(e),
        };
        let ghost q = parser.pos as int;
        match ev {
            XmlEvent::End(n) => {
                if same_text(n.as_str(), "model") {
                    return Ok(model);
                }
            },
            XmlEvent::Start(x) => {
                let ghost a = attrs_view(x.attrs@);
                if same_text(x.name.as_str(), "model") {
                    if let Some(u) = get_attribute(&x, "unit") {
                        model.unit = if same_text(u.as_str(), "micron") {
                            Unit::Micron
                        } else if same_text(u.as_str(), "centimeter") {
                            Unit::Centimeter
                        } else if same_text(u.as_str(), "inch") {
                            Unit::Inch
                        } else if same_text(u.as_str(), "foot") {
                            Unit::Foot
                        } else if same_text(u.as_str(), "meter") {
                            Unit::Meter
                        } else {
                            Unit::Millimeter
                        };
                    }
                    model.language = get_attribute(&x, "xml:lang");
                    proof {
                        cur = (model.unit, opt_view(model.language), cur.2, cur.3, cur.4);
                    }
                } else if same_text(x.name.as_str(), "metadata") {
                    let name = match get_attribute(&x, "name") {
                        Some(n) => n,
                        None => return Err(Lib3mfError::Validation(String::from_str("Metadata missing name"))),
                    };
                    let content = match parser.read_text_content() {
                        Ok(c) => c,
                        Err(e) => return Err(e),
                    };
                    let ghost nv = name@;
                    let ghost cv = content@;
                    model.insert_metadata(name, content);
                    proof {
                        cur = (cur.0, cur.1, cur.2.insert(nv, cv), cur.3, cur.4);
                    }
                } else if same_text(x.name.as_str(), "resources") {
                    match parse_resources(&mut parser, &mut model.resources, Ghost(cur.3), numbers) {
                        Ok(()) => proof {
                            cur = (cur.0, cur.1, cur.2, resources_scan(evs, err, q, tv, cur.3)->Ok_0.0, cur.4);
                        },
                        Err(e) => return Err(e),
                    }
                } else if same_text(x.name.as_str(), "build") {
                    match parse_build(&mut parser, numbers) {
                        Ok(b) => {
                            model.build = b;
                            proof {
                                cur = (cur.0, cur.1, cur.2, cur.3, build_scan(evs, err, q, tv, Seq::empty())->Ok_0.0);
                            }
                        },
                        Err(e) => return Err(e),
                    }
                }
            },
            XmlEvent::Empty(x) => {
                if same_text(x.name.as_str(), "metadata") {
                    let name = match get_attribute(&x, "name") {
                        Some(n) => n,
                        None => return Err(Lib3mfError::Validation(String::from_str("Metadata missing name"))),
                    };
                    let ghost nv = name@;
                    model.insert_metadata(name, String::new());
                    proof {
                        cur = (cur.0, cur.1, cur.2.insert(nv, Seq::empty()), cur.3, cur.4);
                    }
                }
            },
            XmlEvent::Text(_) | XmlEvent::CData(_) => {},
        }
    }
}

/// The 3MF name of a unit.
pub open spec fn unit_name(u: Unit) -> Seq<char> {
    match u {
        Unit::Micron => "micron"@,
        Unit::Millimeter => "millimeter"@,
        Unit::Centimeter => "centimeter"@,
        Unit::Inch => "inch"@,
        Unit::Foot => "foot"@,
        Unit::Meter => "meter"@,
    }
}

/// Each of the six 3MF unit names is read as its own unit, and a text read as a unit other
/// than the millimeter is that unit's name: only the name `millimeter` and unknown texts
/// give millimeters. The model reader and [`Unit::from_name`] read units alike.
pub proof fn law_unit_names(u: Unit, text: Seq<char>)
    ensures
        unit_of(unit_name(u)) == u,
        unit_of(text) == Unit::Millimeter || unit_name(unit_of(text)) == text,
        unit_of(text) == crate::model::units::unit_from_name_spec(text),
{
    reveal_strlit("micron");
    reveal_strlit("millimeter");
    reveal_strlit("centimeter");
    reveal_strlit("inch");
    reveal_strlit("foot");
    reveal_strlit("meter");
    assert("inch"@[0] != "foot"@[0]);
    assert("inch"@[0] != "micron"@[0]);
    assert("foot"@[0] != "micron"@[0]);
    assert("millimeter"@[0] != "centimeter"@[0]);
    assert("millimeter"@[2] != "micron"@[2]);
    assert("millimeter"@ != "micron"@);
    assert("millimeter"@ != "inch"@);
    assert("millimeter"@ != "foot"@);
    assert("millimeter"@[1] != "meter"@[1]);
    assert("millimeter"@ != "meter"@);
    assert("centimeter"@ != "micron"@);
    match u {
        Unit::Millimeter => assert(unit_of("millimeter"@) == Unit::Millimeter),
        _ => {},
    }
}

} // verus!
