//! Streaming reading of a model part: the parts of the model are handed to a
//! [`ModelVisitor`] as they are met, without building the model.

use vstd::prelude::*;
use crate::error::Lib3mfError;
use crate::model::build_section::BuildItem;
use crate::model::mesh::{Beam, CapMode, DisplacementTriangle, Transform, ONE_BITS};
use crate::model::resources::ResourceId;
use crate::parser::crypto_parser::moved_on;
use crate::parser::material_parser::{
    base_materials_scan, base_of, bases_view, color_of, colors_scan, items_scan, parse_base_materials, parse_color_group,
};
use crate::parser::visitor::{item_visit, ModelVisitor, Visit, VisitLog};
use crate::parser::xml_parser::{
    attr_f32, attr_f32_or, attr_text, attr_u32, attr_u32_ok, attrs_view, end_of, eof_message, event_view,
    get_attribute, get_attribute_f32, get_attribute_u32, lemma_end_of_advances, lemma_text_content_advances,
    local_name, local_name_of, numbers_view, tag_view, text_content, xml_events, AttrsView, EventView, NumberTable,
    NumbersView, TagView, XmlEvent, XmlParser, XmlTag,
};
use crate::text::same_text;

verus! {

/// The element whose content the reader is in.
#[derive(Debug, Clone, Copy, PartialEq, Eq)]
pub enum Ctx {
    /// The document, outside any element the reader follows.
    Top,
    /// `<resources>`.
    Resources,
    /// `<object>` with its ID.
    Object(u32),
    /// `<mesh>` of the object with this ID.
    Mesh(u32),
    /// `<vertices>` of a mesh.
    Vertices,
    /// `<triangles>` of a mesh.
    Triangles,
    /// `<beamlattice>` with its default radius.
    Lattice(u32),
    /// `<beams>` with the default radius of their lattice.
    Beams(u32),
    /// `<displacementmesh>`.
    DispMesh,
    /// `<vertices>` of a displacement mesh.
    DispVertices,
    /// `<triangles>` of a displacement mesh.
    DispTriangles,
    /// `<normvectors>` of a displacement mesh.
    DispNormals,
    /// `<build>`.
    Build,
}

/// What one event does to the reader.
pub enum Step {
    /// The callbacks it makes, the elements the reader is then in, and the next position.
    Go(Seq<Visit>, Seq<Ctx>, int),
    /// The callbacks it makes, and how the reading ends.
    Stop(Seq<Visit>, Result<(), Seq<char>>),
}

/// The message for running out of events inside an element.
pub open spec fn eof_text(c: Ctx) -> Seq<char> {
    match c {
        Ctx::Top => "Unexpected EOF"@,
        Ctx::Resources => "Unexpected EOF in resources"@,
        Ctx::Object(_) => "Unexpected EOF in object"@,
        Ctx::Mesh(_) => "Unexpected EOF in mesh"@,
        Ctx::Vertices => "Unexpected EOF in vertices"@,
        Ctx::Triangles => "Unexpected EOF in triangles"@,
        Ctx::Lattice(_) => "Unexpected EOF in beamlattice"@,
        Ctx::Beams(_) => "Unexpected EOF in beams"@,
        Ctx::DispMesh => "Unexpected EOF in displacementmesh"@,
        Ctx::DispVertices => "Unexpected EOF in displacement vertices"@,
        Ctx::DispTriangles => "Unexpected EOF in displacement triangles"@,
        Ctx::DispNormals => "Unexpected EOF in displacement normals"@,
        Ctx::Build => "Unexpected EOF in build"@,
    }
}

/// The tag of a start or empty-element event.
pub open spec fn tag_of(e: EventView) -> Option<TagView> {
    match e {
        EventView::Start(g) => Some(g),
        EventView::Empty(g) => Some(g),
        _ => None,
    }
}

/// Moving on to position `next` with nothing done.
pub open spec fn pass(stack: Seq<Ctx>, next: int) -> Step {
    Step::Go(Seq::empty(), stack, next)
}

/// Stopping with the message `m`.
pub open spec fn fail(m: Seq<char>) -> Step {
    Step::Stop(Seq::empty(), Err(m))
}

/// The entries of the identity transform.
pub open spec fn identity_entries() -> Seq<u32> {
    Seq::new(16, |i: int| if i % 5 == 0 { ONE_BITS } else { 0u32 })
}

/// The cap style a `cap` attribute names (spherical where it names none).
pub open spec fn cap_of(v: Option<Seq<char>>) -> CapMode {
    match v {
        Some(s) => if s == "hemisphere"@ {
            CapMode::Hemisphere
        } else if s == "butt"@ {
            CapMode::Butt
        } else {
            CapMode::Sphere
        },
        None => CapMode::Sphere,
    }
}

/// The three numbers of attributes `a`, `b`, `c`, or the message of the first that fails.
pub open spec fn three_numbers(at: AttrsView, a: Seq<char>, b: Seq<char>, c: Seq<char>, t: NumbersView) -> Result<(u32, u32, u32), Seq<char>> {
    match attr_f32(at, a, t) {
        Err(m) => Err(m),
        Ok(x) => match attr_f32(at, b, t) {
            Err(m) => Err(m),
            Ok(y) => match attr_f32(at, c, t) {
                Err(m) => Err(m),
                Ok(z) => Ok((x, y, z)),
            },
        },
    }
}

/// The three integers of attributes `v1`, `v2`, `v3`, or the message of the first that fails.
pub open spec fn three_indices(at: AttrsView) -> Result<(u32, u32, u32), Seq<char>> {
    match attr_u32(at, "v1"@) {
        Err(m) => Err(m),
        Ok(x) => match attr_u32(at, "v2"@) {
            Err(m) => Err(m),
            Ok(y) => match attr_u32(at, "v3"@) {
                Err(m) => Err(m),
                Ok(z) => Ok((x, y, z)),
            },
        },
    }
}

/// The beam a `<beam>` tag describes, with the default radius `r` of its lattice.
pub open spec fn beam_of(at: AttrsView, t: NumbersView, r: u32) -> Result<Beam, Seq<char>> {
    match attr_u32(at, "v1"@) {
        Err(m) => Err(m),
        Ok(v1) => match attr_u32(at, "v2"@) {
            Err(m) => Err(m),
            Ok(v2) => {
                let r1 = attr_f32_or(at, "r1"@, t, r);
                Ok(Beam {
                    v1,
                    v2,
                    r1,
                    r2: attr_f32_or(at, "r2"@, t, r1),
                    p1: attr_u32_ok(at, "p1"@),
                    p2: attr_u32_ok(at, "p2"@),
                    cap_mode: cap_of(attr_text(at, "cap"@)),
                })
            },
        },
    }
}

/// The triangle a `<triangle>` tag of a displacement mesh describes.
pub open spec fn disp_triangle_of(at: AttrsView) -> Result<DisplacementTriangle, Seq<char>> {
    match three_indices(at) {
        Err(m) => Err(m),
        Ok((v1, v2, v3)) => Ok(DisplacementTriangle {
            v1,
            v2,
            v3,
            d1: attr_u32_ok(at, "d1"@),
            d2: attr_u32_ok(at, "d2"@),
            d3: attr_u32_ok(at, "d3"@),
            p1: attr_u32_ok(at, "p1"@),
            p2: attr_u32_ok(at, "p2"@),
            p3: attr_u32_ok(at, "p3"@),
            pid: attr_u32_ok(at, "pid"@),
        }),
    }
}

/// The event `e` outside the elements the reader follows; `next` is the position after it.
pub open spec fn top_step(evs: Seq<EventView>, err: Option<Seq<char>>, stack: Seq<Ctx>, next: int, e: EventView) -> Step {
    match e {
        EventView::Start(g) => if g.0 == "metadata"@ {
            match attr_text(g.1, "name"@) {
                None => fail("Metadata missing name"@),
                Some(n) => match text_content(evs, err, next, 0, Seq::empty()) {
                    Err(m) => fail(m),
                    Ok((v, p)) => Step::Go(seq![Visit::Metadata(n, v)], stack, p),
                },
            }
        } else if g.0 == "resources"@ {
            Step::Go(seq![Visit::StartResources], stack.push(Ctx::Resources), next)
        } else if g.0 == "build"@ {
            Step::Go(seq![Visit::StartBuild], stack.push(Ctx::Build), next)
        } else {
            pass(stack, next)
        },
        EventView::Empty(g) => if g.0 == "metadata"@ {
            match attr_text(g.1, "name"@) {
                None => fail("Metadata missing name"@),
                Some(n) => Step::Go(seq![Visit::Metadata(n, Seq::empty())], stack, next),
            }
        } else {
            pass(stack, next)
        },
        EventView::End(n) => if n == "model"@ {
            Step::Stop(seq![Visit::EndModel], Ok(()))
        } else {
            pass(stack, next)
        },
        _ => pass(stack, next),
    }
}

/// The event `e` inside `<resources>`.
pub open spec fn resources_step(evs: Seq<EventView>, err: Option<Seq<char>>, stack: Seq<Ctx>, next: int, e: EventView) -> Step {
    match e {
        EventView::Start(g) => {
            let l = local_name(g.0);
            if l == "object"@ {
                match attr_u32(g.1, "id"@) {
                    Err(m) => fail(m),
                    Ok(id) => Step::Go(Seq::empty(), stack.push(Ctx::Object(id)), next),
                }
            } else if l == "basematerials"@ {
                match attr_u32(g.1, "id"@) {
                    Err(m) => fail(m),
                    Ok(id) => match base_materials_scan(evs, err, next) {
                        Err(m) => fail(m),
                        Ok((v, p)) => Step::Go(seq![Visit::BaseMaterials(id, v)], stack, p),
                    },
                }
            } else if l == "colorgroup"@ {
                match attr_u32(g.1, "id"@) {
                    Err(m) => fail(m),
                    Ok(id) => match colors_scan(evs, err, next) {
                        Err(m) => fail(m),
                        Ok((v, p)) => Step::Go(seq![Visit::ColorGroup(id, v)], stack, p),
                    },
                }
            } else {
                pass(stack, next)
            }
        },
        EventView::End(n) => if n == "resources"@ {
            Step::Go(seq![Visit::EndResources], stack.drop_last(), next)
        } else {
            pass(stack, next)
        },
        _ => pass(stack, next),
    }
}

/// The event `e` inside `<object>` with ID `id`.
pub open spec fn object_step(stack: Seq<Ctx>, next: int, id: u32, e: EventView) -> Step {
    match e {
        EventView::Start(g) => if local_name(g.0) == "mesh"@ {
            Step::Go(seq![Visit::StartMesh(id)], stack.push(Ctx::Mesh(id)), next)
        } else if local_name(g.0) == "displacementmesh"@ {
            Step::Go(seq![Visit::StartDisplacementMesh(id)], stack.push(Ctx::DispMesh), next)
        } else {
            pass(stack, next)
        },
        EventView::End(n) => if local_name(n) == "object"@ {
            pass(stack.drop_last(), next)
        } else {
            pass(stack, next)
        },
        _ => pass(stack, next),
    }
}

/// The event `e` inside the `<mesh>` of the object with ID `id`.
pub open spec fn mesh_step(t: NumbersView, stack: Seq<Ctx>, next: int, id: u32, e: EventView) -> Step {
    match e {
        EventView::Start(g) => if local_name(g.0) == "vertices"@ {
            pass(stack.push(Ctx::Vertices), next)
        } else if local_name(g.0) == "triangles"@ {
            pass(stack.push(Ctx::Triangles), next)
        } else if local_name(g.0) == "beamlattice"@ {
            Step::Go(seq![Visit::StartBeamLattice(id)], stack.push(Ctx::Lattice(attr_f32_or(g.1, "radius"@, t, 0))), next)
        } else {
            pass(stack, next)
        },
        EventView::End(n) => if local_name(n) == "mesh"@ {
            Step::Go(seq![Visit::EndMesh], stack.drop_last(), next)
        } else {
            pass(stack, next)
        },
        _ => pass(stack, next),
    }
}

/// The event `e` inside a list of `item` tags that ends with `end` (compared by local name
/// where `local` holds), where each item gives the callback `visit` makes of its attributes.
pub open spec fn list_step(stack: Seq<Ctx>, next: int, e: EventView, item: Seq<char>, end: Seq<char>, local: bool, visit: spec_fn(AttrsView) -> Result<Visit, Seq<char>>) -> Step {
    match e {
        EventView::End(n) => if (if local { local_name(n) } else { n }) == end {
            pass(stack.drop_last(), next)
        } else {
            pass(stack, next)
        },
        _ => match tag_of(e) {
            Some(g) => if (if local { local_name(g.0) } else { g.0 }) == item {
                match visit(g.1) {
                    Err(m) => fail(m),
                    Ok(v) => Step::Go(seq![v], stack, next),
                }
            } else {
                pass(stack, next)
            },
            None => pass(stack, next),
        },
    }
}

/// The event `e` inside a `<beamlattice>` with default radius `r`.
pub open spec fn lattice_step(evs: Seq<EventView>, err: Option<Seq<char>>, stack: Seq<Ctx>, next: int, r: u32, e: EventView) -> Step {
    match e {
        EventView::Start(g) => if local_name(g.0) == "beams"@ {
            pass(stack.push(Ctx::Beams(r)), next)
        } else if local_name(g.0) == "beamsets"@ {
            match end_of(evs, err, next, "beamsets"@, 0) {
                Err(m) => fail(m),
                Ok(p) => pass(stack, p),
            }
        } else {
            pass(stack, next)
        },
        EventView::End(n) => if local_name(n) == "beamlattice"@ {
            Step::Go(seq![Visit::EndBeamLattice], stack.drop_last(), next)
        } else {
            pass(stack, next)
        },
        _ => pass(stack, next),
    }
}

/// The event `e` inside a `<displacementmesh>`.
pub open spec fn disp_mesh_step(evs: Seq<EventView>, err: Option<Seq<char>>, stack: Seq<Ctx>, next: int, e: EventView) -> Step {
    match e {
        EventView::Start(g) => if local_name(g.0) == "vertices"@ {
            pass(stack.push(Ctx::DispVertices), next)
        } else if local_name(g.0) == "triangles"@ {
            pass(stack.push(Ctx::DispTriangles), next)
        } else if local_name(g.0) == "normvectors"@ {
            pass(stack.push(Ctx::DispNormals), next)
        } else if local_name(g.0) == "disp2dgroups"@ {
            match end_of(evs, err, next, "disp2dgroups"@, 0) {
                Err(m) => fail(m),
                Ok(p) => pass(stack, p),
            }
        } else {
            pass(stack, next)
        },
        EventView::End(n) => if local_name(n) == "displacementmesh"@ {
            Step::Go(seq![Visit::EndDisplacementMesh], stack.drop_last(), next)
        } else {
            pass(stack, next)
        },
        _ => pass(stack, next),
    }
}

/// The callback for a vertex tag of a mesh.
pub open spec fn vertex_visit(t: NumbersView) -> spec_fn(AttrsView) -> Result<Visit, Seq<char>> {
    |a: AttrsView| match three_numbers(a, "x"@, "y"@, "z"@, t) {
        Err(m) => Err(m),
        Ok((x, y, z)) => Ok(Visit::Vertex(x, y, z)),
    }
}

/// The callback for a triangle tag of a mesh.
pub open spec fn triangle_visit() -> spec_fn(AttrsView) -> Result<Visit, Seq<char>> {
    |a: AttrsView| match three_indices(a) {
        Err(m) => Err(m),
        Ok((x, y, z)) => Ok(Visit::Triangle(x, y, z)),
    }
}

/// The callback for a beam tag, with the default radius `r`.
pub open spec fn beam_visit(t: NumbersView, r: u32) -> spec_fn(AttrsView) -> Result<Visit, Seq<char>> {
    |a: AttrsView| match beam_of(a, t, r) {
        Err(m) => Err(m),
        Ok(b) => Ok(Visit::Beam(b)),
    }
}

/// The callback for a vertex tag of a displacement mesh.
pub open spec fn disp_vertex_visit(t: NumbersView) -> spec_fn(AttrsView) -> Result<Visit, Seq<char>> {
    |a: AttrsView| match three_numbers(a, "x"@, "y"@, "z"@, t) {
        Err(m) => Err(m),
        Ok((x, y, z)) => Ok(Visit::DisplacementVertex(x, y, z)),
    }
}

/// The callback for a triangle tag of a displacement mesh.
pub open spec fn disp_triangle_visit() -> spec_fn(AttrsView) -> Result<Visit, Seq<char>> {
    |a: AttrsView| match disp_triangle_of(a) {
        Err(m) => Err(m),
        Ok(d) => Ok(Visit::DisplacementTriangle(d)),
    }
}

/// The callback for a normal vector tag.
pub open spec fn normal_visit(t: NumbersView) -> spec_fn(AttrsView) -> Result<Visit, Seq<char>> {
    |a: AttrsView| match three_numbers(a, "nx"@, "ny"@, "nz"@, t) {
        Err(m) => Err(m),
        Ok((x, y, z)) => Ok(Visit::DisplacementNormal(x, y, z)),
    }
}

/// The callback for a build item tag: the item with that object, identity transform and
/// nothing else.
pub open spec fn item_tag_visit() -> spec_fn(AttrsView) -> Result<Visit, Seq<char>> {
    |a: AttrsView| match attr_u32(a, "objectid"@) {
        Err(m) => Err(m),
        Ok(o) => Ok(Visit::BuildItem(o, None, None, None, identity_entries(), None)),
    }
}

/// The event `e` inside `<build>`.
pub open spec fn build_step(stack: Seq<Ctx>, next: int, e: EventView) -> Step {
    match e {
        EventView::End(n) => if n == "build"@ {
            Step::Go(seq![Visit::EndBuild], stack.drop_last(), next)
        } else {
            pass(stack, next)
        },
        _ => list_step(stack, next, e, "item"@, "build"@, false, item_tag_visit()),
    }
}

/// What the event at position `pos` does to a reader in the elements `stack` (innermost
/// last); at the end of the events, the reading ends: done where it is outside any element
/// (a read error ends it with that error), an error inside one.
pub open spec fn stream_step(evs: Seq<EventView>, err: Option<Seq<char>>, t: NumbersView, stack: Seq<Ctx>, pos: int) -> Step {
    let c = stack.last();
    if pos < 0 || pos >= evs.len() {
        match c {
            Ctx::Top => match err {
                Some(m) => fail(m),
                None => Step::Stop(seq![Visit::EndModel], Ok(())),
            },
            _ => fail(eof_message(err, eof_text(c))),
        }
    } else {
        let e = evs[pos];
        let next = pos + 1;
        match c {
            Ctx::Top => top_step(evs, err, stack, next, e),
            Ctx::Resources => resources_step(evs, err, stack, next, e),
            Ctx::Object(id) => object_step(stack, next, id, e),
            Ctx::Mesh(id) => mesh_step(t, stack, next, id, e),
            Ctx::Vertices => list_step(stack, next, e, "vertex"@, "vertices"@, false, vertex_visit(t)),
            Ctx::Triangles => list_step(stack, next, e, "triangle"@, "triangles"@, false, triangle_visit()),
            Ctx::Lattice(r) => lattice_step(evs, err, stack, next, r, e),
            Ctx::Beams(r) => list_step(stack, next, e, "beam"@, "beams"@, true, beam_visit(t, r)),
            Ctx::DispMesh => disp_mesh_step(evs, err, stack, next, e),
            Ctx::DispVertices => list_step(stack, next, e, "vertex"@, "vertices"@, true, disp_vertex_visit(t)),
            Ctx::DispTriangles => list_step(stack, next, e, "triangle"@, "triangles"@, true, disp_triangle_visit()),
            Ctx::DispNormals => list_step(stack, next, e, "normvector"@, "normvectors"@, true, normal_visit(t)),
            Ctx::Build => build_step(stack, next, e),
        }
    }
}

/// Reading the items of an element moves forward and stays within the events.
proof fn lemma_items_scan_advances<T>(evs: Seq<EventView>, err: Option<Seq<char>>, pos: int, item: Seq<char>, end: Seq<char>, eof: Seq<char>, read: spec_fn(AttrsView) -> Result<T, Seq<char>>, acc: Seq<T>)
    requires
        0 <= pos,
    ensures
        items_scan(evs, err, pos, item, end, eof, read, acc) matches Ok((_, p)) ==> pos < p <= evs.len(),
    decreases evs.len() - pos,
{
    if pos < evs.len() {
        match evs[pos] {
            EventView::End(n) => if n != end {
                lemma_items_scan_advances(evs, err, pos + 1, item, end, eof, read, acc);
            },
            EventView::Start(g) => if g.0 == item {
                if let Ok(v) = read(g.1) {
                    lemma_items_scan_advances(evs, err, pos + 1, item, end, eof, read, acc.push(v));
                }
            } else {
                lemma_items_scan_advances(evs, err, pos + 1, item, end, eof, read, acc);
            },
            EventView::Empty(g) => if g.0 == item {
                if let Ok(v) = read(g.1) {
                    lemma_items_scan_advances(evs, err, pos + 1, item, end, eof, read, acc.push(v));
                }
            } else {
                lemma_items_scan_advances(evs, err, pos + 1, item, end, eof, read, acc);
            },
            _ => lemma_items_scan_advances(evs, err, pos + 1, item, end, eof, read, acc),
        }
    }
}

/// Each step that goes on moves forward and stays within the events.
pub proof fn lemma_step_advances(evs: Seq<EventView>, err: Option<Seq<char>>, t: NumbersView, stack: Seq<Ctx>, pos: int)
    ensures
        stream_step(evs, err, t, stack, pos) matches Step::Go(_, _, p) ==> pos < p <= evs.len(),
{
    if 0 <= pos < evs.len() {
        lemma_text_content_advances(evs, err, pos + 1, 0, Seq::empty());
        lemma_end_of_advances(evs, err, pos + 1, "beamsets"@, 0);
        lemma_end_of_advances(evs, err, pos + 1, "disp2dgroups"@, 0);
        lemma_items_scan_advances(evs, err, pos + 1, "base"@, "basematerials"@, "Unexpected EOF in basematerials"@, |a: AttrsView| base_of(a), Seq::empty());
        lemma_items_scan_advances(evs, err, pos + 1, "color"@, "colorgroup"@, "Unexpected EOF in colorgroup"@, |a: AttrsView| color_of(a), Seq::empty());
    }
}

/// The callbacks made from position `pos` on by a reader in the elements `stack`, after
/// those of `acc`, and how the reading ends.
pub open spec fn stream_run(evs: Seq<EventView>, err: Option<Seq<char>>, t: NumbersView, stack: Seq<Ctx>, pos: int, acc: Seq<Visit>) -> (Seq<Visit>, Result<(), Seq<char>>)
    decreases evs.len() - pos,
{
    match stream_step(evs, err, t, stack, pos) {
        Step::Stop(vs, end) => (acc + vs, end),
        Step::Go(vs, s2, p2) => {
            proof {
                lemma_step_advances(evs, err, t, stack, pos);
            }
            stream_run(evs, err, t, s2, p2, acc + vs)
        },
    }
}

/// The callbacks that reading a model part makes, in order, and how the reading ends (done,
/// or the message of the error that ends it) when every callback goes through.
pub open spec fn stream_plan(data: Seq<u8>, t: NumbersView) -> (Seq<Visit>, Result<(), Seq<char>>) {
    let (evs, err) = xml_events(data, true);
    stream_run(evs, err, t, seq![Ctx::Top], 0, seq![Visit::StartModel])
}

/// Whether the calls `calls` (with their answers) and the result `r` are how a reading
/// that plans the callbacks `plan` and ends with `end` goes: the calls follow the plan, all
/// answered with success but perhaps the last; an error answer stops the reading and is
/// its result; otherwise every planned callback is made and the reading ends as planned.
pub open spec fn ran(calls: VisitLog, plan: Seq<Visit>, end: Result<(), Seq<char>>, r: Result<(), Lib3mfError>) -> bool {
    &&& calls.len() <= plan.len()
    &&& forall|i: int| 0 <= i < calls.len() ==> (#[trigger] calls[i]).0 == plan[i]
    &&& forall|i: int| 0 <= i < calls.len() - 1 ==> (#[trigger] calls[i]).1 is Ok
    &&& if calls.len() > 0 && calls.last().1 is Err {
        r == calls.last().1
    } else {
        &&& calls.len() == plan.len()
        &&& match end {
            Ok(()) => r is Ok,
            Err(m) => r matches Err(Lib3mfError::Validation(x)) && x@ == m,
        }
    }
}

/// The callbacks made so far lead the ones still to come.
proof fn lemma_run_extends(evs: Seq<EventView>, err: Option<Seq<char>>, t: NumbersView, stack: Seq<Ctx>, pos: int, acc: Seq<Visit>)
    ensures
        acc.len() <= stream_run(evs, err, t, stack, pos, acc).0.len(),
        stream_run(evs, err, t, stack, pos, acc).0.take(acc.len() as int) == acc,
    decreases evs.len() - pos,
{
    match stream_step(evs, err, t, stack, pos) {
        Step::Stop(vs, end) => {
            assert((acc + vs).take(acc.len() as int) =~= acc);
        },
        Step::Go(vs, s2, p2) => {
            lemma_step_advances(evs, err, t, stack, pos);
            lemma_run_extends(evs, err, t, s2, p2, acc + vs);
            let full = stream_run(evs, err, t, s2, p2, acc + vs).0;
            assert(full.take(acc.len() as int) =~= full.take((acc + vs).len() as int).take(acc.len() as int));
            assert((acc + vs).take(acc.len() as int) =~= acc);
        },
    }
}

// ---------------------------------------------------------------- the reader

/// A callback to make, with what it is handed.
enum Call {
    StartModel,
    EndModel,
    Metadata(String, String),
    StartResources,
    EndResources,
    BaseMaterials(crate::model::materials::BaseMaterialsGroup),
    ColorGroup(crate::model::materials::ColorGroup),
    StartMesh(u32),
    Vertex(u32, u32, u32),
    Triangle(u32, u32, u32),
    EndMesh,
    StartBeamLattice(u32),
    Beam(Beam),
    EndBeamLattice,
    StartDisplacementMesh(u32),
    DisplacementVertex(u32, u32, u32),
    DisplacementTriangle(DisplacementTriangle),
    DisplacementNormal(u32, u32, u32),
    EndDisplacementMesh,
    StartBuild,
    EndBuild,
    BuildItem(BuildItem),
}

/// A callback as values.
spec fn call_view(c: Call) -> Visit {
    match c {
        Call::StartModel => Visit::StartModel,
        Call::EndModel => Visit::EndModel,
        Call::Metadata(n, v) => Visit::Metadata(n@, v@),
        Call::StartResources => Visit::StartResources,
        Call::EndResources => Visit::EndResources,
        Call::BaseMaterials(g) => Visit::BaseMaterials(g.id.0, bases_view(g.materials@)),
        Call::ColorGroup(g) => Visit::ColorGroup(g.id.0, g.colors@),
        Call::StartMesh(id) => Visit::StartMesh(id),
        Call::Vertex(x, y, z) => Visit::Vertex(x, y, z),
        Call::Triangle(a, b, c) => Visit::Triangle(a, b, c),
        Call::EndMesh => Visit::EndMesh,
        Call::StartBeamLattice(id) => Visit::StartBeamLattice(id),
        Call::Beam(b) => Visit::Beam(b),
        Call::EndBeamLattice => Visit::EndBeamLattice,
        Call::StartDisplacementMesh(id) => Visit::StartDisplacementMesh(id),
        Call::DisplacementVertex(x, y, z) => Visit::DisplacementVertex(x, y, z),
        Call::DisplacementTriangle(d) => Visit::DisplacementTriangle(d),
        Call::DisplacementNormal(x, y, z) => Visit::DisplacementNormal(x, y, z),
        Call::EndDisplacementMesh => Visit::EndDisplacementMesh,
        Call::StartBuild => Visit::StartBuild,
        Call::EndBuild => Visit::EndBuild,
        Call::BuildItem(item) => item_visit(item),
    }
}

/// The callbacks of an optional call.
spec fn calls_view(c: Option<Call>) -> Seq<Visit> {
    match c {
        Some(x) => seq![call_view(x)],
        None => Seq::empty(),
    }
}

/// Makes the callback.
fn dispatch<V: ModelVisitor>(visitor: &mut V, c: &Call) -> (r: Result<(), Lib3mfError>)
    ensures
        final(visitor).log() == old(visitor).log().push((call_view(*c), r)),
{
    match c {
        Call::StartModel => visitor.on_start_model(),
        Call::EndModel => visitor.on_end_model(),
        Call::Metadata(n, v) => visitor.on_metadata(n.as_str(), v.as_str()),
        Call::StartResources => visitor.on_start_resources(),
        Call::EndResources => visitor.on_end_resources(),
        Call::BaseMaterials(g) => visitor.on_base_materials(g.id, g),
        Call::ColorGroup(g) => visitor.on_color_group(g.id, g),
        Call::StartMesh(id) => visitor.on_start_mesh(ResourceId(*id)),
        Call::Vertex(x, y, z) => visitor.on_vertex(*x, *y, *z),
        Call::Triangle(a, b, c) => visitor.on_triangle(*a, *b, *c),
        Call::EndMesh => visitor.on_end_mesh(),
        Call::StartBeamLattice(id) => visitor.on_start_beam_lattice(ResourceId(*id)),
        Call::Beam(b) => visitor.on_beam(b),
        Call::EndBeamLattice => visitor.on_end_beam_lattice(),
        Call::StartDisplacementMesh(id) => visitor.on_start_displacement_mesh(ResourceId(*id)),
        Call::DisplacementVertex(x, y, z) => visitor.on_displacement_vertex(*x, *y, *z),
        Call::DisplacementTriangle(d) => visitor.on_displacement_triangle(d),
        Call::DisplacementNormal(x, y, z) => visitor.on_displacement_normal(*x, *y, *z),
        Call::EndDisplacementMesh => visitor.on_end_displacement_mesh(),
        Call::StartBuild => visitor.on_start_build(),
        Call::EndBuild => visitor.on_end_build(),
        Call::BuildItem(item) => visitor.on_build_item(item),
    }
}

/// Whether the elements `s` are the document with elements the reader follows inside it.
pub open spec fn shape_ok(s: Seq<Ctx>) -> bool {
    &&& s.len() >= 1
    &&& s[0] == Ctx::Top
    &&& forall|i: int| 0 < i < s.len() ==> s[i] != Ctx::Top
}

/// Whether a step was taken as `step` says: the callback to make, whether the reading is
/// done, the elements and the position after it, or the error that ends the reading.
spec fn step_done(step: Step, r: Result<(Option<Call>, bool), Lib3mfError>, stack: Seq<Ctx>, pos: int) -> bool {
    match step {
        Step::Go(vs, s2, p2) => r matches Ok((c, false)) && calls_view(c) == vs && stack == s2 && pos == p2,
        Step::Stop(vs, Ok(())) => r matches Ok((c, true)) && calls_view(c) == vs,
        Step::Stop(vs, Err(m)) => vs.len() == 0 && (r matches Err(Lib3mfError::Validation(x)) && x@ == m),
    }
}

/// The three numbers of attributes `a`, `b`, `c`, as [`three_numbers`] describes.
fn read_three_numbers(tag: &XmlTag, a: &str, b: &str, c: &str, numbers: &NumberTable) -> (r: Result<(u32, u32, u32), Lib3mfError>)
    ensures
        match three_numbers(attrs_view(tag.attrs@), a@, b@, c@, numbers_view(*numbers)) {
            Ok(v) => r == Ok::<(u32, u32, u32), Lib3mfError>(v),
            Err(m) => r matches Err(Lib3mfError::Validation(x)) && x@ == m,
        },
{
    let x = get_attribute_f32(tag, a, numbers)?;
    let y = get_attribute_f32(tag, b, numbers)?;
    let z = get_attribute_f32(tag, c, numbers)?;
    Ok((x, y, z))
}

/// The attributes `v1`, `v2`, `v3`, as [`three_indices`] describes.
fn read_three_indices(tag: &XmlTag) -> (r: Result<(u32, u32, u32), Lib3mfError>)
    ensures
        match three_indices(attrs_view(tag.attrs@)) {
            Ok(v) => r == Ok::<(u32, u32, u32), Lib3mfError>(v),
            Err(m) => r matches Err(Lib3mfError::Validation(x)) && x@ == m,
        },
{
    let x = get_attribute_u32(tag, "v1")?;
    let y = get_attribute_u32(tag, "v2")?;
    let z = get_attribute_u32(tag, "v3")?;
    Ok((x, y, z))
}

/// Attribute `name` as a `u32` where it is present and well formed.
fn read_u32_ok(tag: &XmlTag, name: &str) -> (r: Option<u32>)
    ensures
        r == attr_u32_ok(attrs_view(tag.attrs@), name@),
{
    match get_attribute_u32(tag, name) {
        Ok(v) => Some(v),
        Err(_) => None,
    }
}

/// Attribute `name` as a number, or `default`.
fn read_f32_or(tag: &XmlTag, name: &str, numbers: &NumberTable, default: u32) -> (r: u32)
    ensures
        r == attr_f32_or(attrs_view(tag.attrs@), name@, numbers_view(*numbers), default),
{
    match get_attribute_f32(tag, name, numbers) {
        Ok(v) => v,
        Err(_) => default,
    }
}

/// The beam of a `<beam>` tag, as [`beam_of`] describes.
fn read_beam(tag: &XmlTag, numbers: &NumberTable, r: u32) -> (b: Result<Beam, Lib3mfError>)
    ensures
        match beam_of(attrs_view(tag.attrs@), numbers_view(*numbers), r) {
            Ok(v) => b == Ok::<Beam, Lib3mfError>(v),
            Err(m) => b matches Err(Lib3mfError::Validation(x)) && x@ == m,
        },
{
    let v1 = get_attribute_u32(tag, "v1")?;
    let v2 = get_attribute_u32(tag, "v2")?;
    let r1 = read_f32_or(tag, "r1", numbers, r);
    let r2 = read_f32_or(tag, "r2", numbers, r1);
    let cap = get_attribute(tag, "cap");
    let cap_mode = match &cap {
        Some(s) => if same_text(s.as_str(), "hemisphere") {
            CapMode::Hemisphere
        } else if same_text(s.as_str(), "butt") {
            CapMode::Butt
        } else {
            CapMode::Sphere
        },
        None => CapMode::Sphere,
    };
    Ok(Beam { v1, v2, r1, r2, p1: read_u32_ok(tag, "p1"), p2: read_u32_ok(tag, "p2"), cap_mode })
}

/// The triangle of a `<triangle>` tag of a displacement mesh.
fn read_disp_triangle(tag: &XmlTag) -> (r: Result<DisplacementTriangle, Lib3mfError>)
    ensures
        match disp_triangle_of(attrs_view(tag.attrs@)) {
            Ok(v) => r == Ok::<DisplacementTriangle, Lib3mfError>(v),
            Err(m) => r matches Err(Lib3mfError::Validation(x)) && x@ == m,
        },
{
    let (v1, v2, v3) = read_three_indices(tag)?;
    Ok(DisplacementTriangle {
        v1,
        v2,
        v3,
        d1: read_u32_ok(tag, "d1"),
        d2: read_u32_ok(tag, "d2"),
        d3: read_u32_ok(tag, "d3"),
        p1: read_u32_ok(tag, "p1"),
        p2: read_u32_ok(tag, "p2"),
        p3: read_u32_ok(tag, "p3"),
        pid: read_u32_ok(tag, "pid"),
    })
}

/// The message for running out of events inside an element.
fn eof_text_of(c: Ctx) -> (r: String)
    ensures
        r@ == eof_text(c),
{
    let t = match c {
        Ctx::Top => "Unexpected EOF",
        Ctx::Resources => "Unexpected EOF in resources",
        Ctx::Object(_) => "Unexpected EOF in object",
        Ctx::Mesh(_) => "Unexpected EOF in mesh",
        Ctx::Vertices => "Unexpected EOF in vertices",
        Ctx::Triangles => "Unexpected EOF in triangles",
        Ctx::Lattice(_) => "Unexpected EOF in beamlattice",
        Ctx::Beams(_) => "Unexpected EOF in beams",
        Ctx::DispMesh => "Unexpected EOF in displacementmesh",
        Ctx::DispVertices => "Unexpected EOF in displacement vertices",
        Ctx::DispTriangles => "Unexpected EOF in displacement triangles",
        Ctx::DispNormals => "Unexpected EOF in displacement normals",
        Ctx::Build => "Unexpected EOF in build",
    };
    String::from_str(t)
}

/// A name, or its local part where `local` holds.
spec fn name_as(n: Seq<char>, local: bool) -> Seq<char> {
    if local { local_name(n) } else { n }
}

/// Whether `n`, or its local part where `local` holds, is `name`.
fn name_is(n: &String, name: &str, local: bool) -> (r: bool)
    ensures
        r == (name_as(n@, local) == name@),
{
    if local {
        let l = local_name_of(n.as_str());
        same_text(l.as_str(), name)
    } else {
        same_text(n.as_str(), name)
    }
}

/// How an event reads in a list of `item` tags that ends with `end`: `None` for the end,
/// the tag of an item, or nothing to do.
fn list_event<'a>(e: &'a XmlEvent, item: &str, end: &str, local: bool) -> (r: Option<Option<&'a XmlTag>>)
    ensures
        match event_view(*e) {
            EventView::End(n) => if name_as(n, local) == end@ { r is None } else { r == Some(None::<&XmlTag>) },
            _ => match tag_of(event_view(*e)) {
                Some(g) => if name_as(g.0, local) == item@ {
                    r matches Some(Some(t)) && tag_view(*t) == g
                } else {
                    r == Some(None::<&XmlTag>)
                },
                None => r == Some(None::<&XmlTag>),
            },
        },
{
    match e {
        XmlEvent::End(n) => if name_is(n, end, local) { None } else { Some(None) },
        XmlEvent::Start(g) | XmlEvent::Empty(g) => if name_is(&g.name, item, local) { Some(Some(g)) } else { Some(None) },
        _ => Some(None),
    }
}

/// Leaves the innermost element.
fn leave(stack: &mut Vec<Ctx>)
    requires
        shape_ok(old(stack)@),
        old(stack)@.last() != Ctx::Top,
    ensures
        final(stack)@ == old(stack)@.drop_last(),
        shape_ok(final(stack)@),
{
    stack.pop();
}

/// Enters an element.
fn enter(stack: &mut Vec<Ctx>, c: Ctx)
    requires
        shape_ok(old(stack)@),
        c != Ctx::Top,
    ensures
        final(stack)@ == old(stack)@.push(c),
        shape_ok(final(stack)@),
{
    stack.push(c);
}

/// The event `e` outside the elements the reader follows.
fn top_event(parser: &mut XmlParser, stack: &mut Vec<Ctx>, e: XmlEvent) -> (r: Result<(Option<Call>, bool), Lib3mfError>)
    requires
        old(parser).wf(),
        shape_ok(old(stack)@),
    ensures
        moved_on(*old(parser), *final(parser)),
        shape_ok(final(stack)@),
        step_done(top_step(old(parser).events_of(), old(parser).error_of(), old(stack)@, old(parser).pos as int, event_view(e)), r, final(stack)@, final(parser).pos as int),
{
    match e {
        XmlEvent::Start(g) => {
            if same_text(g.name.as_str(), "metadata") {
                match get_attribute(&g, "name") {
                    None => Err(Lib3mfError::Validation(String::from_str("Metadata missing name"))),
                    Some(n) => match parser.read_text_content() {
                        Err(x) => Err(x),
                        Ok(v) => Ok((Some(Call::Metadata(n, v)), false)),
                    },
                }
            } else if same_text(g.name.as_str(), "resources") {
                enter(stack, Ctx::Resources);
                Ok((Some(Call::StartResources), false))
            } else if same_text(g.name.as_str(), "build") {
                enter(stack, Ctx::Build);
                Ok((Some(Call::StartBuild), false))
            } else {
                Ok((None, false))
            }
        },
        XmlEvent::Empty(g) => {
            if same_text(g.name.as_str(), "metadata") {
                match get_attribute(&g, "name") {
                    None => Err(Lib3mfError::Validation(String::from_str("Metadata missing name"))),
                    Some(n) => {
                        let v = String::new();
                        proof {
                            assert(v@ =~= Seq::<char>::empty());
                        }
                        Ok((Some(Call::Metadata(n, v)), false))
                    },
                }
            } else {
                Ok((None, false))
            }
        },
        XmlEvent::End(n) => {
            if same_text(n.as_str(), "model") {
                Ok((Some(Call::EndModel), true))
            } else {
                Ok((None, false))
            }
        },
        _ => Ok((None, false)),
    }
}

/// The event `e` inside `<resources>`.
fn resources_event(parser: &mut XmlParser, stack: &mut Vec<Ctx>, e: XmlEvent) -> (r: Result<(Option<Call>, bool), Lib3mfError>)
    requires
        old(parser).wf(),
        shape_ok(old(stack)@),
        old(stack)@.last() == Ctx::Resources,
    ensures
        moved_on(*old(parser), *final(parser)),
        shape_ok(final(stack)@),
        step_done(resources_step(old(parser).events_of(), old(parser).error_of(), old(stack)@, old(parser).pos as int, event_view(e)), r, final(stack)@, final(parser).pos as int),
{
    match e {
        XmlEvent::Start(g) => {
            let l = local_name_of(g.name.as_str());
            if same_text(l.as_str(), "object") {
                let id = get_attribute_u32(&g, "id")?;
                enter(stack, Ctx::Object(id));
                Ok((None, false))
            } else if same_text(l.as_str(), "basematerials") {
                let id = get_attribute_u32(&g, "id")?;
                let group = parse_base_materials(parser, ResourceId(id))?;
                Ok((Some(Call::BaseMaterials(group)), false))
            } else if same_text(l.as_str(), "colorgroup") {
                let id = get_attribute_u32(&g, "id")?;
                let group = parse_color_group(parser, ResourceId(id))?;
                Ok((Some(Call::ColorGroup(group)), false))
            } else {
                Ok((None, false))
            }
        },
        XmlEvent::End(n) => {
            if same_text(n.as_str(), "resources") {
                leave(stack);
                Ok((Some(Call::EndResources), false))
            } else {
                Ok((None, false))
            }
        },
        _ => Ok((None, false)),
    }
}

/// The event `e` inside `<object>` with ID `id`.
fn object_event(parser: &XmlParser, stack: &mut Vec<Ctx>, id: u32, e: XmlEvent) -> (r: Result<(Option<Call>, bool), Lib3mfError>)
    requires
        shape_ok(old(stack)@),
        old(stack)@.last() == Ctx::Object(id),
    ensures
        shape_ok(final(stack)@),
        step_done(object_step(old(stack)@, parser.pos as int, id, event_view(e)), r, final(stack)@, parser.pos as int),
{
    match e {
        XmlEvent::Start(g) => {
            if name_is(&g.name, "mesh", true) {
                enter(stack, Ctx::Mesh(id));
                Ok((Some(Call::StartMesh(id)), false))
            } else if name_is(&g.name, "displacementmesh", true) {
                enter(stack, Ctx::DispMesh);
                Ok((Some(Call::StartDisplacementMesh(id)), false))
            } else {
                Ok((None, false))
            }
        },
        XmlEvent::End(n) => {
            if name_is(&n, "object", true) {
                leave(stack);
            }
            Ok((None, false))
        },
        _ => Ok((None, false)),
    }
}

/// The event `e` inside the `<mesh>` of the object with ID `id`.
fn mesh_event(parser: &XmlParser, numbers: &NumberTable, stack: &mut Vec<Ctx>, id: u32, e: XmlEvent) -> (r: Result<(Option<Call>, bool), Lib3mfError>)
    requires
        shape_ok(old(stack)@),
        old(stack)@.last() == Ctx::Mesh(id),
    ensures
        shape_ok(final(stack)@),
        step_done(mesh_step(numbers_view(*numbers), old(stack)@, parser.pos as int, id, event_view(e)), r, final(stack)@, parser.pos as int),
{
    match e {
        XmlEvent::Start(g) => {
            if name_is(&g.name, "vertices", true) {
                enter(stack, Ctx::Vertices);
                Ok((None, false))
            } else if name_is(&g.name, "triangles", true) {
                enter(stack, Ctx::Triangles);
                Ok((None, false))
            } else if name_is(&g.name, "beamlattice", true) {
                let radius = read_f32_or(&g, "radius", numbers, 0);
                enter(stack, Ctx::Lattice(radius));
                Ok((Some(Call::StartBeamLattice(id)), false))
            } else {
                Ok((None, false))
            }
        },
        XmlEvent::End(n) => {
            if name_is(&n, "mesh", true) {
                leave(stack);
                Ok((Some(Call::EndMesh), false))
            } else {
                Ok((None, false))
            }
        },
        _ => Ok((None, false)),
    }
}

/// The event `e` inside a `<beamlattice>` with default radius `radius`.
fn lattice_event(parser: &mut XmlParser, stack: &mut Vec<Ctx>, radius: u32, e: XmlEvent) -> (r: Result<(Option<Call>, bool), Lib3mfError>)
    requires
        old(parser).wf(),
        shape_ok(old(stack)@),
        old(stack)@.last() == Ctx::Lattice(radius),
    ensures
        moved_on(*old(parser), *final(parser)),
        shape_ok(final(stack)@),
        step_done(lattice_step(old(parser).events_of(), old(parser).error_of(), old(stack)@, old(parser).pos as int, radius, event_view(e)), r, final(stack)@, final(parser).pos as int),
{
    match e {
        XmlEvent::Start(g) => {
            if name_is(&g.name, "beams", true) {
                enter(stack, Ctx::Beams(radius));
                Ok((None, false))
            } else if name_is(&g.name, "beamsets", true) {
                parser.read_to_end("beamsets")?;
                Ok((None, false))
            } else {
                Ok((None, false))
            }
        },
        XmlEvent::End(n) => {
            if name_is(&n, "beamlattice", true) {
                leave(stack);
                Ok((Some(Call::EndBeamLattice), false))
            } else {
                Ok((None, false))
            }
        },
        _ => Ok((None, false)),
    }
}

/// The event `e` inside a `<displacementmesh>`.
fn disp_mesh_event(parser: &mut XmlParser, stack: &mut Vec<Ctx>, e: XmlEvent) -> (r: Result<(Option<Call>, bool), Lib3mfError>)
    requires
        old(parser).wf(),
        shape_ok(old(stack)@),
        old(stack)@.last() == Ctx::DispMesh,
    ensures
        moved_on(*old(parser), *final(parser)),
        shape_ok(final(stack)@),
        step_done(disp_mesh_step(old(parser).events_of(), old(parser).error_of(), old(stack)@, old(parser).pos as int, event_view(e)), r, final(stack)@, final(parser).pos as int),
{
    match e {
        XmlEvent::Start(g) => {
            if name_is(&g.name, "vertices", true) {
                enter(stack, Ctx::DispVertices);
                Ok((None, false))
            } else if name_is(&g.name, "triangles", true) {
                enter(stack, Ctx::DispTriangles);
                Ok((None, false))
            } else if name_is(&g.name, "normvectors", true) {
                enter(stack, Ctx::DispNormals);
                Ok((None, false))
            } else if name_is(&g.name, "disp2dgroups", true) {
                parser.read_to_end("disp2dgroups")?;
                Ok((None, false))
            } else {
                Ok((None, false))
            }
        },
        XmlEvent::End(n) => {
            if name_is(&n, "displacementmesh", true) {
                leave(stack);
                Ok((Some(Call::EndDisplacementMesh), false))
            } else {
                Ok((None, false))
            }
        },
        _ => Ok((None, false)),
    }
}

/// The event `e` inside the `<vertices>` of a mesh.
fn vertices_event(parser: &XmlParser, numbers: &NumberTable, stack: &mut Vec<Ctx>, e: XmlEvent) -> (r: Result<(Option<Call>, bool), Lib3mfError>)
    requires
        shape_ok(old(stack)@),
        old(stack)@.last() == Ctx::Vertices,
    ensures
        shape_ok(final(stack)@),
        step_done(list_step(old(stack)@, parser.pos as int, event_view(e), "vertex"@, "vertices"@, false, vertex_visit(numbers_view(*numbers))), r, final(stack)@, parser.pos as int),
{
    match list_event(&e, "vertex", "vertices", false) {
        None => {
            leave(stack);
            Ok((None, false))
        },
        Some(None) => Ok((None, false)),
        Some(Some(g)) => {
            let (x, y, z) = read_three_numbers(g, "x", "y", "z", numbers)?;
            Ok((Some(Call::Vertex(x, y, z)), false))
        },
    }
}

/// The event `e` inside the `<triangles>` of a mesh.
fn triangles_event(parser: &XmlParser, stack: &mut Vec<Ctx>, e: XmlEvent) -> (r: Result<(Option<Call>, bool), Lib3mfError>)
    requires
        shape_ok(old(stack)@),
        old(stack)@.last() == Ctx::Triangles,
    ensures
        shape_ok(final(stack)@),
        step_done(list_step(old(stack)@, parser.pos as int, event_view(e), "triangle"@, "triangles"@, false, triangle_visit()), r, final(stack)@, parser.pos as int),
{
    match list_event(&e, "triangle", "triangles", false) {
        None => {
            leave(stack);
            Ok((None, false))
        },
        Some(None) => Ok((None, false)),
        Some(Some(g)) => {
            let (a, b, c) = read_three_indices(g)?;
            Ok((Some(Call::Triangle(a, b, c)), false))
        },
    }
}

/// The event `e` inside `<beams>`, with the default radius `radius`.
fn beams_event(parser: &XmlParser, numbers: &NumberTable, stack: &mut Vec<Ctx>, radius: u32, e: XmlEvent) -> (r: Result<(Option<Call>, bool), Lib3mfError>)
    requires
        shape_ok(old(stack)@),
        old(stack)@.last() == Ctx::Beams(radius),
    ensures
        shape_ok(final(stack)@),
        step_done(list_step(old(stack)@, parser.pos as int, event_view(e), "beam"@, "beams"@, true, beam_visit(numbers_view(*numbers), radius)), r, final(stack)@, parser.pos as int),
{
    match list_event(&e, "beam", "beams", true) {
        None => {
            leave(stack);
            Ok((None, false))
        },
        Some(None) => Ok((None, false)),
        Some(Some(g)) => {
            let b = read_beam(g, numbers, radius)?;
            Ok((Some(Call::Beam(b)), false))
        },
    }
}

/// The event `e` inside the `<vertices>` of a displacement mesh.
fn disp_vertices_event(parser: &XmlParser, numbers: &NumberTable, stack: &mut Vec<Ctx>, e: XmlEvent) -> (r: Result<(Option<Call>, bool), Lib3mfError>)
    requires
        shape_ok(old(stack)@),
        old(stack)@.last() == Ctx::DispVertices,
    ensures
        shape_ok(final(stack)@),
        step_done(list_step(old(stack)@, parser.pos as int, event_view(e), "vertex"@, "vertices"@, true, disp_vertex_visit(numbers_view(*numbers))), r, final(stack)@, parser.pos as int),
{
    match list_event(&e, "vertex", "vertices", true) {
        None => {
            leave(stack);
            Ok((None, false))
        },
        Some(None) => Ok((None, false)),
        Some(Some(g)) => {
            let (x, y, z) = read_three_numbers(g, "x", "y", "z", numbers)?;
            Ok((Some(Call::DisplacementVertex(x, y, z)), false))
        },
    }
}

/// The event `e` inside the `<triangles>` of a displacement mesh.
fn disp_triangles_event(parser: &XmlParser, stack: &mut Vec<Ctx>, e: XmlEvent) -> (r: Result<(Option<Call>, bool), Lib3mfError>)
    requires
        shape_ok(old(stack)@),
        old(stack)@.last() == Ctx::DispTriangles,
    ensures
        shape_ok(final(stack)@),
        step_done(list_step(old(stack)@, parser.pos as int, event_view(e), "triangle"@, "triangles"@, true, disp_triangle_visit()), r, final(stack)@, parser.pos as int),
{
    match list_event(&e, "triangle", "triangles", true) {
        None => {
            leave(stack);
            Ok((None, false))
        },
        Some(None) => Ok((None, false)),
        Some(Some(g)) => {
            let d = read_disp_triangle(g)?;
            Ok((Some(Call::DisplacementTriangle(d)), false))
        },
    }
}

/// The event `e` inside `<normvectors>`.
fn normals_event(parser: &XmlParser, numbers: &NumberTable, stack: &mut Vec<Ctx>, e: XmlEvent) -> (r: Result<(Option<Call>, bool), Lib3mfError>)
    requires
        shape_ok(old(stack)@),
        old(stack)@.last() == Ctx::DispNormals,
    ensures
        shape_ok(final(stack)@),
        step_done(list_step(old(stack)@, parser.pos as int, event_view(e), "normvector"@, "normvectors"@, true, normal_visit(numbers_view(*numbers))), r, final(stack)@, parser.pos as int),
{
    match list_event(&e, "normvector", "normvectors", true) {
        None => {
            leave(stack);
            Ok((None, false))
        },
        Some(None) => Ok((None, false)),
        Some(Some(g)) => {
            let (x, y, z) = read_three_numbers(g, "nx", "ny", "nz", numbers)?;
            Ok((Some(Call::DisplacementNormal(x, y, z)), false))
        },
    }
}

/// The event `e` inside `<build>`.
fn build_event(parser: &XmlParser, stack: &mut Vec<Ctx>, e: XmlEvent) -> (r: Result<(Option<Call>, bool), Lib3mfError>)
    requires
        shape_ok(old(stack)@),
        old(stack)@.last() == Ctx::Build,
    ensures
        shape_ok(final(stack)@),
        step_done(build_step(old(stack)@, parser.pos as int, event_view(e)), r, final(stack)@, parser.pos as int),
{
    match list_event(&e, "item", "build", false) {
        None => {
            leave(stack);
            Ok((Some(Call::EndBuild), false))
        },
        Some(None) => Ok((None, false)),
        Some(Some(g)) => {
            let o = get_attribute_u32(g, "objectid")?;
            let item = BuildItem {
                object_id: ResourceId(o),
                uuid: None,
                path: None,
                part_number: None,
                transform: Transform::identity(),
                printable: None,
            };
            proof {
                assert(item.transform.m@ =~= identity_entries());
            }
            Ok((Some(Call::BuildItem(item)), false))
        },
    }
}

/// Reads the next event and takes the step it calls for, as [`stream_step`] describes.
fn advance(parser: &mut XmlParser, numbers: &NumberTable, stack: &mut Vec<Ctx>) -> (r: Result<(Option<Call>, bool), Lib3mfError>)
    requires
        old(parser).wf(),
        shape_ok(old(stack)@),
    ensures
        moved_on(*old(parser), *final(parser)),
        shape_ok(final(stack)@),
        step_done(stream_step(old(parser).events_of(), old(parser).error_of(), numbers_view(*numbers), old(stack)@, old(parser).pos as int), r, final(stack)@, final(parser).pos as int),
{
    let c = stack[stack.len() - 1];
    let e = match parser.read_next_event() {
        Err(x) => return Err(x),
        Ok(None) => {
            return match c {
                Ctx::Top => Ok((Some(Call::EndModel), true)),
                _ => Err(Lib3mfError::Validation(eof_text_of(c))),
            };
        },
        Ok(Some(e)) => e,
    };
    match c {
        Ctx::Top => top_event(parser, stack, e),
        Ctx::Resources => resources_event(parser, stack, e),
        Ctx::Object(id) => object_event(parser, stack, id, e),
        Ctx::Mesh(id) => mesh_event(parser, numbers, stack, id, e),
        Ctx::Vertices => vertices_event(parser, numbers, stack, e),
        Ctx::Triangles => triangles_event(parser, stack, e),
        Ctx::Lattice(radius) => lattice_event(parser, stack, radius, e),
        Ctx::Beams(radius) => beams_event(parser, numbers, stack, radius, e),
        Ctx::DispMesh => disp_mesh_event(parser, stack, e),
        Ctx::DispVertices => disp_vertices_event(parser, numbers, stack, e),
        Ctx::DispTriangles => disp_triangles_event(parser, stack, e),
        Ctx::DispNormals => normals_event(parser, numbers, stack, e),
        Ctx::Build => build_event(parser, stack, e),
    }
}

/// Reads a model part and hands its parts to `visitor` as it meets them, without building
/// the model: metadata, the start and end of the resources, base material and color groups
/// whole, mesh vertices and triangles, beams, displacement mesh vertices, triangles and
/// normals, and build items. Numbers are read through `numbers`. The calls made are the
/// ones [`stream_plan`] lists, in order, up to the first error: an error a callback answers
/// stops the reading and is returned; otherwise the reading ends as planned.
pub fn parse_model_streaming<V: ModelVisitor>(data: &[u8], numbers: &NumberTable, visitor: &mut V) -> (r: Result<(), Lib3mfError>)
    ensures
        old(visitor).log().len() <= final(visitor).log().len(),
        final(visitor).log().take(old(visitor).log().len() as int) == old(visitor).log(),
        ran(final(visitor).log().skip(old(visitor).log().len() as int), stream_plan(data@, numbers_view(*numbers)).0,
            stream_plan(data@, numbers_view(*numbers)).1, r),
{
    let ghost n0 = visitor.log().len() as int;
    let ghost log0 = visitor.log();
    let ghost t = numbers_view(*numbers);
    let ghost plan = stream_plan(data@, t);
    let mut parser = XmlParser::new(data);
    let ghost evs = parser.events_of();
    let ghost err = parser.error_of();
    let first = visitor.on_start_model();
    proof {
        lemma_run_extends(evs, err, t, seq![Ctx::Top], 0, seq![Visit::StartModel]);
        assert(visitor.log().skip(n0) =~= seq![(Visit::StartModel, first)]);
        assert(visitor.log().take(n0) =~= log0);
        assert(plan == stream_run(evs, err, t, seq![Ctx::Top], 0, seq![Visit::StartModel]));
        assert(plan.0[0] == plan.0.take(1)[0]);
        assert(visitor.log().skip(n0)[0].0 == plan.0[0]);
    }
    if first.is_err() {
        return first;
    }
    let mut stack: Vec<Ctx> = Vec::new();
    stack.push(Ctx::Top);
    let ghost mut done: Seq<Visit> = seq![Visit::StartModel];
    loop
        invariant
            parser.wf(),
            parser.events_of() == evs,
            parser.error_of() == err,
            t == numbers_view(*numbers),
            plan == stream_plan(data@, t),
            (evs, err) == xml_events(data@, true),
            shape_ok(stack@),
            n0 == log0.len(),
            log0 == old(visitor).log(),
            visitor.log().len() == n0 + done.len(),
            visitor.log().take(n0) == log0,
            done.len() >= 1,
            forall|i: int| 0 <= i < done.len() ==> (#[trigger] visitor.log()[n0 + i]).0 == done[i] && visitor.log()[n0 + i].1 is Ok,
            stream_run(evs, err, t, stack@, parser.pos as int, done) == plan,
        decreases evs.len() - parser.pos,
    {
        let ghost s0 = stack@;
        let ghost p0 = parser.pos as int;
        let ghost log1 = visitor.log();
        let step = advance(&mut parser, numbers, &mut stack);
        proof {
            lemma_step_advances(evs, err, t, s0, p0);
            lemma_run_extends(evs, err, t, s0, p0, done);
            match stream_step(evs, err, t, s0, p0) {
                Step::Go(vs, s2, p2) => lemma_run_extends(evs, err, t, s2, p2, done + vs),
                _ => {},
            }
        }
        match step {
            Err(x) => {
                proof {
                    let calls = visitor.log().skip(n0);
                    assert(calls.len() == done.len());
                    assert forall|i: int| 0 <= i < calls.len() implies (#[trigger] calls[i]).0 == plan.0[i] && calls[i].1 is Ok by {
                        assert(calls[i] == visitor.log()[n0 + i]);
                    }
                }
                return Err(x);
            },
            Ok((c, fin)) => {
                match c {
                    Some(call) => {
                        let a = dispatch(visitor, &call);
                        proof {
                            let calls = visitor.log().skip(n0);
                            let d2 = done.push(call_view(call));
                            assert(calls.len() == d2.len());
                            assert(plan.0.take(d2.len() as int) =~= d2);
                            assert forall|i: int| 0 <= i < calls.len() implies (#[trigger] calls[i]).0 == plan.0[i]
                                && (i < calls.len() - 1 ==> calls[i].1 is Ok) by {
                                assert(calls[i] == visitor.log()[n0 + i]);
                                if i < done.len() {
                                    assert(visitor.log()[n0 + i] == log1[n0 + i]);
                                }
                                assert(plan.0[i] == plan.0.take(d2.len() as int)[i]);
                            }
                            assert(visitor.log().take(n0) =~= log0) by {
                                assert(visitor.log().take(n0) =~= log1.take(n0));
                            }
                            assert forall|i: int| 0 <= i < d2.len() implies (#[trigger] visitor.log()[n0 + i]).0 == d2[i] by {
                                if i < done.len() {
                                    assert(visitor.log()[n0 + i] == log1[n0 + i]);
                                }
                            }
                        }
                        if a.is_err() {
                            return a;
                        }
                        proof {
                            done = done.push(call_view(call));
                        }
                    },
                    None => {},
                }
                if fin {
                    proof {
                        let calls = visitor.log().skip(n0);
                        assert(calls.len() == done.len());
                        assert(plan.0 =~= done);
                        assert forall|i: int| 0 <= i < calls.len() implies (#[trigger] calls[i]).0 == plan.0[i] && calls[i].1 is Ok by {
                            assert(calls[i] == visitor.log()[n0 + i]);
                        }
                    }
                    return Ok(());
                }
            },
        }
    }
}

} // verus!
