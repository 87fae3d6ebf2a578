//! Reading of displacement meshes and displacement textures (the Displacement extension).

use vstd::prelude::*;
use crate::error::Lib3mfError;
use crate::model::materials::{Channel, Displacement2D, FilterMode, TileStyle};
use crate::model::mesh::{DisplacementMesh, DisplacementTriangle, GradientVector, NormalVector, Vertex};
use crate::model::resources::ResourceId;
use crate::parser::crypto_parser::{ends_local, eof_error, moved_on};
use crate::parser::mesh_parser::{u32_ok, vertex_of};
use crate::parser::xml_parser::{
    AttrsView, EventView, NumberTable, NumbersView, XmlEvent, XmlParser, XmlTag, attr_f32, attr_u32, attr_u32_ok,
    attrs_view, eof_message, get_attribute_f32, get_attribute_u32, local_name, local_name_of, numbers_view,
};
use crate::text::same_text;

verus! {

/// Items read from the tags of local name `item` of an element whose end has local name
/// `end`, from position `pos` on, added to `acc`, and the position after its end.
pub open spec fn local_items_scan<T>(evs: Seq<EventView>, err: Option<Seq<char>>, pos: int, item: Seq<char>, end: Seq<char>, eof: Seq<char>, read: spec_fn(AttrsView) -> Result<T, Seq<char>>, acc: Seq<T>) -> Result<(Seq<T>, int), Seq<char>>
    decreases evs.len() - pos,
{
    if pos < 0 || pos >= evs.len() {
        Err(eof_message(err, eof))
    } else {
        match evs[pos] {
            EventView::End(n) => if local_name(n) == end {
                Ok((acc, pos + 1))
            } else {
                local_items_scan(evs, err, pos + 1, item, end, eof, read, acc)
            },
            EventView::Start(g) => if local_name(g.0) == item {
                match read(g.1) {
                    Ok(v) => local_items_scan(evs, err, pos + 1, item, end, eof, read, acc.push(v)),
                    Err(m) => Err(m),
                }
            } else {
                local_items_scan(evs, err, pos + 1, item, end, eof, read, acc)
            },
            EventView::Empty(g) => if local_name(g.0) == item {
                match read(g.1) {
                    Ok(v) => local_items_scan(evs, err, pos + 1, item, end, eof, read, acc.push(v)),
                    Err(m) => Err(m),
                }
            } else {
                local_items_scan(evs, err, pos + 1, item, end, eof, read, acc)
            },
            EventView::Text(_) | EventView::CData(_) => local_items_scan(evs, err, pos + 1, item, end, eof, read, acc),
        }
    }
}

/// Whether a tag's local name is `name`.
pub(crate) fn has_local_name(n: &String, name: &str) -> (r: bool)
    ensures
        r == (local_name(n@) == name@),
{
    let ln = local_name_of(n.as_str());
    same_text(ln.as_str(), name)
}

/// What a displacement `<triangle>` tag gives: three vertices, required, and the
/// displacement coordinates and properties where present and well formed.
pub open spec fn displacement_triangle_of(a: AttrsView) -> Result<DisplacementTriangle, Seq<char>> {
    match attr_u32(a, "v1"@) {
        Err(m) => Err(m),
        Ok(v1) => match attr_u32(a, "v2"@) {
            Err(m) => Err(m),
            Ok(v2) => match attr_u32(a, "v3"@) {
                Err(m) => Err(m),
                Ok(v3) => Ok(DisplacementTriangle {
                    v1,
                    v2,
                    v3,
                    d1: attr_u32_ok(a, "d1"@),
                    d2: attr_u32_ok(a, "d2"@),
                    d3: attr_u32_ok(a, "d3"@),
                    p1: attr_u32_ok(a, "p1"@),
                    p2: attr_u32_ok(a, "p2"@),
                    p3: attr_u32_ok(a, "p3"@),
                    pid: attr_u32_ok(a, "pid"@),
                }),
            },
        },
    }
}

/// What a `<normvector>` tag gives: its three components, required.
pub open spec fn normal_of(a: AttrsView, t: NumbersView) -> Result<NormalVector, Seq<char>> {
    match attr_f32(a, "nx"@, t) {
        Err(m) => Err(m),
        Ok(nx) => match attr_f32(a, "ny"@, t) {
            Err(m) => Err(m),
            Ok(ny) => match attr_f32(a, "nz"@, t) {
                Err(m) => Err(m),
                Ok(nz) => Ok(NormalVector { nx, ny, nz }),
            },
        },
    }
}

/// What a `<gradient>` tag gives: its two components, required.
pub open spec fn gradient_of(a: AttrsView, t: NumbersView) -> Result<GradientVector, Seq<char>> {
    match attr_f32(a, "gu"@, t) {
        Err(m) => Err(m),
        Ok(gu) => match attr_f32(a, "gv"@, t) {
            Err(m) => Err(m),
            Ok(gv) => Ok(GradientVector { gu, gv }),
        },
    }
}

/// The gradients of the `<disp2dgroup>` elements of a `<disp2dgroups>` element from
/// position `pos` on, added to `gs`, and the position after its end.
pub open spec fn groups_scan(evs: Seq<EventView>, err: Option<Seq<char>>, pos: int, t: NumbersView, gs: Seq<GradientVector>) -> Result<(Seq<GradientVector>, int), Seq<char>>
    decreases evs.len() - pos,
{
    if pos < 0 || pos >= evs.len() {
        Err(eof_message(err, "Unexpected EOF in disp2dgroups"@))
    } else if ends_local(evs[pos], "disp2dgroups"@) {
        Ok((gs, pos + 1))
    } else {
        match evs[pos] {
            EventView::Start(g) => if local_name(g.0) == "disp2dgroup"@ {
                match local_items_scan(evs, err, pos + 1, "gradient"@, "disp2dgroup"@, "Unexpected EOF in disp2dgroup"@, |a: AttrsView| gradient_of(a, t), gs) {
                    Ok((v, p)) => if pos < p <= evs.len() { groups_scan(evs, err, p, t, v) } else { Err(Seq::empty()) },
                    Err(m) => Err(m),
                }
            } else {
                groups_scan(evs, err, pos + 1, t, gs)
            },
            _ => groups_scan(evs, err, pos + 1, t, gs),
        }
    }
}

/// A displacement mesh as values: vertices, triangles, normals, gradients.
pub type DisplacementMeshView = (Seq<Vertex>, Seq<DisplacementTriangle>, Seq<NormalVector>, Seq<GradientVector>);

/// A displacement mesh as values (no gradients as none).
pub open spec fn displacement_mesh_view(m: DisplacementMesh) -> DisplacementMeshView {
    (m.vertices@, m.triangles@, m.normals@, match m.gradients {
        Some(g) => g@,
        None => Seq::empty(),
    })
}

/// A displacement mesh read from position `pos` on, starting from `m`, and the position
/// after its end: each part replaces what an earlier one of its kind gave.
pub open spec fn displacement_mesh_scan(evs: Seq<EventView>, err: Option<Seq<char>>, pos: int, t: NumbersView, m: DisplacementMeshView) -> Result<(DisplacementMeshView, int), Seq<char>>
    decreases evs.len() - pos,
{
    if pos < 0 || pos >= evs.len() {
        Err(eof_message(err, "Unexpected EOF in displacementmesh"@))
    } else if ends_local(evs[pos], "displacementmesh"@) {
        Ok((m, pos + 1))
    } else {
        match evs[pos] {
            EventView::Start(g) => {
                let ln = local_name(g.0);
                if ln == "vertices"@ {
                    match local_items_scan(evs, err, pos + 1, "vertex"@, "vertices"@, "Unexpected EOF in vertices"@, |a: AttrsView| vertex_of(a, t), Seq::empty()) {
                        Ok((v, p)) => if pos < p <= evs.len() { displacement_mesh_scan(evs, err, p, t, (v, m.1, m.2, m.3)) } else { Err(Seq::empty()) },
                        Err(e) => Err(e),
                    }
                } else if ln == "triangles"@ {
                    match local_items_scan(evs, err, pos + 1, "triangle"@, "triangles"@, "Unexpected EOF in triangles"@, |a: AttrsView| displacement_triangle_of(a), Seq::empty()) {
                        Ok((v, p)) => if pos < p <= evs.len() { displacement_mesh_scan(evs, err, p, t, (m.0, v, m.2, m.3)) } else { Err(Seq::empty()) },
                        Err(e) => Err(e),
                    }
                } else if ln == "normvectors"@ {
                    match local_items_scan(evs, err, pos + 1, "normvector"@, "normvectors"@, "Unexpected EOF in normvectors"@, |a: AttrsView| normal_of(a, t), Seq::empty()) {
                        Ok((v, p)) => if pos < p <= evs.len() { displacement_mesh_scan(evs, err, p, t, (m.0, m.1, v, m.3)) } else { Err(Seq::empty()) },
                        Err(e) => Err(e),
                    }
                } else if ln == "disp2dgroups"@ {
                    match groups_scan(evs, err, pos + 1, t, Seq::empty()) {
                        Ok((v, p)) => if pos < p <= evs.len() { displacement_mesh_scan(evs, err, p, t, (m.0, m.1, m.2, v)) } else { Err(Seq::empty()) },
                        Err(e) => Err(e),
                    }
                } else {
                    displacement_mesh_scan(evs, err, pos + 1, t, m)
                }
            },
            _ => displacement_mesh_scan(evs, err, pos + 1, t, m),
        }
    }
}

fn read_vertex(tag: &XmlTag, numbers: &NumberTable) -> (r: Result<Vertex, Lib3mfError>)
    ensures
        match vertex_of(attrs_view(tag.attrs@), numbers_view(*numbers)) {
            Ok(v) => r == Ok::<Vertex, Lib3mfError>(v),
            Err(m) => r matches Err(Lib3mfError::Validation(x)) && x@ == m,
        },
{
    let x = match get_attribute_f32(tag, "x", numbers) {
        Ok(v) => v,
        Err(e) => return Err(e),
    };
    let y = match get_attribute_f32(tag, "y", numbers) {
        Ok(v) => v,
        Err(e) => return Err(e),
    };
    let z = match get_attribute_f32(tag, "z", numbers) {
        Ok(v) => v,
        Err(e) => return Err(e),
    };
    Ok(Vertex { x, y, z })
}

fn read_triangle(tag: &XmlTag) -> (r: Result<DisplacementTriangle, Lib3mfError>)
    ensures
        match displacement_triangle_of(attrs_view(tag.attrs@)) {
            Ok(v) => r == Ok::<DisplacementTriangle, Lib3mfError>(v),
            Err(m) => r matches Err(Lib3mfError::Validation(x)) && x@ == m,
        },
{
    let v1 = match get_attribute_u32(tag, "v1") {
        Ok(v) => v,
        Err(e) => return Err(e),
    };
    let v2 = match get_attribute_u32(tag, "v2") {
        Ok(v) => v,
        Err(e) => return Err(e),
    };
    let v3 = match get_attribute_u32(tag, "v3") {
        Ok(v) => v,
        Err(e) => return Err(e),
    };
    Ok(DisplacementTriangle {
        v1,
        v2,
        v3,
        d1: u32_ok(tag, "d1"),
        d2: u32_ok(tag, "d2"),
        d3: u32_ok(tag, "d3"),
        p1: u32_ok(tag, "p1"),
        p2: u32_ok(tag, "p2"),
        p3: u32_ok(tag, "p3"),
        pid: u32_ok(tag, "pid"),
    })
}

fn read_normal(tag: &XmlTag, numbers: &NumberTable) -> (r: Result<NormalVector, Lib3mfError>)
    ensures
        match normal_of(attrs_view(tag.attrs@), numbers_view(*numbers)) {
            Ok(v) => r == Ok::<NormalVector, Lib3mfError>(v),
            Err(m) => r matches Err(Lib3mfError::Validation(x)) && x@ == m,
        },
{
    let nx = match get_attribute_f32(tag, "nx", numbers) {
        Ok(v) => v,
        Err(e) => return Err(e),
    };
    let ny = match get_attribute_f32(tag, "ny", numbers) {
        Ok(v) => v,
        Err(e) => return Err(e),
    };
    let nz = match get_attribute_f32(tag, "nz", numbers) {
        Ok(v) => v,
        Err(e) => return Err(e),
    };
    Ok(NormalVector { nx, ny, nz })
}

fn read_gradient(tag: &XmlTag, numbers: &NumberTable) -> (r: Result<GradientVector, Lib3mfError>)
    ensures
        match gradient_of(attrs_view(tag.attrs@), numbers_view(*numbers)) {
            Ok(v) => r == Ok::<GradientVector, Lib3mfError>(v),
            Err(m) => r matches Err(Lib3mfError::Validation(x)) && x@ == m,
        },
{
    let gu = match get_attribute_f32(tag, "gu", numbers) {
        Ok(v) => v,
        Err(e) => return Err(e),
    };
    let gv = match get_attribute_f32(tag, "gv", numbers) {
        Ok(v) => v,
        Err(e) => return Err(e),
    };
    Ok(GradientVector { gu, gv })
}

fn parse_displacement_vertices(parser: &mut XmlParser, numbers: &NumberTable) -> (r: Result<Vec<Vertex>, Lib3mfError>)
    requires
        old(parser).wf(),
    ensures
        moved_on(*old(parser), *final(parser)),
        r is Ok ==> old(parser).pos < final(parser).pos,
        match local_items_scan(old(parser).events_of(), old(parser).error_of(), old(parser).pos as int, "vertex"@, "vertices"@,
            "Unexpected EOF in vertices"@, |a: AttrsView| vertex_of(a, numbers_view(*numbers)), Seq::empty()) {
            Ok((v, p)) => r matches Ok(x) && x@ == v && final(parser).pos == p,
            Err(m) => r matches Err(Lib3mfError::Validation(x)) && x@ == m,
        },
{
    let ghost evs = parser.events_of();
    let ghost err = parser.error_of();
    let ghost start = parser.pos as int;
    let ghost read = |a: AttrsView| vertex_of(a, numbers_view(*numbers));
    let mut out: Vec<Vertex> = Vec::new();
    loop
        invariant
            moved_on(*old(parser), *parser),
            start == old(parser).pos,
            evs == parser.events_of(),
            err == parser.error_of(),
            start <= parser.pos,
            read == (|a: AttrsView| vertex_of(a, numbers_view(*numbers))),
            local_items_scan(evs, err, start, "vertex"@, "vertices"@, "Unexpected EOF in vertices"@, read, Seq::empty())
                == local_items_scan(evs, err, parser.pos as int, "vertex"@, "vertices"@, "Unexpected EOF in vertices"@, read, out@),
        decreases evs.len() - parser.pos,
    {
        let ev = match parser.read_next_event() {
            Ok(Some(e)) => e,
            Ok(None) => return Err(eof_error(parser, "Unexpected EOF in vertices")),
            Err(e) => return Err(e),
        };
        match ev {
            XmlEvent::End(n) => {
                if has_local_name(&n, "vertices") {
                    return Ok(out);
                }
            },
            XmlEvent::Start(g) | XmlEvent::Empty(g) => {
                if has_local_name(&g.name, "vertex") {
                    match read_vertex(&g, numbers) {
                        Ok(v) => out.push(v),
                        Err(e) => return Err(e),
                    }
                }
            },
            XmlEvent::Text(_) | XmlEvent::CData(_) => {},
        }
    }
}

fn parse_displacement_triangles(parser: &mut XmlParser) -> (r: Result<Vec<DisplacementTriangle>, Lib3mfError>)
    requires
        old(parser).wf(),
    ensures
        moved_on(*old(parser), *final(parser)),
        r is Ok ==> old(parser).pos < final(parser).pos,
        match local_items_scan(old(parser).events_of(), old(parser).error_of(), old(parser).pos as int, "triangle"@, "triangles"@,
            "Unexpected EOF in triangles"@, |a: AttrsView| displacement_triangle_of(a), Seq::empty()) {
            Ok((v, p)) => r matches Ok(x) && x@ == v && final(parser).pos == p,
            Err(m) => r matches Err(Lib3mfError::Validation(x)) && x@ == m,
        },
{
    let ghost evs = parser.events_of();
    let ghost err = parser.error_of();
    let ghost start = parser.pos as int;
    let ghost read = |a: AttrsView| displacement_triangle_of(a);
    let mut out: Vec<DisplacementTriangle> = Vec::new();
    loop
        invariant
            moved_on(*old(parser), *parser),
            start == old(parser).pos,
            evs == parser.events_of(),
            err == parser.error_of(),
            start <= parser.pos,
            read == (|a: AttrsView| displacement_triangle_of(a)),
            local_items_scan(evs, err, start, "triangle"@, "triangles"@, "Unexpected EOF in triangles"@, read, Seq::empty())
                == local_items_scan(evs, err, parser.pos as int, "triangle"@, "triangles"@, "Unexpected EOF in triangles"@, read, out@),
        decreases evs.len() - parser.pos,
    {
        let ev = match parser.read_next_event() {
            Ok(Some(e)) => e,
            Ok(None) => return Err(eof_error(parser, "Unexpected EOF in triangles")),
            Err(e) => return Err(e),
        };
        match ev {
            XmlEvent::End(n) => {
                if has_local_name(&n, "triangles") {
                    return Ok(out);
                }
            },
            XmlEvent::Start(g) | XmlEvent::Empty(g) => {
                if has_local_name(&g.name, "triangle") {
                    match read_triangle(&g) {
                        Ok(v) => out.push(v),
                        Err(e) => return Err(e),
                    }
                }
            },
            XmlEvent::Text(_) | XmlEvent::CData(_) => {},
        }
    }
}

fn parse_normal_vectors(parser: &mut XmlParser, numbers: &NumberTable) -> (r: Result<Vec<NormalVector>, Lib3mfError>)
    requires
        old(parser).wf(),
    ensures
        moved_on(*old(parser), *final(parser)),
        r is Ok ==> old(parser).pos < final(parser).pos,
        match local_items_scan(old(parser).events_of(), old(parser).error_of(), old(parser).pos as int, "normvector"@, "normvectors"@,
            "Unexpected EOF in normvectors"@, |a: AttrsView| normal_of(a, numbers_view(*numbers)), Seq::empty()) {
            Ok((v, p)) => r matches Ok(x) && x@ == v && final(parser).pos == p,
            Err(m) => r matches Err(Lib3mfError::Validation(x)) && x@ == m,
        },
{
    let ghost evs = parser.events_of();
    let ghost err = parser.error_of();
    let ghost start = parser.pos as int;
    let ghost read = |a: AttrsView| normal_of(a, numbers_view(*numbers));
    let mut out: Vec<NormalVector> = Vec::new();
    loop
        invariant
            moved_on(*old(parser), *parser),
            start == old(parser).pos,
            evs == parser.events_of(),
            err == parser.error_of(),
            start <= parser.pos,
            read == (|a: AttrsView| normal_of(a, numbers_view(*numbers))),
            local_items_scan(evs, err, start, "normvector"@, "normvectors"@, "Unexpected EOF in normvectors"@, read, Seq::empty())
                == local_items_scan(evs, err, parser.pos as int, "normvector"@, "normvectors"@, "Unexpected EOF in normvectors"@, read, out@),
        decreases evs.len() - parser.pos,
    {
        let ev = match parser.read_next_event() {
            Ok(Some(e)) => e,
            Ok(None) => return Err(eof_error(parser, "Unexpected EOF in normvectors")),
            Err(e) => return Err(e),
        };
        match ev {
            XmlEvent::End(n) => {
                if has_local_name(&n, "normvectors") {
                    return Ok(out);
                }
            },
            XmlEvent::Start(g) | XmlEvent::Empty(g) => {
                if has_local_name(&g.name, "normvector") {
                    match read_normal(&g, numbers) {
                        Ok(v) => out.push(v),
                        Err(e) => return Err(e),
                    }
                }
            },
            XmlEvent::Text(_) | XmlEvent::CData(_) => {},
        }
    }
}

fn parse_gradients(parser: &mut XmlParser, numbers: &NumberTable, out: &mut Vec<GradientVector>) -> (r: Result<(), Lib3mfError>)
    requires
        old(parser).wf(),
    ensures
        moved_on(*old(parser), *final(parser)),
        r is Ok ==> old(parser).pos < final(parser).pos,
        match local_items_scan(old(parser).events_of(), old(parser).error_of(), old(parser).pos as int, "gradient"@, "disp2dgroup"@,
            "Unexpected EOF in disp2dgroup"@, |a: AttrsView| gradient_of(a, numbers_view(*numbers)), old(out)@) {
            Ok((v, p)) => r is Ok && final(out)@ == v && final(parser).pos == p,
            Err(m) => r matches Err(Lib3mfError::Validation(x)) && x@ == m,
        },
{
    let ghost evs = parser.events_of();
    let ghost err = parser.error_of();
    let ghost start = parser.pos as int;
    let ghost read = |a: AttrsView| gradient_of(a, numbers_view(*numbers));
    loop
        invariant
            moved_on(*old(parser), *parser),
            start == old(parser).pos,
            evs == parser.events_of(),
            err == parser.error_of(),
            start <= parser.pos,
            read == (|a: AttrsView| gradient_of(a, numbers_view(*numbers))),
            local_items_scan(evs, err, start, "gradient"@, "disp2dgroup"@, "Unexpected EOF in disp2dgroup"@, read, old(out)@)
                == local_items_scan(evs, err, parser.pos as int, "gradient"@, "disp2dgroup"@, "Unexpected EOF in disp2dgroup"@, read, out@),
        decreases evs.len() - parser.pos,
    {
        let ev = match parser.read_next_event() {
            Ok(Some(e)) => e,
            Ok(None) => return Err(eof_error(parser, "Unexpected EOF in disp2dgroup")),
            Err(e) => return Err(e),
        };
        match ev {
            XmlEvent::End(n) => {
                if has_local_name(&n, "disp2dgroup") {
                    return Ok(());
                }
            },
            XmlEvent::Start(g) | XmlEvent::Empty(g) => {
                if has_local_name(&g.name, "gradient") {
                    match read_gradient(&g, numbers) {
                        Ok(v) => out.push(v),
                        Err(e) => return Err(e),
                    }
                }
            },
            XmlEvent::Text(_) | XmlEvent::CData(_) => {},
        }
    }
}

fn parse_disp2d_groups(parser: &mut XmlParser, numbers: &NumberTable) -> (r: Result<Vec<GradientVector>, Lib3mfError>)
    requires
        old(parser).wf(),
    ensures
        moved_on(*old(parser), *final(parser)),
        r is Ok ==> old(parser).pos < final(parser).pos,
        match groups_scan(old(parser).events_of(), old(parser).error_of(), old(parser).pos as int, numbers_view(*numbers), Seq::empty()) {
            Ok((v, p)) => r matches Ok(x) && x@ == v && final(parser).pos == p,
            Err(m) => r matches Err(Lib3mfError::Validation(x)) && x@ == m,
        },
{
    let ghost evs = parser.events_of();
    let ghost err = parser.error_of();
    let ghost start = parser.pos as int;
    let ghost tv = numbers_view(*numbers);
    let mut gradients: Vec<GradientVector> = Vec::new();
    loop
        invariant
            moved_on(*old(parser), *parser),
            start == old(parser).pos,
            evs == parser.events_of(),
            err == parser.error_of(),
            tv == numbers_view(*numbers),
            start <= parser.pos,
            groups_scan(evs, err, start, tv, Seq::empty()) == groups_scan(evs, err, parser.pos as int, tv, gradients@),
        decreases evs.len() - parser.pos,
    {
        let ev = match parser.read_next_event() {
            Ok(Some(e)) => e,
            Ok(None) => return Err(eof_error(parser, "Unexpected EOF in disp2dgroups")),
            Err(e) => return Err(e),
        };
        match ev {
            XmlEvent::End(n) => {
                if has_local_name(&n, "disp2dgroups") {
                    return Ok(gradients);
                }
            },
            XmlEvent::Start(g) => {
                if has_local_name(&g.name, "disp2dgroup") {
                    match parse_gradients(parser, numbers, &mut gradients) {
                        Ok(()) => {},
                        Err(e) => return Err(e),
                    }
                }
            },
            _ => {},
        }
    }
}

/// An empty displacement mesh as values.
pub open spec fn empty_displacement_mesh() -> DisplacementMeshView {
    (Seq::empty(), Seq::empty(), Seq::empty(), Seq::empty())
}

/// Reads the content of a `<displacementmesh>` element whose start tag was just read: its
/// vertices, triangles, normal vectors and gradients (of its displacement groups; none
/// when there are none), elements known by their local names.
pub fn parse_displacement_mesh(parser: &mut XmlParser, numbers: &NumberTable) -> (r: Result<DisplacementMesh, Lib3mfError>)
    requires
        old(parser).wf(),
    ensures
        moved_on(*old(parser), *final(parser)),
        r is Ok ==> old(parser).pos < final(parser).pos,
        match displacement_mesh_scan(old(parser).events_of(), old(parser).error_of(), old(parser).pos as int, numbers_view(*numbers), empty_displacement_mesh()) {
            Ok((m, p)) => r matches Ok(x) && displacement_mesh_view(x) == m && (x.gradients matches Some(g) ==> g@.len() > 0)
                && final(parser).pos == p,
            Err(m) => r matches Err(Lib3mfError::Validation(x)) && x@ == m,
        },
{
    let ghost evs = parser.events_of();
    let ghost err = parser.error_of();
    let ghost start = parser.pos as int;
    let ghost tv = numbers_view(*numbers);
    let mut vertices: Vec<Vertex> = Vec::new();
    let mut triangles: Vec<DisplacementTriangle> = Vec::new();
    let mut normals: Vec<NormalVector> = Vec::new();
    let mut gradients: Vec<GradientVector> = Vec::new();
    loop
        invariant
            moved_on(*old(parser), *parser),
            start == old(parser).pos,
            evs == parser.events_of(),
            err == parser.error_of(),
            tv == numbers_view(*numbers),
            start <= parser.pos,
            displacement_mesh_scan(evs, err, start, tv, empty_displacement_mesh())
                == displacement_mesh_scan(evs, err, parser.pos as int, tv, (vertices@, triangles@, normals@, gradients@)),
        decreases evs.len() - parser.pos,
    {
        let ev = match parser.read_next_event() {
            Ok(Some(e)) => e,
            Ok(None) => return Err(eof_error(parser, "Unexpected EOF in displacementmesh")),
            Err(e) => return Err(e),
        };
        match ev {
            XmlEvent::End(n) => {
                if has_local_name(&n, "displacementmesh") {
                    let gradients = if gradients.len() == 0 {
                        None
                    } else {
                        Some(gradients)
                    };
                    let m = DisplacementMesh { vertices, triangles, normals, gradients };
                    proof {
                        assert(displacement_mesh_view(m).3 =~= (if gradients is None { Seq::<GradientVector>::empty() } else { gradients->0@ }));
                    }
                    return Ok(m);
                }
            },
            XmlEvent::Start(g) => {
                let ln = local_name_of(g.name.as_str());
                if same_text(ln.as_str(), "vertices") {
                    match parse_displacement_vertices(parser, numbers) {
                        Ok(v) => vertices = v,
                        Err(e) => return Err(e),
                    }
                } else if same_text(ln.as_str(), "triangles") {
                    match parse_displacement_triangles(parser) {
                        Ok(v) => triangles = v,
                        Err(e) => return Err(e),
                    }
                } else if same_text(ln.as_str(), "normvectors") {
                    match parse_normal_vectors(parser, numbers) {
                        Ok(v) => normals = v,
                        Err(e) => return Err(e),
                    }
                } else if same_text(ln.as_str(), "disp2dgroups") {
                    match parse_disp2d_groups(parser, numbers) {
                        Ok(v) => gradients = v,
                        Err(e) => return Err(e),
                    }
                }
            },
            _ => {},
        }
    }
}

/// The position after the end of the `<displacement2d>` element whose start is just
/// before `pos`.
pub open spec fn displacement_2d_end(evs: Seq<EventView>, err: Option<Seq<char>>, pos: int) -> Result<int, Seq<char>>
    decreases evs.len() - pos,
{
    if pos < 0 || pos >= evs.len() {
        Err(eof_message(err, "Unexpected EOF in displacement2d"@))
    } else if ends_local(evs[pos], "displacement2d"@) {
        Ok(pos + 1)
    } else {
        displacement_2d_end(evs, err, pos + 1)
    }
}

/// Reads a `<displacement2d>` element whose start tag was just read, with the attributes
/// of that tag given: it is skipped to its end.
pub fn parse_displacement_2d(parser: &mut XmlParser, id: ResourceId, path: String, channel: Channel, tile_style: TileStyle, filter: FilterMode, height: u32, offset: u32) -> (r: Result<Displacement2D, Lib3mfError>)
    requires
        old(parser).wf(),
    ensures
        moved_on(*old(parser), *final(parser)),
        r is Ok ==> old(parser).pos < final(parser).pos,
        match displacement_2d_end(old(parser).events_of(), old(parser).error_of(), old(parser).pos as int) {
            Ok(p) => r matches Ok(d) && d.id == id && d.path@ == path@ && d.channel == channel && d.tile_style == tile_style
                && d.filter == filter && d.height == height && d.offset == offset && final(parser).pos == p,
            Err(m) => r matches Err(Lib3mfError::Validation(x)) && x@ == m,
        },
{
    let ghost evs = parser.events_of();
    let ghost err = parser.error_of();
    let ghost start = parser.pos as int;
    loop
        invariant
            moved_on(*old(parser), *parser),
            start == old(parser).pos,
            evs == parser.events_of(),
            err == parser.error_of(),
            start <= parser.pos,
            displacement_2d_end(evs, err, start) == displacement_2d_end(evs, err, parser.pos as int),
        decreases evs.len() - parser.pos,
    {
        let ev = match parser.read_next_event() {
            Ok(Some(e)) => e,
            Ok(None) => return Err(eof_error(parser, "Unexpected EOF in displacement2d")),
            Err(e) => return Err(e),
        };
        if let XmlEvent::End(n) = ev {
            if has_local_name(&n, "displacement2d") {
                return Ok(Displacement2D { id, path, channel, tile_style, filter, height, offset });
            }
        }
    }
}

} // verus!
