//! Reading of `<mesh>` elements: vertices, triangles and beam lattices.

use vstd::prelude::*;
use crate::error::Lib3mfError;
use crate::model::mesh::{Beam, BeamLattice, BeamSet, CapMode, ClippingMode, Mesh, Triangle, Vertex};
use crate::parser::crypto_parser::{ends_local, eof_error, moved_on};
use crate::parser::xml_parser::{
    AttrsView, EventView, NumberTable, NumbersView, XmlEvent, XmlParser, XmlTag, attr_f32, attr_f32_or, attr_text,
    attr_u32, attr_u32_ok, attrs_view, eof_message, get_attribute, get_attribute_f32, get_attribute_u32,
    local_name, local_name_of, numbers_view, opt_view,
};
use crate::text::same_text;

verus! {

/// What a `<vertex>` tag gives: its coordinates, each required.
pub open spec fn vertex_of(a: AttrsView, t: NumbersView) -> Result<Vertex, Seq<char>> {
    match attr_f32(a, "x"@, t) {
        Err(m) => Err(m),
        Ok(x) => match attr_f32(a, "y"@, t) {
            Err(m) => Err(m),
            Ok(y) => match attr_f32(a, "z"@, t) {
                Err(m) => Err(m),
                Ok(z) => Ok(Vertex { x, y, z }),
            },
        },
    }
}

/// What a `<triangle>` tag gives: its three vertices, required, and its properties where
/// present and well formed.
pub open spec fn triangle_of(a: AttrsView) -> Result<Triangle, Seq<char>> {
    match attr_u32(a, "v1"@) {
        Err(m) => Err(m),
        Ok(v1) => match attr_u32(a, "v2"@) {
            Err(m) => Err(m),
            Ok(v2) => match attr_u32(a, "v3"@) {
                Err(m) => Err(m),
                Ok(v3) => Ok(Triangle {
                    v1,
                    v2,
                    v3,
                    p1: attr_u32_ok(a, "p1"@),
                    p2: attr_u32_ok(a, "p2"@),
                    p3: attr_u32_ok(a, "p3"@),
                    pid: attr_u32_ok(a, "pid"@),
                }),
            },
        },
    }
}

/// The vertices of a `<vertices>` element from position `pos` on, added to `vs`, and the
/// position after its end.
pub open spec fn vertices_scan(evs: Seq<EventView>, err: Option<Seq<char>>, pos: int, t: NumbersView, vs: Seq<Vertex>) -> Result<(Seq<Vertex>, int), Seq<char>>
    decreases evs.len() - pos,
{
    if pos < 0 || pos >= evs.len() {
        Err(eof_message(err, "Unexpected EOF in vertices"@))
    } else {
        match evs[pos] {
            EventView::End(n) => if n == "vertices"@ { Ok((vs, pos + 1)) } else { vertices_scan(evs, err, pos + 1, t, vs) },
            EventView::Start(g) => if g.0 == "vertex"@ {
                match vertex_of(g.1, t) {
                    Ok(v) => vertices_scan(evs, err, pos + 1, t, vs.push(v)),
                    Err(m) => Err(m),
                }
            } else {
                vertices_scan(evs, err, pos + 1, t, vs)
            },
            EventView::Empty(g) => if g.0 == "vertex"@ {
                match vertex_of(g.1, t) {
                    Ok(v) => vertices_scan(evs, err, pos + 1, t, vs.push(v)),
                    Err(m) => Err(m),
                }
            } else {
                vertices_scan(evs, err, pos + 1, t, vs)
            },
            EventView::Text(_) | EventView::CData(_) => vertices_scan(evs, err, pos + 1, t, vs),
        }
    }
}

/// The triangles of a `<triangles>` element from position `pos` on, added to `ts`, and
/// the position after its end.
pub open spec fn triangles_scan(evs: Seq<EventView>, err: Option<Seq<char>>, pos: int, ts: Seq<Triangle>) -> Result<(Seq<Triangle>, int), Seq<char>>
    decreases evs.len() - pos,
{
    if pos < 0 || pos >= evs.len() {
        Err(eof_message(err, "Unexpected EOF in triangles"@))
    } else {
        match evs[pos] {
            EventView::End(n) => if n == "triangles"@ { Ok((ts, pos + 1)) } else { triangles_scan(evs, err, pos + 1, ts) },
            EventView::Start(g) => if g.0 == "triangle"@ {
                match triangle_of(g.1) {
                    Ok(v) => triangles_scan(evs, err, pos + 1, ts.push(v)),
                    Err(m) => Err(m),
                }
            } else {
                triangles_scan(evs, err, pos + 1, ts)
            },
            EventView::Empty(g) => if g.0 == "triangle"@ {
                match triangle_of(g.1) {
                    Ok(v) => triangles_scan(evs, err, pos + 1, ts.push(v)),
                    Err(m) => Err(m),
                }
            } else {
                triangles_scan(evs, err, pos + 1, ts)
            },
            EventView::Text(_) | EventView::CData(_) => triangles_scan(evs, err, pos + 1, ts),
        }
    }
}

fn read_vertex(tag: &XmlTag, numbers: &NumberTable) -> (r: Result<Vertex, Lib3mfError>)
    ensures
        match vertex_of(attrs_view(tag.attrs@), numbers_view(*numbers)) {
            Ok(v) => r == Ok::<Vertex, Lib3mfError>(v),
            Err(m) => r matches Err(Lib3mfError::Validation(x)) && x@ == m,
        },
{
    let x = match get_attribute_f32(tag, "x", numbers) {
        Ok(v) => v,
        Err(e) => return Err(e),
    };
    let y = match get_attribute_f32(tag, "y", numbers) {
        Ok(v) => v,
        Err(e) => return Err(e),
    };
    let z = match get_attribute_f32(tag, "z", numbers) {
        Ok(v) => v,
        Err(e) => return Err(e),
    };
    Ok(Vertex { x, y, z })
}

/// Attribute `name` as a `u32` where present and well formed.
pub(crate) fn u32_ok(tag: &XmlTag, name: &str) -> (r: Option<u32>)
    ensures
        r == attr_u32_ok(attrs_view(tag.attrs@), name@),
{
    match get_attribute_u32(tag, name) {
        Ok(v) => Some(v),
        Err(_) => None,
    }
}

fn read_triangle(tag: &XmlTag) -> (r: Result<Triangle, Lib3mfError>)
    ensures
        match triangle_of(attrs_view(tag.attrs@)) {
            Ok(v) => r == Ok::<Triangle, Lib3mfError>(v),
            Err(m) => r matches Err(Lib3mfError::Validation(x)) && x@ == m,
        },
{
    let v1 = match get_attribute_u32(tag, "v1") {
        Ok(v) => v,
        Err(e) => return Err(e),
    };
    let v2 = match get_attribute_u32(tag, "v2") {
        Ok(v) => v,
        Err(e) => return Err(e),
    };
    let v3 = match get_attribute_u32(tag, "v3") {
        Ok(v) => v,
        Err(e) => return Err(e),
    };
    Ok(Triangle { v1, v2, v3, p1: u32_ok(tag, "p1"), p2: u32_ok(tag, "p2"), p3: u32_ok(tag, "p3"), pid: u32_ok(tag, "pid") })
}

fn parse_vertices(parser: &mut XmlParser, vertices: &mut Vec<Vertex>, numbers: &NumberTable) -> (r: Result<(), Lib3mfError>)
    requires
        old(parser).wf(),
    ensures
        moved_on(*old(parser), *final(parser)),
        r is Ok ==> old(parser).pos < final(parser).pos,
        match vertices_scan(old(parser).events_of(), old(parser).error_of(), old(parser).pos as int, numbers_view(*numbers), old(vertices)@) {
            Ok((vs, p)) => r is Ok && final(vertices)@ == vs && final(parser).pos == p,
            Err(m) => r matches Err(Lib3mfError::Validation(x)) && x@ == m,
        },
{
    let ghost evs = parser.events_of();
    let ghost err = parser.error_of();
    let ghost start = parser.pos as int;
    let ghost tv = numbers_view(*numbers);
    loop
        invariant
            moved_on(*old(parser), *parser),
            start == old(parser).pos,
            evs == parser.events_of(),
            err == parser.error_of(),
            tv == numbers_view(*numbers),
            start <= parser.pos,
            vertices_scan(evs, err, start, tv, old(vertices)@) == vertices_scan(evs, err, parser.pos as int, tv, vertices@),
        decreases evs.len() - parser.pos,
    {
        let ev = match parser.read_next_event() {
            Ok(Some(e)) => e,
            Ok(None) => return Err(eof_error(parser, "Unexpected EOF in vertices")),
            Err(e) => return Err(e),
        };
        match ev {
            XmlEvent::End(n) => {
                if same_text(n.as_str(), "vertices") {
                    return Ok(());
                }
            },
            XmlEvent::Start(g) | XmlEvent::Empty(g) => {
                if same_text(g.name.as_str(), "vertex") {
                    match read_vertex(&g, numbers) {
                        Ok(v) => vertices.push(v),
                        Err(e) => return Err(e),
                    }
                }
            },
            XmlEvent::Text(_) | XmlEvent::CData(_) => {},
        }
    }
}

fn parse_triangles(parser: &mut XmlParser, triangles: &mut Vec<Triangle>) -> (r: Result<(), Lib3mfError>)
    requires
        old(parser).wf(),
    ensures
        moved_on(*old(parser), *final(parser)),
        r is Ok ==> old(parser).pos < final(parser).pos,
        match triangles_scan(old(parser).events_of(), old(parser).error_of(), old(parser).pos as int, old(triangles)@) {
            Ok((ts, p)) => r is Ok && final(triangles)@ == ts && final(parser).pos == p,
            Err(m) => r matches Err(Lib3mfError::Validation(x)) && x@ == m,
        },
{
    let ghost evs = parser.events_of();
    let ghost err = parser.error_of();
    let ghost start = parser.pos as int;
    loop
        invariant
            moved_on(*old(parser), *parser),
            start == old(parser).pos,
            evs == parser.events_of(),
            err == parser.error_of(),
            start <= parser.pos,
            triangles_scan(evs, err, start, old(triangles)@) == triangles_scan(evs, err, parser.pos as int, triangles@),
        decreases evs.len() - parser.pos,
    {
        let ev = match parser.read_next_event() {
            Ok(Some(e)) => e,
            Ok(None) => return Err(eof_error(parser, "Unexpected EOF in triangles")),
            Err(e) => return Err(e),
        };
        match ev {
            XmlEvent::End(n) => {
                if same_text(n.as_str(), "triangles") {
                    return Ok(());
                }
            },
            XmlEvent::Start(g) | XmlEvent::Empty(g) => {
                if same_text(g.name.as_str(), "triangle") {
                    match read_triangle(&g) {
                        Ok(v) => triangles.push(v),
                        Err(e) => return Err(e),
                    }
                }
            },
            XmlEvent::Text(_) | XmlEvent::CData(_) => {},
        }
    }
}

/// The cap mode a `cap` attribute names; spheres otherwise.
pub open spec fn cap_mode_of(a: AttrsView) -> CapMode {
    match attr_text(a, "cap"@) {
        Some(s) => if s == "hemisphere"@ {
            CapMode::Hemisphere
        } else if s == "butt"@ {
            CapMode::Butt
        } else {
            CapMode::Sphere
        },
        None => CapMode::Sphere,
    }
}

/// What a `<beam>` tag gives: its two vertices and first radius, required, the second
/// radius (the first where absent or malformed), its properties where present and well
/// formed, and its cap mode.
pub open spec fn beam_of(a: AttrsView, t: NumbersView) -> Result<Beam, Seq<char>> {
    match attr_u32(a, "v1"@) {
        Err(m) => Err(m),
        Ok(v1) => match attr_u32(a, "v2"@) {
            Err(m) => Err(m),
            Ok(v2) => match attr_f32(a, "r1"@, t) {
                Err(m) => Err(m),
                Ok(r1) => Ok(Beam {
                    v1,
                    v2,
                    r1,
                    r2: attr_f32_or(a, "r2"@, t, r1),
                    p1: attr_u32_ok(a, "p1"@),
                    p2: attr_u32_ok(a, "p2"@),
                    cap_mode: cap_mode_of(a),
                }),
            },
        },
    }
}

/// The beams of a `<beams>` element from position `pos` on, added to `bs`, and the
/// position after its end.
pub open spec fn beams_scan(evs: Seq<EventView>, err: Option<Seq<char>>, pos: int, t: NumbersView, bs: Seq<Beam>) -> Result<(Seq<Beam>, int), Seq<char>>
    decreases evs.len() - pos,
{
    if pos < 0 || pos >= evs.len() {
        Err(eof_message(err, "Unexpected EOF in beams"@))
    } else {
        match evs[pos] {
            EventView::End(n) => if n == "beams"@ { Ok((bs, pos + 1)) } else { beams_scan(evs, err, pos + 1, t, bs) },
            EventView::Start(g) => if g.0 == "beam"@ {
                match beam_of(g.1, t) {
                    Ok(v) => beams_scan(evs, err, pos + 1, t, bs.push(v)),
                    Err(m) => Err(m),
                }
            } else {
                beams_scan(evs, err, pos + 1, t, bs)
            },
            EventView::Empty(g) => if g.0 == "beam"@ {
                match beam_of(g.1, t) {
                    Ok(v) => beams_scan(evs, err, pos + 1, t, bs.push(v)),
                    Err(m) => Err(m),
                }
            } else {
                beams_scan(evs, err, pos + 1, t, bs)
            },
            EventView::Text(_) | EventView::CData(_) => beams_scan(evs, err, pos + 1, t, bs),
        }
    }
}

/// The beam indices of a `<beamset>` element from position `pos` on, added to `refs`,
/// and the position after its end.
pub open spec fn refs_scan(evs: Seq<EventView>, err: Option<Seq<char>>, pos: int, refs: Seq<u32>) -> Result<(Seq<u32>, int), Seq<char>>
    decreases evs.len() - pos,
{
    if pos < 0 || pos >= evs.len() {
        Err(eof_message(err, "Unexpected EOF in beamset"@))
    } else {
        match evs[pos] {
            EventView::End(n) => if n == "beamset"@ { Ok((refs, pos + 1)) } else { refs_scan(evs, err, pos + 1, refs) },
            EventView::Start(g) => if g.0 == "ref"@ {
                match attr_u32(g.1, "index"@) {
                    Ok(v) => refs_scan(evs, err, pos + 1, refs.push(v)),
                    Err(m) => Err(m),
                }
            } else {
                refs_scan(evs, err, pos + 1, refs)
            },
            EventView::Empty(g) => if g.0 == "ref"@ {
                match attr_u32(g.1, "index"@) {
                    Ok(v) => refs_scan(evs, err, pos + 1, refs.push(v)),
                    Err(m) => Err(m),
                }
            } else {
                refs_scan(evs, err, pos + 1, refs)
            },
            EventView::Text(_) | EventView::CData(_) => refs_scan(evs, err, pos + 1, refs),
        }
    }
}

/// A beam set as values: name, identifier, beam indices.
pub type BeamSetView = (Option<Seq<char>>, Option<Seq<char>>, Seq<u32>);

/// A beam set as values.
pub open spec fn beam_set_view(b: BeamSet) -> BeamSetView {
    (opt_view(b.name), opt_view(b.identifier), b.refs@)
}

/// Beam sets as values.
pub open spec fn beam_sets_view(v: Seq<BeamSet>) -> Seq<BeamSetView> {
    v.map_values(|b: BeamSet| beam_set_view(b))
}

/// The beam sets of a `<beamsets>` element from position `pos` on, added to `ss`, and the
/// position after its end.
pub open spec fn beam_sets_scan(evs: Seq<EventView>, err: Option<Seq<char>>, pos: int, ss: Seq<BeamSetView>) -> Result<(Seq<BeamSetView>, int), Seq<char>>
    decreases evs.len() - pos,
{
    if pos < 0 || pos >= evs.len() {
        Err(eof_message(err, "Unexpected EOF in beamsets"@))
    } else {
        match evs[pos] {
            EventView::End(n) => if n == "beamsets"@ { Ok((ss, pos + 1)) } else { beam_sets_scan(evs, err, pos + 1, ss) },
            EventView::Start(g) => if g.0 == "beamset"@ {
                match refs_scan(evs, err, pos + 1, Seq::empty()) {
                    Ok((refs, p)) => if pos < p <= evs.len() {
                        beam_sets_scan(evs, err, p, ss.push((attr_text(g.1, "name"@), attr_text(g.1, "identifier"@), refs)))
                    } else {
                        Err(Seq::empty())
                    },
                    Err(m) => Err(m),
                }
            } else {
                beam_sets_scan(evs, err, pos + 1, ss)
            },
            EventView::Empty(g) => if g.0 == "beamset"@ {
                beam_sets_scan(evs, err, pos + 1, ss.push((attr_text(g.1, "name"@), attr_text(g.1, "identifier"@), Seq::empty())))
            } else {
                beam_sets_scan(evs, err, pos + 1, ss)
            },
            EventView::Text(_) | EventView::CData(_) => beam_sets_scan(evs, err, pos + 1, ss),
        }
    }
}

/// The beams and beam sets of a `<beamlattice>` element from position `pos` on (each
/// `<beams>` or `<beamsets>` replacing what an earlier one gave), and the position after
/// its end.
pub open spec fn lattice_scan(evs: Seq<EventView>, err: Option<Seq<char>>, pos: int, t: NumbersView, bs: Seq<Beam>, ss: Seq<BeamSetView>) -> Result<((Seq<Beam>, Seq<BeamSetView>), int), Seq<char>>
    decreases evs.len() - pos,
{
    if pos < 0 || pos >= evs.len() {
        Err(eof_message(err, "Unexpected EOF in beamlattice"@))
    } else {
        match evs[pos] {
            EventView::End(n) => if n == "beamlattice"@ { Ok(((bs, ss), pos + 1)) } else { lattice_scan(evs, err, pos + 1, t, bs, ss) },
            EventView::Start(g) => if g.0 == "beams"@ {
                match beams_scan(evs, err, pos + 1, t, Seq::empty()) {
                    Ok((v, p)) => if pos < p <= evs.len() { lattice_scan(evs, err, p, t, v, ss) } else { Err(Seq::empty()) },
                    Err(m) => Err(m),
                }
            } else if g.0 == "beamsets"@ {
                match beam_sets_scan(evs, err, pos + 1, Seq::empty()) {
                    Ok((v, p)) => if pos < p <= evs.len() { lattice_scan(evs, err, p, t, bs, v) } else { Err(Seq::empty()) },
                    Err(m) => Err(m),
                }
            } else {
                lattice_scan(evs, err, pos + 1, t, bs, ss)
            },
            _ => lattice_scan(evs, err, pos + 1, t, bs, ss),
        }
    }
}

fn read_beam(tag: &XmlTag, numbers: &NumberTable) -> (r: Result<Beam, Lib3mfError>)
    ensures
        match beam_of(attrs_view(tag.attrs@), numbers_view(*numbers)) {
            Ok(v) => r == Ok::<Beam, Lib3mfError>(v),
            Err(m) => r matches Err(Lib3mfError::Validation(x)) && x@ == m,
        },
{
    let v1 = match get_attribute_u32(tag, "v1") {
        Ok(v) => v,
        Err(e) => return Err(e),
    };
    let v2 = match get_attribute_u32(tag, "v2") {
        Ok(v) => v,
        Err(e) => return Err(e),
    };
    let r1 = match get_attribute_f32(tag, "r1", numbers) {
        Ok(v) => v,
        Err(e) => return Err(e),
    };
    let r2 = match get_attribute_f32(tag, "r2", numbers) {
        Ok(v) => v,
        Err(_) => r1,
    };
    let cap_mode = match get_attribute(tag, "cap") {
        Some(s) => if same_text(s.as_str(), "hemisphere") {
            CapMode::Hemisphere
        } else if same_text(s.as_str(), "butt") {
            CapMode::Butt
        } else {
            CapMode::Sphere
        },
        None => CapMode::Sphere,
    };
    Ok(Beam { v1, v2, r1, r2, p1: u32_ok(tag, "p1"), p2: u32_ok(tag, "p2"), cap_mode })
}

fn parse_beams(parser: &mut XmlParser, numbers: &NumberTable) -> (r: Result<Vec<Beam>, Lib3mfError>)
    requires
        old(parser).wf(),
    ensures
        moved_on(*old(parser), *final(parser)),
        r is Ok ==> old(parser).pos < final(parser).pos,
        match beams_scan(old(parser).events_of(), old(parser).error_of(), old(parser).pos as int, numbers_view(*numbers), Seq::empty()) {
            Ok((bs, p)) => r matches Ok(v) && v@ == bs && final(parser).pos == p,
            Err(m) => r matches Err(Lib3mfError::Validation(x)) && x@ == m,
        },
{
    let ghost evs = parser.events_of();
    let ghost err = parser.error_of();
    let ghost start = parser.pos as int;
    let ghost tv = numbers_view(*numbers);
    let mut beams: Vec<Beam> = Vec::new();
    loop
        invariant
            moved_on(*old(parser), *parser),
            start == old(parser).pos,
            evs == parser.events_of(),
            err == parser.error_of(),
            tv == numbers_view(*numbers),
            start <= parser.pos,
            beams_scan(evs, err, start, tv, Seq::empty()) == beams_scan(evs, err, parser.pos as int, tv, beams@),
        decreases evs.len() - parser.pos,
    {
        let ev = match parser.read_next_event() {
            Ok(Some(e)) => e,
            Ok(None) => return Err(eof_error(parser, "Unexpected EOF in beams")),
            Err(e) => return Err(e),
        };
        match ev {
            XmlEvent::End(n) => {
                if same_text(n.as_str(), "beams") {
                    return Ok(beams);
                }
            },
            XmlEvent::Start(g) | XmlEvent::Empty(g) => {
                if same_text(g.name.as_str(), "beam") {
                    match read_beam(&g, numbers) {
                        Ok(v) => beams.push(v),
                        Err(e) => return Err(e),
                    }
                }
            },
            XmlEvent::Text(_) | XmlEvent::CData(_) => {},
        }
    }
}

fn parse_refs(parser: &mut XmlParser) -> (r: Result<Vec<u32>, Lib3mfError>)
    requires
        old(parser).wf(),
    ensures
        moved_on(*old(parser), *final(parser)),
        r is Ok ==> old(parser).pos < final(parser).pos,
        match refs_scan(old(parser).events_of(), old(parser).error_of(), old(parser).pos as int, Seq::empty()) {
            Ok((rs, p)) => r matches Ok(v) && v@ == rs && final(parser).pos == p,
            Err(m) => r matches Err(Lib3mfError::Validation(x)) && x@ == m,
        },
{
    let ghost evs = parser.events_of();
    let ghost err = parser.error_of();
    let ghost start = parser.pos as int;
    let mut refs: Vec<u32> = Vec::new();
    loop
        invariant
            moved_on(*old(parser), *parser),
            start == old(parser).pos,
            evs == parser.events_of(),
            err == parser.error_of(),
            start <= parser.pos,
            refs_scan(evs, err, start, Seq::empty()) == refs_scan(evs, err, parser.pos as int, refs@),
        decreases evs.len() - parser.pos,
    {
        let ev = match parser.read_next_event() {
            Ok(Some(e)) => e,
            Ok(None) => return Err(eof_error(parser, "Unexpected EOF in beamset")),
            Err(e) => return Err(e),
        };
        match ev {
            XmlEvent::End(n) => {
                if same_text(n.as_str(), "beamset") {
                    return Ok(refs);
                }
            },
            XmlEvent::Start(g) | XmlEvent::Empty(g) => {
                if same_text(g.name.as_str(), "ref") {
                    match get_attribute_u32(&g, "index") {
                        Ok(v) => refs.push(v),
                        Err(e) => return Err(e),
                    }
                }
            },
            XmlEvent::Text(_) | XmlEvent::CData(_) => {},
        }
    }
}

fn parse_beam_sets(parser: &mut XmlParser) -> (r: Result<Vec<BeamSet>, Lib3mfError>)
    requires
        old(parser).wf(),
    ensures
        moved_on(*old(parser), *final(parser)),
        r is Ok ==> old(parser).pos < final(parser).pos,
        match beam_sets_scan(old(parser).events_of(), old(parser).error_of(), old(parser).pos as int, Seq::empty()) {
            Ok((ss, p)) => r matches Ok(v) && beam_sets_view(v@) == ss && final(parser).pos == p,
            Err(m) => r matches Err(Lib3mfError::Validation(x)) && x@ == m,
        },
{
    let ghost evs = parser.events_of();
    let ghost err = parser.error_of();
    let ghost start = parser.pos as int;
    let mut sets: Vec<BeamSet> = Vec::new();
    proof {
        assert(beam_sets_view(sets@) =~= Seq::<BeamSetView>::empty());
    }
    loop
        invariant
            moved_on(*old(parser), *parser),
            start == old(parser).pos,
            evs == parser.events_of(),
            err == parser.error_of(),
            start <= parser.pos,
            beam_sets_scan(evs, err, start, Seq::empty()) == beam_sets_scan(evs, err, parser.pos as int, beam_sets_view(sets@)),
        decreases evs.len() - parser.pos,
    {
        let ev = match parser.read_next_event() {
            Ok(Some(e)) => e,
            Ok(None) => return Err(eof_error(parser, "Unexpected EOF in beamsets")),
            Err(e) => return Err(e),
        };
        match ev {
            XmlEvent::End(n) => {
                if same_text(n.as_str(), "beamsets") {
                    return Ok(sets);
                }
            },
            XmlEvent::Start(g) => {
                if same_text(g.name.as_str(), "beamset") {
                    let name = get_attribute(&g, "name");
                    let identifier = get_attribute(&g, "identifier");
                    let refs = match parse_refs(parser) {
                        Ok(v) => v,
                        Err(e) => return Err(e),
                    };
                    let b = BeamSet { name, identifier, refs };
                    let ghost before = sets@;
                    sets.push(b);
                    proof {
                        assert(beam_sets_view(sets@) =~= beam_sets_view(before).push(beam_set_view(b)));
                    }
                }
            },
            XmlEvent::Empty(g) => {
                if same_text(g.name.as_str(), "beamset") {
                    let b = BeamSet { name: get_attribute(&g, "name"), identifier: get_attribute(&g, "identifier"), refs: Vec::new() };
                    let ghost before = sets@;
                    sets.push(b);
                    proof {
                        assert(b.refs@ =~= Seq::<u32>::empty());
                        assert(beam_sets_view(sets@) =~= beam_sets_view(before).push(beam_set_view(b)));
                    }
                }
            },
            XmlEvent::Text(_) | XmlEvent::CData(_) => {},
        }
    }
}

/// A beam lattice as values: minimum length, precision, clipping, beams, beam sets.
pub type LatticeView = (u32, u32, ClippingMode, Seq<Beam>, Seq<BeamSetView>);

/// A beam lattice as values.
pub open spec fn lattice_view(b: BeamLattice) -> LatticeView {
    (b.min_length, b.precision, b.clipping_mode, b.beams@, beam_sets_view(b.beam_sets@))
}

/// Reads the content of a `<beamlattice>` element whose start tag was just read, with the
/// attributes of that tag given.
pub fn parse_beam_lattice_content(parser: &mut XmlParser, min_length: u32, precision: u32, clipping_mode: ClippingMode, numbers: &NumberTable) -> (r: Result<BeamLattice, Lib3mfError>)
    requires
        old(parser).wf(),
    ensures
        moved_on(*old(parser), *final(parser)),
        r is Ok ==> old(parser).pos < final(parser).pos,
        match lattice_scan(old(parser).events_of(), old(parser).error_of(), old(parser).pos as int, numbers_view(*numbers), Seq::empty(), Seq::empty()) {
            Ok(((bs, ss), p)) => r matches Ok(v) && lattice_view(v) == (min_length, precision, clipping_mode, bs, ss) && final(parser).pos == p,
            Err(m) => r matches Err(Lib3mfError::Validation(x)) && x@ == m,
        },
{
    let ghost evs = parser.events_of();
    let ghost err = parser.error_of();
    let ghost start = parser.pos as int;
    let ghost tv = numbers_view(*numbers);
    let mut beams: Vec<Beam> = Vec::new();
    let mut beam_sets: Vec<BeamSet> = Vec::new();
    proof {
        assert(beam_sets_view(beam_sets@) =~= Seq::<BeamSetView>::empty());
    }
    loop
        invariant
            moved_on(*old(parser), *parser),
            start == old(parser).pos,
            evs == parser.events_of(),
            err == parser.error_of(),
            tv == numbers_view(*numbers),
            start <= parser.pos,
            lattice_scan(evs, err, start, tv, Seq::empty(), Seq::empty())
                == lattice_scan(evs, err, parser.pos as int, tv, beams@, beam_sets_view(beam_sets@)),
        decreases evs.len() - parser.pos,
    {
        let ev = match parser.read_next_event() {
            Ok(Some(e)) => e,
            Ok(None) => return Err(eof_error(parser, "Unexpected EOF in beamlattice")),
            Err(e) => return Err(e),
        };
        match ev {
            XmlEvent::End(n) => {
                if same_text(n.as_str(), "beamlattice") {
                    return Ok(BeamLattice { min_length, precision, clipping_mode, beams, beam_sets });
                }
            },
            XmlEvent::Start(g) => {
                if same_text(g.name.as_str(), "beams") {
                    match parse_beams(parser, numbers) {
                        Ok(v) => beams = v,
                        Err(e) => return Err(e),
                    }
                } else if same_text(g.name.as_str(), "beamsets") {
                    match parse_beam_sets(parser) {
                        Ok(v) => beam_sets = v,
                        Err(e) => return Err(e),
                    }
                }
            },
            _ => {},
        }
    }
}

/// A mesh as values: vertices, triangles, beam lattice.
pub type MeshView = (Seq<Vertex>, Seq<Triangle>, Option<LatticeView>);

/// A mesh as values.
pub open spec fn mesh_view(m: Mesh) -> MeshView {
    (m.vertices@, m.triangles@, match m.beam_lattice {
        Some(b) => Some(lattice_view(b)),
        None => None,
    })
}

/// The clipping mode a beam lattice tag names (`clippingmode`, else `clipping`).
pub open spec fn clipping_of(a: AttrsView) -> ClippingMode {
    let s = match attr_text(a, "clippingmode"@) {
        Some(c) => Some(c),
        None => attr_text(a, "clipping"@),
    };
    match s {
        Some(c) => if c == "inside"@ {
            ClippingMode::Inside
        } else if c == "outside"@ {
            ClippingMode::Outside
        } else {
            ClippingMode::NoClipping
        },
        None => ClippingMode::NoClipping,
    }
}

/// A mesh read from position `pos` on, starting from `m`, and the position after its end:
/// `<vertices>` and `<triangles>` add to it, a `<beamlattice>` sets its lattice.
pub open spec fn mesh_scan(evs: Seq<EventView>, err: Option<Seq<char>>, pos: int, t: NumbersView, m: MeshView) -> Result<(MeshView, int), Seq<char>>
    decreases evs.len() - pos,
{
    if pos < 0 || pos >= evs.len() {
        Err(eof_message(err, "Unexpected EOF in mesh"@))
    } else if ends_local(evs[pos], "mesh"@) {
        Ok((m, pos + 1))
    } else {
        match evs[pos] {
            EventView::Start(g) => {
                let ln = local_name(g.0);
                if ln == "vertices"@ {
                    match vertices_scan(evs, err, pos + 1, t, m.0) {
                        Ok((v, p)) => if pos < p <= evs.len() { mesh_scan(evs, err, p, t, (v, m.1, m.2)) } else { Err(Seq::empty()) },
                        Err(e) => Err(e),
                    }
                } else if ln == "triangles"@ {
                    match triangles_scan(evs, err, pos + 1, m.1) {
                        Ok((v, p)) => if pos < p <= evs.len() { mesh_scan(evs, err, p, t, (m.0, v, m.2)) } else { Err(Seq::empty()) },
                        Err(e) => Err(e),
                    }
                } else if ln == "beamlattice"@ {
                    let a = g.1;
                    match lattice_scan(evs, err, pos + 1, t, Seq::empty(), Seq::empty()) {
                        Ok(((bs, ss), p)) => if pos < p <= evs.len() {
                            mesh_scan(evs, err, p, t, (m.0, m.1, Some((attr_f32_or(a, "minlength"@, t, 0), attr_f32_or(a, "precision"@, t, 0), clipping_of(a), bs, ss))))
                        } else {
                            Err(Seq::empty())
                        },
                        Err(e) => Err(e),
                    }
                } else {
                    mesh_scan(evs, err, pos + 1, t, m)
                }
            },
            _ => mesh_scan(evs, err, pos + 1, t, m),
        }
    }
}

/// An empty mesh as values.
pub open spec fn empty_mesh() -> MeshView {
    (Seq::empty(), Seq::empty(), None)
}

/// Attribute `name` as a number, or zero where it is missing or malformed.
fn f32_or_zero(tag: &XmlTag, name: &str, numbers: &NumberTable) -> (r: u32)
    ensures
        r == attr_f32_or(attrs_view(tag.attrs@), name@, numbers_view(*numbers), 0),
{
    match get_attribute_f32(tag, name, numbers) {
        Ok(v) => v,
        Err(_) => 0,
    }
}

/// Reads the content of a `<mesh>` element whose start tag was just read: its vertices,
/// triangles and beam lattice, elements known by their local names.
pub fn parse_mesh(parser: &mut XmlParser, numbers: &NumberTable) -> (r: Result<Mesh, Lib3mfError>)
    requires
        old(parser).wf(),
    ensures
        moved_on(*old(parser), *final(parser)),
        r is Ok ==> old(parser).pos < final(parser).pos,
        match mesh_scan(old(parser).events_of(), old(parser).error_of(), old(parser).pos as int, numbers_view(*numbers), empty_mesh()) {
            Ok((m, p)) => r matches Ok(v) && mesh_view(v) == m && final(parser).pos == p,
            Err(m) => r matches Err(Lib3mfError::Validation(x)) && x@ == m,
        },
{
    let ghost evs = parser.events_of();
    let ghost err = parser.error_of();
    let ghost start = parser.pos as int;
    let ghost tv = numbers_view(*numbers);
    let mut mesh = Mesh { vertices: Vec::new(), triangles: Vec::new(), beam_lattice: None };
    proof {
        assert(mesh_view(mesh) =~= empty_mesh());
    }
    loop
        invariant
            moved_on(*old(parser), *parser),
            start == old(parser).pos,
            evs == parser.events_of(),
            err == parser.error_of(),
            tv == numbers_view(*numbers),
            start <= parser.pos,
            mesh_scan(evs, err, start, tv, empty_mesh()) == mesh_scan(evs, err, parser.pos as int, tv, mesh_view(mesh)),
        decreases evs.len() - parser.pos,
    {
        let ev = match parser.read_next_event() {
            Ok(Some(e)) => e,
            Ok(None) => return Err(eof_error(parser, "Unexpected EOF in mesh")),
            Err(e) => return Err(e),
        };
        match ev {
            XmlEvent::End(n) => {
                let ln = local_name_of(n.as_str());
                if same_text(ln.as_str(), "mesh") {
                    return Ok(mesh);
                }
            },
            XmlEvent::Start(g) => {
                let ln = local_name_of(g.name.as_str());
                if same_text(ln.as_str(), "vertices") {
                    match parse_vertices(parser, &mut mesh.vertices, numbers) {
                        Ok(()) => {},
                        Err(e) => return Err(e),
                    }
                } else if same_text(ln.as_str(), "triangles") {
                    match parse_triangles(parser, &mut mesh.triangles) {
                        Ok(()) => {},
                        Err(e) => return Err(e),
                    }
                } else if same_text(ln.as_str(), "beamlattice") {
                    let min_length = f32_or_zero(&g, "minlength", numbers);
                    let precision = f32_or_zero(&g, "precision", numbers);
                    let clip = match get_attribute(&g, "clippingmode") {
                        Some(c) => Some(c),
                        None => get_attribute(&g, "clipping"),
                    };
                    let clipping_mode = match clip {
                        Some(c) => if same_text(c.as_str(), "inside") {
                            ClippingMode::Inside
                        } else if same_text(c.as_str(), "outside") {
                            ClippingMode::Outside
                        } else {
                            ClippingMode::NoClipping
                        },
                        None => ClippingMode::NoClipping,
                    };
                    match parse_beam_lattice_content(parser, min_length, precision, clipping_mode, numbers) {
                        Ok(l) => mesh.beam_lattice = Some(l),
                        Err(e) => return Err(e),
                    }
                }
            },
            _ => {},
        }
    }
}

} // verus!
