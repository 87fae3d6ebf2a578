//! Reading of slice stacks (the Slice extension).

use vstd::prelude::*;
use crate::error::Lib3mfError;
use crate::model::resources::ResourceId;
use crate::model::slice::{Polygon, Segment, Slice, SliceRef, SliceStack, Vertex2D};
use crate::parser::crypto_parser::{ends_local, eof_error, moved_on};
use crate::parser::displacement_parser::{has_local_name, local_items_scan};
use crate::parser::mesh_parser::u32_ok;
use crate::parser::xml_parser::{
    AttrsView, EventView, NumberTable, NumbersView, XmlEvent, XmlParser, XmlTag, attr_f32, attr_text, attr_u32,
    attr_u32_ok, attrs_view, eof_message, get_attribute, get_attribute_f32, get_attribute_u32, local_name,
    local_name_of, numbers_view,
};
use crate::text::same_text;

verus! {

/// What a slice `<vertex>` tag gives: its two coordinates, required.
pub open spec fn vertex_2d_of(a: AttrsView, t: NumbersView) -> Result<Vertex2D, Seq<char>> {
    match attr_f32(a, "x"@, t) {
        Err(m) => Err(m),
        Ok(x) => match attr_f32(a, "y"@, t) {
            Err(m) => Err(m),
            Ok(y) => Ok(Vertex2D { x, y }),
        },
    }
}

/// A segment as values: end vertex, properties, property group.
pub type SegmentView = (u32, Option<u32>, Option<u32>, Option<u32>);

/// A segment as values.
pub open spec fn segment_view(s: Segment) -> SegmentView {
    (s.v2, s.p1, s.p2, match s.pid {
        Some(r) => Some(r.0),
        None => None,
    })
}

/// Segments as values.
pub open spec fn segments_view(v: Seq<Segment>) -> Seq<SegmentView> {
    v.map_values(|s: Segment| segment_view(s))
}

/// What a `<segment>` tag gives: its end vertex, required, and its properties where
/// present and well formed.
pub open spec fn segment_of(a: AttrsView) -> Result<SegmentView, Seq<char>> {
    match attr_u32(a, "v2"@) {
        Err(m) => Err(m),
        Ok(v2) => Ok((v2, attr_u32_ok(a, "p1"@), attr_u32_ok(a, "p2"@), attr_u32_ok(a, "pid"@))),
    }
}

/// A polygon as values: start vertex and segments.
pub type PolygonView = (u32, Seq<SegmentView>);

/// A slice as values: top height, vertices, polygons.
pub type SliceView = (u32, Seq<Vertex2D>, Seq<PolygonView>);

/// A slice as values.
pub open spec fn slice_view(s: Slice) -> SliceView {
    (s.z_top, s.vertices@, s.polygons@.map_values(|p: Polygon| (p.start_segment, segments_view(p.segments@))))
}

/// The vertices and polygons of a `<slice>` from position `pos` on, starting from `s`,
/// and the position after its end.
pub open spec fn slice_scan(evs: Seq<EventView>, err: Option<Seq<char>>, pos: int, t: NumbersView, s: (Seq<Vertex2D>, Seq<PolygonView>)) -> Result<((Seq<Vertex2D>, Seq<PolygonView>), int), Seq<char>>
    decreases evs.len() - pos,
{
    if pos < 0 || pos >= evs.len() {
        Err(eof_message(err, "Unexpected EOF in slice"@))
    } else if ends_local(evs[pos], "slice"@) {
        Ok((s, pos + 1))
    } else {
        match evs[pos] {
            EventView::Start(g) => {
                let ln = local_name(g.0);
                if ln == "vertices"@ {
                    match local_items_scan(evs, err, pos + 1, "vertex"@, "vertices"@, "Unexpected EOF in slice vertices"@, |a: AttrsView| vertex_2d_of(a, t), Seq::empty()) {
                        Ok((v, p)) => if pos < p <= evs.len() { slice_scan(evs, err, p, t, (v, s.1)) } else { Err(Seq::empty()) },
                        Err(m) => Err(m),
                    }
                } else if ln == "polygon"@ {
                    let start = match attr_u32_ok(g.1, "start"@) {
                        Some(v) => v,
                        None => 0u32,
                    };
                    match local_items_scan(evs, err, pos + 1, "segment"@, "polygon"@, "Unexpected EOF in polygon segments"@, |a: AttrsView| segment_of(a), Seq::empty()) {
                        Ok((v, p)) => if pos < p <= evs.len() { slice_scan(evs, err, p, t, (s.0, s.1.push((start, v)))) } else { Err(Seq::empty()) },
                        Err(m) => Err(m),
                    }
                } else {
                    slice_scan(evs, err, pos + 1, t, s)
                }
            },
            _ => slice_scan(evs, err, pos + 1, t, s),
        }
    }
}

/// A slice reference as values: stack and part path.
pub type SliceRefView = (u32, Seq<char>);

/// What a `<sliceref>` tag gives: its stack, required, and part path (empty when absent).
pub open spec fn slice_ref_of(a: AttrsView) -> Result<SliceRefView, Seq<char>> {
    match attr_u32(a, "slicestackid"@) {
        Err(m) => Err(m),
        Ok(id) => Ok((id, match attr_text(a, "slicepath"@) {
            Some(p) => p,
            None => Seq::empty(),
        })),
    }
}

/// The slices and slice references of a `<slicestack>` from position `pos` on, starting
/// from `s`, and the position after its end.
pub open spec fn slice_stack_scan(evs: Seq<EventView>, err: Option<Seq<char>>, pos: int, t: NumbersView, s: (Seq<SliceView>, Seq<SliceRefView>)) -> Result<((Seq<SliceView>, Seq<SliceRefView>), int), Seq<char>>
    decreases evs.len() - pos,
{
    if pos < 0 || pos >= evs.len() {
        Err(eof_message(err, "Unexpected EOF in slicestack"@))
    } else if ends_local(evs[pos], "slicestack"@) {
        Ok((s, pos + 1))
    } else {
        match evs[pos] {
            EventView::Start(g) => {
                let ln = local_name(g.0);
                if ln == "slice"@ {
                    match attr_f32(g.1, "ztop"@, t) {
                        Err(m) => Err(m),
                        Ok(z) => match slice_scan(evs, err, pos + 1, t, (Seq::empty(), Seq::empty())) {
                            Ok((v, p)) => if pos < p <= evs.len() { slice_stack_scan(evs, err, p, t, (s.0.push((z, v.0, v.1)), s.1)) } else { Err(Seq::empty()) },
                            Err(m) => Err(m),
                        },
                    }
                } else if ln == "sliceref"@ {
                    match slice_ref_of(g.1) {
                        Ok(r) => slice_stack_scan(evs, err, pos + 1, t, (s.0, s.1.push(r))),
                        Err(m) => Err(m),
                    }
                } else {
                    slice_stack_scan(evs, err, pos + 1, t, s)
                }
            },
            EventView::Empty(g) => if local_name(g.0) == "sliceref"@ {
                match slice_ref_of(g.1) {
                    Ok(r) => slice_stack_scan(evs, err, pos + 1, t, (s.0, s.1.push(r))),
                    Err(m) => Err(m),
                }
            } else {
                slice_stack_scan(evs, err, pos + 1, t, s)
            },
            _ => slice_stack_scan(evs, err, pos + 1, t, s),
        }
    }
}

fn read_vertex_2d(tag: &XmlTag, numbers: &NumberTable) -> (r: Result<Vertex2D, Lib3mfError>)
    ensures
        match vertex_2d_of(attrs_view(tag.attrs@), numbers_view(*numbers)) {
            Ok(v) => r == Ok::<Vertex2D, Lib3mfError>(v),
            Err(m) => r matches Err(Lib3mfError::Validation(x)) && x@ == m,
        },
{
    let x = match get_attribute_f32(tag, "x", numbers) {
        Ok(v) => v,
        Err(e) => return Err(e),
    };
    let y = match get_attribute_f32(tag, "y", numbers) {
        Ok(v) => v,
        Err(e) => return Err(e),
    };
    Ok(Vertex2D { x, y })
}

fn read_segment(tag: &XmlTag) -> (r: Result<Segment, Lib3mfError>)
    ensures
        match segment_of(attrs_view(tag.attrs@)) {
            Ok(v) => r matches Ok(s) && segment_view(s) == v,
            Err(m) => r matches Err(Lib3mfError::Validation(x)) && x@ == m,
        },
{
    let v2 = match get_attribute_u32(tag, "v2") {
        Ok(v) => v,
        Err(e) => return Err(e),
    };
    let pid = match u32_ok(tag, "pid") {
        Some(p) => Some(ResourceId(p)),
        None => None,
    };
    Ok(Segment { v2, p1: u32_ok(tag, "p1"), p2: u32_ok(tag, "p2"), pid })
}

fn read_slice_ref(tag: &XmlTag) -> (r: Result<SliceRef, Lib3mfError>)
    ensures
        match slice_ref_of(attrs_view(tag.attrs@)) {
            Ok(v) => r matches Ok(s) && (s.slice_stack_id.0, s.slice_path@) == v,
            Err(m) => r matches Err(Lib3mfError::Validation(x)) && x@ == m,
        },
{
    let id = match get_attribute_u32(tag, "slicestackid") {
        Ok(v) => v,
        Err(e) => return Err(e),
    };
    let path = match get_attribute(tag, "slicepath") {
        Some(p) => p,
        None => String::new(),
    };
    Ok(SliceRef { slice_stack_id: ResourceId(id), slice_path: path })
}

fn parse_slice_vertices(parser: &mut XmlParser, numbers: &NumberTable) -> (r: Result<Vec<Vertex2D>, Lib3mfError>)
    requires
        old(parser).wf(),
    ensures
        moved_on(*old(parser), *final(parser)),
        r is Ok ==> old(parser).pos < final(parser).pos,
        match local_items_scan(old(parser).events_of(), old(parser).error_of(), old(parser).pos as int, "vertex"@, "vertices"@,
            "Unexpected EOF in slice vertices"@, |a: AttrsView| vertex_2d_of(a, numbers_view(*numbers)), Seq::empty()) {
            Ok((v, p)) => r matches Ok(x) && x@ == v && final(parser).pos == p,
            Err(m) => r matches Err(Lib3mfError::Validation(x)) && x@ == m,
        },
{
    let ghost evs = parser.events_of();
    let ghost err = parser.error_of();
    let ghost start = parser.pos as int;
    let ghost read = |a: AttrsView| vertex_2d_of(a, numbers_view(*numbers));
    let mut out: Vec<Vertex2D> = Vec::new();
    loop
        invariant
            moved_on(*old(parser), *parser),
            start == old(parser).pos,
            evs == parser.events_of(),
            err == parser.error_of(),
            start <= parser.pos,
            read == (|a: AttrsView| vertex_2d_of(a, numbers_view(*numbers))),
            local_items_scan(evs, err, start, "vertex"@, "vertices"@, "Unexpected EOF in slice vertices"@, read, Seq::empty())
                == local_items_scan(evs, err, parser.pos as int, "vertex"@, "vertices"@, "Unexpected EOF in slice vertices"@, read, out@),
        decreases evs.len() - parser.pos,
    {
        let ev = match parser.read_next_event() {
            Ok(Some(e)) => e,
            Ok(None) => return Err(eof_error(parser, "Unexpected EOF in slice vertices")),
            Err(e) => return Err(e),
        };
        match ev {
            XmlEvent::End(n) => {
                if has_local_name(&n, "vertices") {
                    return Ok(out);
                }
            },
            XmlEvent::Start(g) | XmlEvent::Empty(g) => {
                if has_local_name(&g.name, "vertex") {
                    match read_vertex_2d(&g, numbers) {
                        Ok(v) => out.push(v),
                        Err(e) => return Err(e),
                    }
                }
            },
            XmlEvent::Text(_) | XmlEvent::CData(_) => {},
        }
    }
}

fn parse_polygon_segments(parser: &mut XmlParser) -> (r: Result<Vec<Segment>, Lib3mfError>)
    requires
        old(parser).wf(),
    ensures
        moved_on(*old(parser), *final(parser)),
        r is Ok ==> old(parser).pos < final(parser).pos,
        match local_items_scan(old(parser).events_of(), old(parser).error_of(), old(parser).pos as int, "segment"@, "polygon"@,
            "Unexpected EOF in polygon segments"@, |a: AttrsView| segment_of(a), Seq::empty()) {
            Ok((v, p)) => r matches Ok(x) && segments_view(x@) == v && final(parser).pos == p,
            Err(m) => r matches Err(Lib3mfError::Validation(x)) && x@ == m,
        },
{
    let ghost evs = parser.events_of();
    let ghost err = parser.error_of();
    let ghost start = parser.pos as int;
    let ghost read = |a: AttrsView| segment_of(a);
    let mut out: Vec<Segment> = Vec::new();
    proof {
        assert(segments_view(out@) =~= Seq::<SegmentView>::empty());
    }
    loop
        invariant
            moved_on(*old(parser), *parser),
            start == old(parser).pos,
            evs == parser.events_of(),
            err == parser.error_of(),
            start <= parser.pos,
            read == (|a: AttrsView| segment_of(a)),
            local_items_scan(evs, err, start, "segment"@, "polygon"@, "Unexpected EOF in polygon segments"@, read, Seq::empty())
                == local_items_scan(evs, err, parser.pos as int, "segment"@, "polygon"@, "Unexpected EOF in polygon segments"@, read, segments_view(out@)),
        decreases evs.len() - parser.pos,
    {
        let ev = match parser.read_next_event() {
            Ok(Some(e)) => e,
            Ok(None) => return Err(eof_error(parser, "Unexpected EOF in polygon segments")),
            Err(e) => return Err(e),
        };
        match ev {
            XmlEvent::End(n) => {
                if has_local_name(&n, "polygon") {
                    return Ok(out);
                }
            },
            XmlEvent::Start(g) | XmlEvent::Empty(g) => {
                if has_local_name(&g.name, "segment") {
                    match read_segment(&g) {
                        Ok(s) => {
                            let ghost before = out@;
                            out.push(s);
                            proof {
                                assert(segments_view(out@) =~= segments_view(before).push(segment_view(s)));
                            }
                        },
                        Err(e) => return Err(e),
                    }
                }
            },
            XmlEvent::Text(_) | XmlEvent::CData(_) => {},
        }
    }
}

/// Polygons as values.
pub open spec fn polygons_view(v: Seq<Polygon>) -> Seq<PolygonView> {
    v.map_values(|p: Polygon| (p.start_segment, segments_view(p.segments@)))
}

fn parse_slice(parser: &mut XmlParser, z_top: u32, numbers: &NumberTable) -> (r: Result<Slice, Lib3mfError>)
    requires
        old(parser).wf(),
    ensures
        moved_on(*old(parser), *final(parser)),
        r is Ok ==> old(parser).pos < final(parser).pos,
        match slice_scan(old(parser).events_of(), old(parser).error_of(), old(parser).pos as int, numbers_view(*numbers), (Seq::empty(), Seq::empty())) {
            Ok((v, p)) => r matches Ok(x) && slice_view(x) == (z_top, v.0, v.1) && final(parser).pos == p,
            Err(m) => r matches Err(Lib3mfError::Validation(x)) && x@ == m,
        },
{
    let ghost evs = parser.events_of();
    let ghost err = parser.error_of();
    let ghost start = parser.pos as int;
    let ghost tv = numbers_view(*numbers);
    let mut vertices: Vec<Vertex2D> = Vec::new();
    let mut polygons: Vec<Polygon> = Vec::new();
    proof {
        assert(polygons_view(polygons@) =~= Seq::<PolygonView>::empty());
    }
    loop
        invariant
            moved_on(*old(parser), *parser),
            start == old(parser).pos,
            evs == parser.events_of(),
            err == parser.error_of(),
            tv == numbers_view(*numbers),
            start <= parser.pos,
            slice_scan(evs, err, start, tv, (Seq::empty(), Seq::empty()))
                == slice_scan(evs, err, parser.pos as int, tv, (vertices@, polygons_view(polygons@))),
        decreases evs.len() - parser.pos,
    {
        let ev = match parser.read_next_event() {
            Ok(Some(e)) => e,
            Ok(None) => return Err(eof_error(parser, "Unexpected EOF in slice")),
            Err(e) => return Err(e),
        };
        match ev {
            XmlEvent::End(n) => {
                if has_local_name(&n, "slice") {
                    let s = Slice { z_top, vertices, polygons };
                    proof {
                        assert(slice_view(s).2 =~= polygons_view(polygons@));
                    }
                    return Ok(s);
                }
            },
            XmlEvent::Start(g) => {
                let ln = local_name_of(g.name.as_str());
                if same_text(ln.as_str(), "vertices") {
                    match parse_slice_vertices(parser, numbers) {
                        Ok(v) => vertices = v,
                        Err(e) => return Err(e),
                    }
                } else if same_text(ln.as_str(), "polygon") {
                    let start_segment = match u32_ok(&g, "start") {
                        Some(v) => v,
                        None => 0,
                    };
                    let segments = match parse_polygon_segments(parser) {
                        Ok(v) => v,
                        Err(e) => return Err(e),
                    };
                    let poly = Polygon { start_segment, segments };
                    let ghost before = polygons@;
                    polygons.push(poly);
                    proof {
                        assert(polygons_view(polygons@) =~= polygons_view(before).push((start_segment, segments_view(poly.segments@))));
                    }
                }
            },
            _ => {},
        }
    }
}

/// Slice references as values.
pub open spec fn slice_refs_view(v: Seq<SliceRef>) -> Seq<SliceRefView> {
    v.map_values(|r: SliceRef| (r.slice_stack_id.0, r.slice_path@))
}

/// Slices as values.
pub open spec fn slices_view(v: Seq<Slice>) -> Seq<SliceView> {
    v.map_values(|s: Slice| slice_view(s))
}

/// Reads the content of a `<slicestack>` element whose start tag was just read: its
/// slices (top height required) and slice references, elements known by their local
/// names.
pub fn parse_slice_stack_content(parser: &mut XmlParser, id: ResourceId, z_bottom: u32, numbers: &NumberTable) -> (r: Result<SliceStack, Lib3mfError>)
    requires
        old(parser).wf(),
    ensures
        moved_on(*old(parser), *final(parser)),
        r is Ok ==> old(parser).pos < final(parser).pos,
        match slice_stack_scan(old(parser).events_of(), old(parser).error_of(), old(parser).pos as int, numbers_view(*numbers), (Seq::empty(), Seq::empty())) {
            Ok((v, p)) => r matches Ok(s) && s.id == id && s.z_bottom == z_bottom && slices_view(s.slices@) == v.0
                && slice_refs_view(s.refs@) == v.1 && final(parser).pos == p,
            Err(m) => r matches Err(Lib3mfError::Validation(x)) && x@ == m,
        },
{
    let ghost evs = parser.events_of();
    let ghost err = parser.error_of();
    let ghost start = parser.pos as int;
    let ghost tv = numbers_view(*numbers);
    let mut slices: Vec<Slice> = Vec::new();
    let mut refs: Vec<SliceRef> = Vec::new();
    proof {
        assert(slices_view(slices@) =~= Seq::<SliceView>::empty());
        assert(slice_refs_view(refs@) =~= Seq::<SliceRefView>::empty());
    }
    loop
        invariant
            moved_on(*old(parser), *parser),
            start == old(parser).pos,
            evs == parser.events_of(),
            err == parser.error_of(),
            tv == numbers_view(*numbers),
            start <= parser.pos,
            slice_stack_scan(evs, err, start, tv, (Seq::empty(), Seq::empty()))
                == slice_stack_scan(evs, err, parser.pos as int, tv, (slices_view(slices@), slice_refs_view(refs@))),
        decreases evs.len() - parser.pos,
    {
        let ev = match parser.read_next_event() {
            Ok(Some(e)) => e,
            Ok(None) => return Err(eof_error(parser, "Unexpected EOF in slicestack")),
            Err(e) => return Err(e),
        };
        match ev {
            XmlEvent::End(n) => {
                if has_local_name(&n, "slicestack") {
                    return Ok(SliceStack { id, z_bottom, slices, refs });
                }
            },
            XmlEvent::Start(g) => {
                let ln = local_name_of(g.name.as_str());
                if same_text(ln.as_str(), "slice") {
                    let z_top = match get_attribute_f32(&g, "ztop", numbers) {
                        Ok(z) => z,
                        Err(e) => return Err(e),
                    };
                    let s = match parse_slice(parser, z_top, numbers) {
                        Ok(s) => s,
                        Err(e) => return Err(e),
                    };
                    let ghost before = slices@;
                    slices.push(s);
                    proof {
                        assert(slices_view(slices@) =~= slices_view(before).push(slice_view(s)));
                    }
                } else if same_text(ln.as_str(), "sliceref") {
                    let r = match read_slice_ref(&g) {
                        Ok(r) => r,
                        Err(e) => return Err(e),
                    };
                    let ghost before = refs@;
                    refs.push(r);
                    proof {
                        assert(slice_refs_view(refs@) =~= slice_refs_view(before).push((r.slice_stack_id.0, r.slice_path@)));
                    }
                }
            },
            XmlEvent::Empty(g) => {
                if has_local_name(&g.name, "sliceref") {
                    let r = match read_slice_ref(&g) {
                        Ok(r) => r,
                        Err(e) => return Err(e),
                    };
                    let ghost before = refs@;
                    refs.push(r);
                    proof {
                        assert(slice_refs_view(refs@) =~= slice_refs_view(before).push((r.slice_stack_id.0, r.slice_path@)));
                    }
                }
            },
            XmlEvent::Text(_) | XmlEvent::CData(_) => {},
        }
    }
}

} // verus!
