//! Reading of volumetric stacks (the Volumetric extension).

use vstd::prelude::*;
use crate::error::Lib3mfError;
use crate::model::resources::ResourceId;
use crate::model::volumetric::{VolumetricLayer, VolumetricRef, VolumetricStack};
use crate::parser::crypto_parser::{ends_local, eof_error, moved_on};
use crate::parser::displacement_parser::has_local_name;
use crate::parser::xml_parser::{
    AttrsView, EventView, NumberTable, NumbersView, XmlEvent, XmlParser, XmlTag, attr_f32_or, attr_text, attr_u32,
    attrs_view, end_of, eof_message, get_attribute, get_attribute_f32, get_attribute_u32, local_name,
    local_name_of, numbers_view,
};
use crate::text::same_text;

verus! {

/// The text of attribute `name`, empty when absent.
pub open spec fn text_or_empty(a: AttrsView, name: Seq<char>) -> Seq<char> {
    match attr_text(a, name) {
        Some(p) => p,
        None => Seq::empty(),
    }
}

/// The layers (height, content path) and references (stack, path) of a
/// `<volumetricstack>` from position `pos` on, starting from `s`, and the position after
/// its end.
pub open spec fn volumetric_scan(evs: Seq<EventView>, err: Option<Seq<char>>, pos: int, t: NumbersView, s: (Seq<(u32, Seq<char>)>, Seq<(u32, Seq<char>)>)) -> Result<((Seq<(u32, Seq<char>)>, Seq<(u32, Seq<char>)>), int), Seq<char>>
    decreases evs.len() - pos,
{
    if pos < 0 || pos >= evs.len() {
        Err(eof_message(err, "Unexpected EOF in volumetricstack"@))
    } else if ends_local(evs[pos], "volumetricstack"@) {
        Ok((s, pos + 1))
    } else {
        match evs[pos] {
            EventView::Start(g) => {
                let ln = local_name(g.0);
                if ln == "layer"@ {
                    let layer = (attr_f32_or(g.1, "z"@, t, 0), text_or_empty(g.1, "path"@));
                    match end_of(evs, err, pos + 1, g.0, 0) {
                        Ok(p) => if pos < p <= evs.len() { volumetric_scan(evs, err, p, t, (s.0.push(layer), s.1)) } else { Err(Seq::empty()) },
                        Err(m) => Err(m),
                    }
                } else if ln == "volumetricref"@ {
                    match attr_u32(g.1, "volumetricstackid"@) {
                        Err(m) => Err(m),
                        Ok(id) => match end_of(evs, err, pos + 1, g.0, 0) {
                            Ok(p) => if pos < p <= evs.len() {
                                volumetric_scan(evs, err, p, t, (s.0, s.1.push((id, text_or_empty(g.1, "path"@)))))
                            } else {
                                Err(Seq::empty())
                            },
                            Err(m) => Err(m),
                        },
                    }
                } else {
                    volumetric_scan(evs, err, pos + 1, t, s)
                }
            },
            _ => volumetric_scan(evs, err, pos + 1, t, s),
        }
    }
}

/// Layers as values.
pub open spec fn layers_view(v: Seq<VolumetricLayer>) -> Seq<(u32, Seq<char>)> {
    v.map_values(|l: VolumetricLayer| (l.z_height, l.content_path@))
}

/// References as values.
pub open spec fn volumetric_refs_view(v: Seq<VolumetricRef>) -> Seq<(u32, Seq<char>)> {
    v.map_values(|r: VolumetricRef| (r.stack_id.0, r.path@))
}

fn text_attribute(tag: &XmlTag, name: &str) -> (r: String)
    ensures
        r@ == text_or_empty(attrs_view(tag.attrs@), name@),
{
    match get_attribute(tag, name) {
        Some(p) => p,
        None => String::new(),
    }
}

/// Reads the content of a `<volumetricstack>` element whose start tag was just read: its
/// layers (height, zero where absent or malformed, and content path) and references
/// (stack, required, and path), each skipped to its end.
pub fn parse_volumetric_stack_content(parser: &mut XmlParser, id: ResourceId, numbers: &NumberTable) -> (r: Result<VolumetricStack, Lib3mfError>)
    requires
        old(parser).wf(),
    ensures
        moved_on(*old(parser), *final(parser)),
        r is Ok ==> old(parser).pos < final(parser).pos,
        match volumetric_scan(old(parser).events_of(), old(parser).error_of(), old(parser).pos as int, numbers_view(*numbers), (Seq::empty(), Seq::empty())) {
            Ok((v, p)) => r matches Ok(s) && s.id == id && s.version@ == Seq::<char>::empty() && layers_view(s.layers@) == v.0
                && volumetric_refs_view(s.refs@) == v.1 && final(parser).pos == p,
            Err(m) => r matches Err(Lib3mfError::Validation(x)) && x@ == m,
        },
{
    let ghost evs = parser.events_of();
    let ghost err = parser.error_of();
    let ghost start = parser.pos as int;
    let ghost tv = numbers_view(*numbers);
    let mut layers: Vec<VolumetricLayer> = Vec::new();
    let mut refs: Vec<VolumetricRef> = Vec::new();
    proof {
        assert(layers_view(layers@) =~= Seq::<(u32, Seq<char>)>::empty());
        assert(volumetric_refs_view(refs@) =~= Seq::<(u32, Seq<char>)>::empty());
    }
    loop
        invariant
            moved_on(*old(parser), *parser),
            start == old(parser).pos,
            evs == parser.events_of(),
            err == parser.error_of(),
            tv == numbers_view(*numbers),
            start <= parser.pos,
            volumetric_scan(evs, err, start, tv, (Seq::empty(), Seq::empty()))
                == volumetric_scan(evs, err, parser.pos as int, tv, (layers_view(layers@), volumetric_refs_view(refs@))),
        decreases evs.len() - parser.pos,
    {
        let ev = match parser.read_next_event() {
            Ok(Some(e)) => e,
            Ok(None) => return Err(eof_error(parser, "Unexpected EOF in volumetricstack")),
            Err(e) => return Err(e),
        };
        match ev {
            XmlEvent::End(n) => {
                if has_local_name(&n, "volumetricstack") {
                    return Ok(VolumetricStack { id, version: String::new(), layers, refs });
                }
            },
            XmlEvent::Start(g) => {
                let ln = local_name_of(g.name.as_str());
                if same_text(ln.as_str(), "layer") {
                    let z_height = match get_attribute_f32(&g, "z", numbers) {
                        Ok(z) => z,
                        Err(_) => 0,
                    };
                    let layer = VolumetricLayer { z_height, content_path: text_attribute(&g, "path") };
                    let ghost before = layers@;
                    layers.push(layer);
                    proof {
                        assert(layers_view(layers@) =~= layers_view(before).push((layer.z_height, layer.content_path@)));
                    }
                    match parser.read_to_end(g.name.as_str()) {
                        Ok(()) => {},
                        Err(e) => return Err(e),
                    }
                } else if same_text(ln.as_str(), "volumetricref") {
                    let stack_id = match get_attribute_u32(&g, "volumetricstackid") {
                        Ok(v) => v,
                        Err(e) => return Err(e),
                    };
                    let vr = VolumetricRef { stack_id: ResourceId(stack_id), path: text_attribute(&g, "path") };
                    let ghost before = refs@;
                    refs.push(vr);
                    proof {
                        assert(volumetric_refs_view(refs@) =~= volumetric_refs_view(before).push((vr.stack_id.0, vr.path@)));
                    }
                    match parser.read_to_end(g.name.as_str()) {
                        Ok(()) => {},
                        Err(e) => return Err(e),
                    }
                }
            },
            _ => {},
        }
    }
}

} // verus!
