//! Reading of `<components>` and of transformation matrices.

use vstd::prelude::*;
use crate::error::Lib3mfError;
use crate::model::mesh::{Component, Components, ONE_BITS, Transform};
use crate::model::resources::ResourceId;
use crate::parser::crypto_parser::moved_on;
use crate::parser::xml_parser::{
    AttrsView, EventView, NumberTable, NumbersView, XmlEvent, XmlParser, XmlTag, attr_text, attr_u32, attr_uuid,
    attrs_view, eof_message, get_attribute, get_attribute_u32, get_attribute_uuid, numbers_view, split_words,
    std_number, words,
};
use crate::text::{decimal, push_decimal, same_text};

verus! {

/// The bit patterns of the numbers of a transform text, or the message for the first that
/// is no number.
pub open spec fn transform_values(parts: Seq<Seq<char>>, t: NumbersView) -> Result<Seq<u32>, Seq<char>>
    decreases parts.len(),
{
    if parts.len() == 0 {
        Ok(Seq::empty())
    } else {
        match transform_values(parts.drop_last(), t) {
            Err(m) => Err(m),
            Ok(v) => match std_number(t, parts.last()) {
                Some(b) => Ok(v.push(b)),
                None => Err("Invalid float in transform: "@ + parts.last()),
            },
        }
    }
}

/// The entries (column-major) of the 4x4 matrix whose first three rows are given by twelve
/// values, column by column, the last row being `0 0 0 1`.
pub open spec fn matrix_entries(p: Seq<u32>) -> Seq<u32> {
    Seq::new(16, |i: int| if i % 4 == 3 {
        if i == 15 { ONE_BITS } else { 0u32 }
    } else {
        p[(i / 4) * 3 + i % 4]
    })
}

/// What a transform text gives: twelve numbers (read by `str::parse`) as a matrix, or the
/// message for a wrong count or a malformed number.
pub open spec fn transform_of(s: Seq<char>, t: NumbersView) -> Result<Seq<u32>, Seq<char>> {
    let ws = words(s);
    if ws.len() != 12 {
        Err("Invalid transform matrix: expected 12 values, got "@ + decimal(ws.len()))
    } else {
        match transform_values(ws, t) {
            Err(m) => Err(m),
            Ok(p) => Ok(matrix_entries(p)),
        }
    }
}

/// Reads a transform attribute: twelve numbers, the first three rows of a 4x4 matrix
/// column by column.
pub fn parse_transform(s: &str, numbers: &NumberTable) -> (r: Result<Transform, Lib3mfError>)
    ensures
        match transform_of(s@, numbers_view(*numbers)) {
            Ok(m) => r matches Ok(x) && x.m@ == m,
            Err(m) => r matches Err(Lib3mfError::Validation(x)) && x@ == m,
        },
{
    let parts = split_words(s);
    let ghost ws = words(s@);
    proof {
        assert(ws.len() == parts@.len());
        assert forall|k: int| 0 <= k < ws.len() implies ws[k] == #[trigger] parts@[k]@ by {
            assert(parts@.map_values(|w: String| w@)[k] == parts@[k]@);
        }
    }
    if parts.len() != 12 {
        let mut m = String::from_str("Invalid transform matrix: expected 12 values, got ");
        push_decimal(&mut m, parts.len() as u64);
        return Err(Lib3mfError::Validation(m));
    }
    let mut p: Vec<u32> = Vec::new();
    let mut i: usize = 0;
    proof {
        assert(ws.take(0) =~= Seq::<Seq<char>>::empty());
    }
    while i < 12
        invariant
            parts@.len() == 12,
            ws == words(s@),
            ws.len() == 12,
            forall|k: int| 0 <= k < 12 ==> ws[k] == #[trigger] parts@[k]@,
            i <= 12,
            p@.len() == i,
            transform_values(ws.take(i as int), numbers_view(*numbers)) == Ok::<Seq<u32>, Seq<char>>(p@),
        decreases 12 - i,
    {
        proof {
            assert(ws.take(i + 1).drop_last() =~= ws.take(i as int));
            assert(ws.take(i + 1).last() == parts@[i as int]@);
        }
        match numbers.standard(parts[i].as_str()) {
            Some(b) => p.push(b),
            None => {
                proof {
                    assert(transform_values(ws.take(i + 1), numbers_view(*numbers))
                        == Err::<Seq<u32>, Seq<char>>("Invalid float in transform: "@ + parts@[i as int]@));
                    lemma_values_error_sticks(ws, numbers_view(*numbers), i as int + 1);
                    assert(ws.take(12) =~= ws);
                }
                return Err(Lib3mfError::Validation(String::from_str("Invalid float in transform: ").concat(parts[i].as_str())));
            },
        }
        i = i + 1;
    }
    proof {
        assert(ws.take(12) =~= ws);
    }
    let t = Transform {
        m: [p[0], p[1], p[2], 0, p[3], p[4], p[5], 0, p[6], p[7], p[8], 0, p[9], p[10], p[11], ONE_BITS],
    };
    proof {
        assert(t.m@ =~= matrix_entries(p@));
    }
    Ok(t)
}

/// Once a prefix of the parts fails, every longer prefix fails with the same message.
proof fn lemma_values_error_sticks(parts: Seq<Seq<char>>, t: NumbersView, k: int)
    requires
        0 <= k <= parts.len(),
        transform_values(parts.take(k), t) is Err,
    ensures
        transform_values(parts.take(parts.len() as int), t) == transform_values(parts.take(k), t),
    decreases parts.len() - k,
{
    if k < parts.len() {
        assert(parts.take(k + 1).drop_last() =~= parts.take(k));
        lemma_values_error_sticks(parts, t, k + 1);
    }
}

/// A component as values: object, part path, UUID, matrix entries.
pub type ComponentView = (u32, Option<Seq<char>>, Option<u128>, Seq<u32>);

/// A component as values.
pub open spec fn component_view(c: Component) -> ComponentView {
    (c.object_id.0, crate::parser::xml_parser::opt_view(c.path), c.uuid, c.transform.m@)
}

/// Components as values.
pub open spec fn components_view(v: Seq<Component>) -> Seq<ComponentView> {
    v.map_values(|c: Component| component_view(c))
}

/// The entries of the identity matrix.
pub open spec fn identity_entries() -> Seq<u32> {
    Seq::new(16, |i: int| if i % 5 == 0 { ONE_BITS } else { 0u32 })
}

/// The optional transform attribute of a tag: the identity when absent.
pub open spec fn optional_transform(a: AttrsView, t: NumbersView) -> Result<Seq<u32>, Seq<char>> {
    match attr_text(a, "transform"@) {
        Some(s) => transform_of(s, t),
        None => Ok(identity_entries()),
    }
}

/// The part path of a tag (`path`, else `p:path`).
pub open spec fn path_of(a: AttrsView) -> Option<Seq<char>> {
    match attr_text(a, "path"@) {
        Some(p) => Some(p),
        None => attr_text(a, "p:path"@),
    }
}

/// What a `<component>` tag gives: the object (required), UUID and transform, checked in
/// that order, and the part path.
pub open spec fn component_of(a: AttrsView, t: NumbersView) -> Result<ComponentView, Seq<char>> {
    match attr_u32(a, "objectid"@) {
        Err(m) => Err(m),
        Ok(id) => match attr_uuid(a) {
            Err(m) => Err(m),
            Ok(u) => match optional_transform(a, t) {
                Err(m) => Err(m),
                Ok(m) => Ok((id, path_of(a), u, m)),
            },
        },
    }
}

/// The transform attribute of a tag, the identity when absent.
pub fn read_optional_transform(tag: &XmlTag, numbers: &NumberTable) -> (r: Result<Transform, Lib3mfError>)
    ensures
        match optional_transform(attrs_view(tag.attrs@), numbers_view(*numbers)) {
            Ok(m) => r matches Ok(x) && x.m@ == m,
            Err(m) => r matches Err(Lib3mfError::Validation(x)) && x@ == m,
        },
{
    match get_attribute(tag, "transform") {
        Some(s) => parse_transform(s.as_str(), numbers),
        None => {
            let t = Transform::identity();
            proof {
                assert(t.m@ =~= identity_entries());
            }
            Ok(t)
        },
    }
}

/// The part path of a tag (`path`, else `p:path`).
pub fn read_path(tag: &XmlTag) -> (r: Option<String>)
    ensures
        crate::parser::xml_parser::opt_view(r) == path_of(attrs_view(tag.attrs@)),
{
    match get_attribute(tag, "path") {
        Some(p) => Some(p),
        None => get_attribute(tag, "p:path"),
    }
}

fn read_component(tag: &XmlTag, numbers: &NumberTable) -> (r: Result<Component, Lib3mfError>)
    ensures
        match component_of(attrs_view(tag.attrs@), numbers_view(*numbers)) {
            Ok(v) => r matches Ok(c) && component_view(c) == v,
            Err(m) => r matches Err(Lib3mfError::Validation(x)) && x@ == m,
        },
{
    let object_id = match get_attribute_u32(tag, "objectid") {
        Ok(v) => v,
        Err(e) => return Err(e),
    };
    let uuid = match get_attribute_uuid(tag) {
        Ok(u) => u,
        Err(e) => return Err(e),
    };
    let transform = match read_optional_transform(tag, numbers) {
        Ok(t) => t,
        Err(e) => return Err(e),
    };
    Ok(Component { object_id: ResourceId(object_id), path: read_path(tag), uuid, transform })
}

/// The components of a `<components>` element from position `pos` on, added to `cs`, and
/// the position after its end.
pub open spec fn components_scan(evs: Seq<EventView>, err: Option<Seq<char>>, pos: int, t: NumbersView, cs: Seq<ComponentView>) -> Result<(Seq<ComponentView>, int), Seq<char>>
    decreases evs.len() - pos,
{
    if pos < 0 || pos >= evs.len() {
        Err(eof_message(err, "Unexpected EOF in components"@))
    } else {
        match evs[pos] {
            EventView::End(n) => if n == "components"@ {
                Ok((cs, pos + 1))
            } else {
                components_scan(evs, err, pos + 1, t, cs)
            },
            EventView::Start(g) => if g.0 == "component"@ {
                match component_of(g.1, t) {
                    Ok(c) => components_scan(evs, err, pos + 1, t, cs.push(c)),
                    Err(m) => Err(m),
                }
            } else {
                components_scan(evs, err, pos + 1, t, cs)
            },
            EventView::Empty(g) => if g.0 == "component"@ {
                match component_of(g.1, t) {
                    Ok(c) => components_scan(evs, err, pos + 1, t, cs.push(c)),
                    Err(m) => Err(m),
                }
            } else {
                components_scan(evs, err, pos + 1, t, cs)
            },
            EventView::Text(_) | EventView::CData(_) => components_scan(evs, err, pos + 1, t, cs),
        }
    }
}

/// Reads the content of a `<components>` element whose start tag was just read: each
/// `<component>` with its object, UUID, transform and part path.
pub fn parse_components(parser: &mut XmlParser, numbers: &NumberTable) -> (r: Result<Components, Lib3mfError>)
    requires
        old(parser).wf(),
    ensures
        moved_on(*old(parser), *final(parser)),
        r is Ok ==> old(parser).pos < final(parser).pos,
        match components_scan(old(parser).events_of(), old(parser).error_of(), old(parser).pos as int, numbers_view(*numbers), Seq::empty()) {
            Ok((cs, p)) => r matches Ok(x) && components_view(x.components@) == cs && final(parser).pos == p,
            Err(m) => r matches Err(Lib3mfError::Validation(x)) && x@ == m,
        },
{
    let ghost evs = parser.events_of();
    let ghost err = parser.error_of();
    let ghost start = parser.pos as int;
    let ghost tv = numbers_view(*numbers);
    let mut components: Vec<Component> = Vec::new();
    proof {
        assert(components_view(components@) =~= Seq::<ComponentView>::empty());
    }
    loop
        invariant
            moved_on(*old(parser), *parser),
            start == old(parser).pos,
            evs == parser.events_of(),
            err == parser.error_of(),
            tv == numbers_view(*numbers),
            start <= parser.pos,
            components_scan(evs, err, start, tv, Seq::empty())
                == components_scan(evs, err, parser.pos as int, tv, components_view(components@)),
        decreases evs.len() - parser.pos,
    {
        let ev = match parser.read_next_event() {
            Ok(Some(e)) => e,
            Ok(None) => return Err(crate::parser::crypto_parser::eof_error(parser, "Unexpected EOF in components")),
            Err(e) => return Err(e),
        };
        match ev {
            XmlEvent::End(n) => {
                if same_text(n.as_str(), "components") {
                    return Ok(Components { components });
                }
            },
            XmlEvent::Start(g) | XmlEvent::Empty(g) => {
                if same_text(g.name.as_str(), "component") {
                    match read_component(&g, numbers) {
                        Ok(c) => {
                            let ghost before = components@;
                            components.push(c);
                            proof {
                                assert(components_view(components@) =~= components_view(before).push(component_view(c)));
                            }
                        },
                        Err(e) => return Err(e),
                    }
                }
            },
            XmlEvent::Text(_) | XmlEvent::CData(_) => {},
        }
    }
}

} // verus!
