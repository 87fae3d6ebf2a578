//! Reading of the `<build>` section.

use vstd::prelude::*;
use crate::error::Lib3mfError;
use crate::model::build_section::{Build, BuildItem};
use crate::model::resources::ResourceId;
use crate::parser::component_parser::{optional_transform, path_of, read_optional_transform, read_path};
use crate::parser::crypto_parser::{eof_error, moved_on};
use crate::parser::xml_parser::{
    AttrsView, EventView, NumberTable, NumbersView, XmlEvent, XmlParser, XmlTag, attr_text, attr_u32, attr_uuid,
    attrs_view, eof_message, get_attribute, get_attribute_u32, get_attribute_uuid, numbers_view, opt_view,
};
use crate::text::same_text;

verus! {

/// A build item as values: object, UUID, part path, part number, matrix entries,
/// printable flag.
pub type ItemView = (u32, Option<u128>, Option<Seq<char>>, Option<Seq<char>>, Seq<u32>, Option<bool>);

/// A build item as values.
pub open spec fn item_view(b: BuildItem) -> ItemView {
    (b.object_id.0, b.uuid, opt_view(b.path), opt_view(b.part_number), b.transform.m@, b.printable)
}

/// Build items as values.
pub open spec fn items_view(v: Seq<BuildItem>) -> Seq<ItemView> {
    v.map_values(|b: BuildItem| item_view(b))
}

/// What an `<item>` tag gives: the object (required), transform, part number, UUID and
/// part path, checked in that order.
pub open spec fn item_of(a: AttrsView, t: NumbersView) -> Result<ItemView, Seq<char>> {
    match attr_u32(a, "objectid"@) {
        Err(m) => Err(m),
        Ok(id) => match optional_transform(a, t) {
            Err(m) => Err(m),
            Ok(m) => match attr_uuid(a) {
                Err(e) => Err(e),
                Ok(u) => Ok((id, u, path_of(a), attr_text(a, "partnumber"@), m, None)),
            },
        },
    }
}

fn read_item(tag: &XmlTag, numbers: &NumberTable) -> (r: Result<BuildItem, Lib3mfError>)
    ensures
        match item_of(attrs_view(tag.attrs@), numbers_view(*numbers)) {
            Ok(v) => r matches Ok(b) && item_view(b) == v,
            Err(m) => r matches Err(Lib3mfError::Validation(x)) && x@ == m,
        },
{
    let object_id = match get_attribute_u32(tag, "objectid") {
        Ok(v) => v,
        Err(e) => return Err(e),
    };
    let transform = match read_optional_transform(tag, numbers) {
        Ok(t) => t,
        Err(e) => return Err(e),
    };
    let part_number = get_attribute(tag, "partnumber");
    let uuid = match get_attribute_uuid(tag) {
        Ok(u) => u,
        Err(e) => return Err(e),
    };
    Ok(BuildItem { object_id: ResourceId(object_id), uuid, path: read_path(tag), part_number, transform, printable: None })
}

/// The items of a `<build>` element from position `pos` on, added to `items`, and the
/// position after its end.
pub open spec fn build_scan(evs: Seq<EventView>, err: Option<Seq<char>>, pos: int, t: NumbersView, items: Seq<ItemView>) -> Result<(Seq<ItemView>, int), Seq<char>>
    decreases evs.len() - pos,
{
    if pos < 0 || pos >= evs.len() {
        Err(eof_message(err, "Unexpected EOF in build"@))
    } else {
        match evs[pos] {
            EventView::End(n) => if n == "build"@ {
                Ok((items, pos + 1))
            } else {
                build_scan(evs, err, pos + 1, t, items)
            },
            EventView::Start(g) => if g.0 == "item"@ {
                match item_of(g.1, t) {
                    Ok(b) => build_scan(evs, err, pos + 1, t, items.push(b)),
                    Err(m) => Err(m),
                }
            } else {
                build_scan(evs, err, pos + 1, t, items)
            },
            EventView::Empty(g) => if g.0 == "item"@ {
                match item_of(g.1, t) {
                    Ok(b) => build_scan(evs, err, pos + 1, t, items.push(b)),
                    Err(m) => Err(m),
                }
            } else {
                build_scan(evs, err, pos + 1, t, items)
            },
            EventView::Text(_) | EventView::CData(_) => build_scan(evs, err, pos + 1, t, items),
        }
    }
}

/// Reads the content of a `<build>` element whose start tag was just read: each `<item>`
/// with its object, transform, part number, UUID and part path.
pub fn parse_build(parser: &mut XmlParser, numbers: &NumberTable) -> (r: Result<Build, Lib3mfError>)
    requires
        old(parser).wf(),
    ensures
        moved_on(*old(parser), *final(parser)),
        r is Ok ==> old(parser).pos < final(parser).pos,
        match build_scan(old(parser).events_of(), old(parser).error_of(), old(parser).pos as int, numbers_view(*numbers), Seq::empty()) {
            Ok((items, p)) => r matches Ok(b) && items_view(b.items@) == items && final(parser).pos == p,
            Err(m) => r matches Err(Lib3mfError::Validation(x)) && x@ == m,
        },
{
    let ghost evs = parser.events_of();
    let ghost err = parser.error_of();
    let ghost start = parser.pos as int;
    let ghost tv = numbers_view(*numbers);
    let mut items: Vec<BuildItem> = Vec::new();
    proof {
        assert(items_view(items@) =~= Seq::<ItemView>::empty());
    }
    loop
        invariant
            moved_on(*old(parser), *parser),
            start == old(parser).pos,
            evs == parser.events_of(),
            err == parser.error_of(),
            tv == numbers_view(*numbers),
            start <= parser.pos,
            build_scan(evs, err, start, tv, Seq::empty()) == build_scan(evs, err, parser.pos as int, tv, items_view(items@)),
        decreases evs.len() - parser.pos,
    {
        let ev = match parser.read_next_event() {
            Ok(Some(e)) => e,
            Ok(None) => return Err(eof_error(parser, "Unexpected EOF in build")),
            Err(e) => return Err(e),
        };
        match ev {
            XmlEvent::End(n) => {
                if same_text(n.as_str(), "build") {
                    return Ok(Build { items });
                }
            },
            XmlEvent::Start(g) | XmlEvent::Empty(g) => {
                if same_text(g.name.as_str(), "item") {
                    match read_item(&g, numbers) {
                        Ok(b) => {
                            let ghost before = items@;
                            items.push(b);
                            proof {
                                assert(items_view(items@) =~= items_view(before).push(item_view(b)));
                            }
                        },
                        Err(e) => return Err(e),
                    }
                }
            },
            XmlEvent::Text(_) | XmlEvent::CData(_) => {},
        }
    }
}

} // verus!
