//! OPC relationships and content types.

use vstd::prelude::*;
use crate::error::Lib3mfError;
use crate::parser::xml_parser::{attrs_view, event_view, events_view, read_xml_events, xml_events, AttrsView, EventView, TagView, XmlEvent};

verus! {

/// An OPC relationship.
#[derive(Debug, Clone)]
pub struct Relationship {
    /// Identifier of the relationship within the package.
    pub id: String,
    /// The relationship type URI.
    pub rel_type: String,
    /// Target part path.
    pub target: String,
    /// `Internal` for package paths, `External` for absolute URIs.
    pub target_mode: String,
}

/// An OPC content type entry.
#[derive(Debug, Clone)]
pub enum ContentType {
    /// A content type for a file extension.
    Default {
        /// File extension without the dot.
        extension: String,
        /// MIME content type.
        content_type: String,
    },
    /// A content type for one part.
    Override {
        /// Package path of the part.
        part_name: String,
        /// MIME content type.
        content_type: String,
    },
}

/// The tag of a start or empty-element event.
pub open spec fn opened_tag(e: EventView) -> Option<TagView> {
    match e {
        EventView::Start(t) => Some(t),
        EventView::Empty(t) => Some(t),
        _ => None,
    }
}

/// The value of the last attribute named `key`, or `default`.
pub open spec fn attr_or(attrs: AttrsView, key: Seq<char>, default: Seq<char>) -> Seq<char>
    decreases attrs.len(),
{
    if attrs.len() == 0 {
        default
    } else if attrs.last().0 == key {
        attrs.last().1
    } else {
        attr_or(attrs.drop_last(), key, default)
    }
}

/// A relationship as values: identifier, type, target, target mode.
pub type RelView = (Seq<char>, Seq<char>, Seq<char>, Seq<char>);

/// The relationship a `Relationship` tag with these attributes describes.
pub open spec fn rel_of(attrs: AttrsView) -> RelView {
    (attr_or(attrs, "Id"@, Seq::empty()), attr_or(attrs, "Type"@, Seq::empty()),
        attr_or(attrs, "Target"@, Seq::empty()), attr_or(attrs, "TargetMode"@, "Internal"@))
}

/// The relationships the events describe (one per `Relationship` tag, in order), or the
/// first attribute error among those tags.
pub open spec fn rels_from_events(evs: Seq<EventView>) -> Result<Seq<RelView>, Seq<char>>
    decreases evs.len(),
{
    if evs.len() == 0 {
        Ok(Seq::empty())
    } else {
        match rels_from_events(evs.drop_last()) {
            Err(e) => Err(e),
            Ok(rs) => match opened_tag(evs.last()) {
                Some(t) => if t.0 == "Relationship"@ {
                    match t.2 {
                        Some(e) => Err(e),
                        None => Ok(rs.push(rel_of(t.1))),
                    }
                } else {
                    Ok(rs)
                },
                None => Ok(rs),
            },
        }
    }
}

/// The relationships of a relationship part, or the message of the first error met
/// reading it (an attribute error of a relationship, else an XML error).
pub open spec fn relationships_of(data: Seq<u8>) -> Result<Seq<RelView>, Seq<char>> {
    let (evs, err) = xml_events(data, false);
    match rels_from_events(evs) {
        Err(m) => Err(m),
        Ok(rs) => match err {
            Some(m) => Err(m),
            None => Ok(rs),
        },
    }
}

/// A relationship as values.
pub open spec fn rel_view(r: Relationship) -> RelView {
    (r.id@, r.rel_type@, r.target@, r.target_mode@)
}

/// The relationships as values.
pub open spec fn rels_view(v: Seq<Relationship>) -> Seq<RelView> {
    v.map_values(|r: Relationship| rel_view(r))
}

fn attr_value(attrs: &Vec<(String, String)>, key: &str, default: &str) -> (r: String)
    ensures
        r@ == attr_or(attrs_view(attrs@), key@, default@),
{
    let ghost av = attrs_view(attrs@);
    let mut i: usize = attrs.len();
    proof {
        assert(av.take(i as int) =~= av);
    }
    while i > 0
        invariant
            i <= attrs@.len(),
            av == attrs_view(attrs@),
            attr_or(av, key@, default@) == attr_or(av.take(i as int), key@, default@),
        decreases i,
    {
        proof {
            assert(av.take(i as int).drop_last() =~= av.take(i - 1));
            assert(av.take(i as int).last() == av[i - 1]);
        }
        if crate::text::same_text(attrs[i - 1].0.as_str(), key) {
            return attrs[i - 1].1.clone();
        }
        i = i - 1;
    }
    proof {
        assert(av.take(0) =~= Seq::<(Seq<char>, Seq<char>)>::empty());
    }
    String::from_str(default)
}

/// The tag of an event that opens an element.
fn opened(e: &XmlEvent) -> (r: Option<&crate::parser::xml_parser::XmlTag>)
    ensures
        match r {
            Some(t) => opened_tag(event_view(*e)) == Some(crate::parser::xml_parser::tag_view(*t)),
            None => opened_tag(event_view(*e)) is None,
        },
{
    match e {
        XmlEvent::Start(t) => Some(t),
        XmlEvent::Empty(t) => Some(t),
        _ => None,
    }
}

/// Reads the relationships of a relationship part (such as `_rels/.rels`): one per
/// `Relationship` element, with its `Id`, `Type` and `Target` (empty when missing) and its
/// `TargetMode` (`Internal` when missing). XML errors are validation errors.
pub fn parse_relationships(xml_content: &[u8]) -> (r: Result<Vec<Relationship>, Lib3mfError>)
    ensures
        match relationships_of(xml_content@) {
            Err(m) => r matches Err(Lib3mfError::Validation(e)) && e@ == m,
            Ok(rs) => r matches Ok(v) && rels_view(v@) == rs,
        },
{
    let (events, error) = read_xml_events(xml_content, false);
    let ghost ev = events_view(events@);
    let mut rels: Vec<Relationship> = Vec::new();
    let mut i: usize = 0;
    proof {
        assert(ev.take(0) =~= Seq::<EventView>::empty());
        assert(rels_view(rels@) =~= Seq::<RelView>::empty());
        reveal_strlit("");
        assert(""@ =~= Seq::<char>::empty());
    }
    while i < events.len()
        invariant
            i <= events@.len(),
            ev == events_view(events@),
            xml_events(xml_content@, false) == (ev, crate::parser::xml_parser::opt_view(error)),
            rels_from_events(ev.take(i as int)) == Ok::<Seq<RelView>, Seq<char>>(rels_view(rels@)),
            ""@ == Seq::<char>::empty(),
        decreases events@.len() - i,
    {
        proof {
            assert(ev.take(i + 1).drop_last() =~= ev.take(i as int));
            assert(ev.take(i + 1).last() == event_view(events@[i as int]));
        }
        if let Some(t) = opened(&events[i]) {
            if crate::text::same_text(t.name.as_str(), "Relationship") {
                match &t.attr_error {
                    None => {
                        let ghost r0 = rels@;
                        let id = attr_value(&t.attrs, "Id", "");
                        let rel_type = attr_value(&t.attrs, "Type", "");
                        let target = attr_value(&t.attrs, "Target", "");
                        let target_mode = attr_value(&t.attrs, "TargetMode", "Internal");
                        rels.push(Relationship { id, rel_type, target, target_mode });
                        proof {
                            assert(rel_view(rels@.last()) == rel_of(attrs_view(t.attrs@)));
                            assert(rels_view(rels@) =~= rels_view(r0).push(rel_view(rels@.last())));
                        }
                    },
                    Some(m) => {
                        proof {
                            assert(ev.take(events@.len() as int) =~= ev);
                            lemma_rels_error_sticks(ev, i as nat + 1);
                        }
                        return Err(Lib3mfError::Validation(m.clone()));
                    },
                }
            }
        }
        i = i + 1;
    }
    proof {
        assert(ev.take(events@.len() as int) =~= ev);
    }
    match error {
        Some(m) => Err(Lib3mfError::Validation(m)),
        None => Ok(rels),
    }
}

/// Once reading the relationships fails, reading more events fails with the same error.
proof fn lemma_rels_error_sticks(evs: Seq<EventView>, n: nat)
    requires
        n <= evs.len(),
        rels_from_events(evs.take(n as int)) is Err,
    ensures
        rels_from_events(evs) == rels_from_events(evs.take(n as int)),
    decreases evs.len() - n,
{
    if n < evs.len() {
        assert(evs.take((n + 1) as int).drop_last() =~= evs.take(n as int));
        lemma_rels_error_sticks(evs, n + 1);
    } else {
        assert(evs.take(n as int) =~= evs);
    }
}

/// A content type as values: whether it is a `Default` (else an `Override`), then the
/// extension or part name, then the content type.
pub type ContentTypeView = (bool, Seq<char>, Seq<char>);

/// A content type as values.
pub open spec fn content_type_view(c: ContentType) -> ContentTypeView {
    match c {
        ContentType::Default { extension, content_type } => (true, extension@, content_type@),
        ContentType::Override { part_name, content_type } => (false, part_name@, content_type@),
    }
}

/// The content types as values.
pub open spec fn content_types_view(v: Seq<ContentType>) -> Seq<ContentTypeView> {
    v.map_values(|c: ContentType| content_type_view(c))
}

/// The content types the events describe (one per `Default` or `Override` tag, in order,
/// with missing attributes empty), or the first attribute error among those tags.
pub open spec fn content_types_from_events(evs: Seq<EventView>) -> Result<Seq<ContentTypeView>, Seq<char>>
    decreases evs.len(),
{
    if evs.len() == 0 {
        Ok(Seq::empty())
    } else {
        match content_types_from_events(evs.drop_last()) {
            Err(e) => Err(e),
            Ok(cs) => match opened_tag(evs.last()) {
                Some(t) => if t.0 == "Default"@ || t.0 == "Override"@ {
                    match t.2 {
                        Some(e) => Err(e),
                        None => if t.0 == "Default"@ {
                            Ok(cs.push((true, attr_or(t.1, "Extension"@, Seq::empty()), attr_or(t.1, "ContentType"@, Seq::empty()))))
                        } else {
                            Ok(cs.push((false, attr_or(t.1, "PartName"@, Seq::empty()), attr_or(t.1, "ContentType"@, Seq::empty()))))
                        },
                    }
                } else {
                    Ok(cs)
                },
                None => Ok(cs),
            },
        }
    }
}

/// The content types of `[Content_Types].xml`, or the message of the first error met
/// reading it (an attribute error of an entry, else an XML error).
pub open spec fn content_types_of(data: Seq<u8>) -> Result<Seq<ContentTypeView>, Seq<char>> {
    let (evs, err) = xml_events(data, false);
    match content_types_from_events(evs) {
        Err(m) => Err(m),
        Ok(cs) => match err {
            Some(m) => Err(m),
            None => Ok(cs),
        },
    }
}

/// Once reading the content types fails, reading more events fails with the same error.
proof fn lemma_content_types_error_sticks(evs: Seq<EventView>, n: nat)
    requires
        n <= evs.len(),
        content_types_from_events(evs.take(n as int)) is Err,
    ensures
        content_types_from_events(evs) == content_types_from_events(evs.take(n as int)),
    decreases evs.len() - n,
{
    if n < evs.len() {
        assert(evs.take((n + 1) as int).drop_last() =~= evs.take(n as int));
        lemma_content_types_error_sticks(evs, n + 1);
    } else {
        assert(evs.take(n as int) =~= evs);
    }
}

/// Reads `[Content_Types].xml`: one entry per `Default` element (its `Extension` and
/// `ContentType`) and per `Override` element (its `PartName` and `ContentType`), missing
/// attributes empty. XML errors are validation errors.
pub fn parse_content_types(xml_content: &[u8]) -> (r: Result<Vec<ContentType>, Lib3mfError>)
    ensures
        match content_types_of(xml_content@) {
            Err(m) => r matches Err(Lib3mfError::Validation(e)) && e@ == m,
            Ok(cs) => r matches Ok(v) && content_types_view(v@) == cs,
        },
{
    let (events, error) = read_xml_events(xml_content, false);
    let ghost ev = events_view(events@);
    let mut types: Vec<ContentType> = Vec::new();
    let mut i: usize = 0;
    proof {
        assert(ev.take(0) =~= Seq::<EventView>::empty());
        assert(content_types_view(types@) =~= Seq::<ContentTypeView>::empty());
        reveal_strlit("");
        assert(""@ =~= Seq::<char>::empty());
    }
    while i < events.len()
        invariant
            i <= events@.len(),
            ev == events_view(events@),
            xml_events(xml_content@, false) == (ev, crate::parser::xml_parser::opt_view(error)),
            content_types_from_events(ev.take(i as int)) == Ok::<Seq<ContentTypeView>, Seq<char>>(content_types_view(types@)),
            ""@ == Seq::<char>::empty(),
        decreases events@.len() - i,
    {
        proof {
            assert(ev.take(i + 1).drop_last() =~= ev.take(i as int));
            assert(ev.take(i + 1).last() == event_view(events@[i as int]));
        }
        if let Some(t) = opened(&events[i]) {
            let is_default = crate::text::same_text(t.name.as_str(), "Default");
            if is_default || crate::text::same_text(t.name.as_str(), "Override") {
                match &t.attr_error {
                    None => {
                        let ghost c0 = types@;
                        let content_type = attr_value(&t.attrs, "ContentType", "");
                        if is_default {
                            let extension = attr_value(&t.attrs, "Extension", "");
                            types.push(ContentType::Default { extension, content_type });
                        } else {
                            let part_name = attr_value(&t.attrs, "PartName", "");
                            types.push(ContentType::Override { part_name, content_type });
                        }
                        proof {
                            assert(content_types_view(types@) =~= content_types_view(c0).push(content_type_view(types@.last())));
                        }
                    },
                    Some(m) => {
                        proof {
                            assert(ev.take(events@.len() as int) =~= ev);
                            lemma_content_types_error_sticks(ev, i as nat + 1);
                        }
                        return Err(Lib3mfError::Validation(m.clone()));
                    },
                }
            }
        }
        i = i + 1;
    }
    proof {
        assert(ev.take(events@.len() as int) =~= ev);
    }
    match error {
        Some(m) => Err(Lib3mfError::Validation(m)),
        None => Ok(types),
    }
}

} // verus!
