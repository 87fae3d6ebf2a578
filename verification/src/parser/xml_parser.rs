//! XML documents as sequences of events, attribute lookup and number texts.

use vstd::prelude::*;
use quick_xml::events::attributes::Attribute;
use quick_xml::events::BytesStart;
use quick_xml::events::Event::{
    CData as XCData, Comment as XComment, Decl as XDecl, DocType as XDocType, Empty as XEmpty, End as XEnd, Eof,
    GeneralRef as XGeneralRef, Start as XStart, Text as XText, PI as XPI,
};
use self::RawKind::{CData, Comment, Decl, DocType, Empty, End, GeneralRef, Start, Text, PI};
use quick_xml::name::QName;
use quick_xml::Reader;
use std::borrow::Cow;

verus! {

/// An element's opening tag: its raw name, its attributes as written (up to the first
/// malformed one, duplicates kept), and the first error that a checked reading of the
/// attributes meets (a malformed or a duplicated attribute).
pub struct XmlTag {
    /// The raw tag name.
    pub name: String,
    /// Raw attribute names and values, in order.
    pub attrs: Vec<(String, String)>,
    /// The message of the first attribute error, if any.
    pub attr_error: Option<String>,
}

/// One event of a document: start, empty and end tags, and text (raw, trimmed).
pub enum XmlEvent {
    /// `<tag ...>`.
    Start(XmlTag),
    /// `<tag .../>`.
    Empty(XmlTag),
    /// `</tag>`, with the raw name.
    End(String),
    /// Character data between tags, as written.
    Text(String),
    /// The content of a CDATA section.
    CData(String),
}

/// Attributes as values.
pub type AttrsView = Seq<(Seq<char>, Seq<char>)>;

/// A tag as values: name, attributes, attribute error.
pub type TagView = (Seq<char>, AttrsView, Option<Seq<char>>);

/// An event as values.
pub enum EventView {
    /// A start tag.
    Start(TagView),
    /// An empty-element tag.
    Empty(TagView),
    /// An end tag.
    End(Seq<char>),
    /// Text.
    Text(Seq<char>),
    /// A CDATA section's content.
    CData(Seq<char>),
}

/// An optional text as values.
pub open spec fn opt_view(o: Option<String>) -> Option<Seq<char>> {
    match o {
        Some(s) => Some(s@),
        None => None,
    }
}

/// Attribute pairs as values.
pub open spec fn attrs_view(v: Seq<(String, String)>) -> AttrsView {
    v.map_values(|p: (String, String)| (p.0@, p.1@))
}

/// A tag as values.
pub open spec fn tag_view(t: XmlTag) -> TagView {
    (t.name@, attrs_view(t.attrs@), opt_view(t.attr_error))
}

/// An event as values.
pub open spec fn event_view(e: XmlEvent) -> EventView {
    match e {
        XmlEvent::Start(t) => EventView::Start(tag_view(t)),
        XmlEvent::Empty(t) => EventView::Empty(tag_view(t)),
        XmlEvent::End(n) => EventView::End(n@),
        XmlEvent::Text(s) => EventView::Text(s@),
        XmlEvent::CData(s) => EventView::CData(s@),
    }
}

/// Events as values.
pub open spec fn events_view(v: Seq<XmlEvent>) -> Seq<EventView> {
    v.map_values(|e: XmlEvent| event_view(e))
}

/// The kind of an event that `quick_xml` reports, one for each of its kinds.
#[derive(Debug, Clone, Copy)]
pub enum RawKind {
    /// `<tag ...>`.
    Start,
    /// `<tag .../>`.
    Empty,
    /// `</tag>`.
    End,
    /// Character data.
    Text,
    /// `<![CDATA[...]]>`.
    CData,
    /// `<!--...-->`.
    Comment,
    /// `<?xml ...?>`.
    Decl,
    /// `<?target ...?>`.
    PI,
    /// `<!DOCTYPE ...>`.
    DocType,
    /// `&name;` in text.
    GeneralRef,
}

/// An event as `quick_xml` reports it: the raw name of a tag (empty for other kinds), the
/// event's text as written (the whole tag for start and empty tags, the name for end tags,
/// the content otherwise), and its kind.
pub struct RawXmlEvent(pub String, pub String, pub RawKind);

/// A raw event as values.
pub enum RawEventView {
    /// A start tag: name, tag text.
    Start(Seq<char>, Seq<char>),
    /// An empty-element tag: name, tag text.
    Empty(Seq<char>, Seq<char>),
    /// An end tag.
    End(Seq<char>),
    /// Text.
    Text(Seq<char>),
    /// A CDATA section's content.
    CData(Seq<char>),
    /// A comment.
    Comment(Seq<char>),
    /// An XML declaration.
    Decl(Seq<char>),
    /// A processing instruction.
    PI(Seq<char>),
    /// A document type declaration.
    DocType(Seq<char>),
    /// An entity reference in text.
    GeneralRef(Seq<char>),
}

/// A raw event as values.
pub open spec fn raw_view(e: RawXmlEvent) -> RawEventView {
    match e.2 {
        RawKind::Start => RawEventView::Start(e.0@, e.1@),
        RawKind::Empty => RawEventView::Empty(e.0@, e.1@),
        RawKind::End => RawEventView::End(e.1@),
        RawKind::Text => RawEventView::Text(e.1@),
        RawKind::CData => RawEventView::CData(e.1@),
        RawKind::Comment => RawEventView::Comment(e.1@),
        RawKind::Decl => RawEventView::Decl(e.1@),
        RawKind::PI => RawEventView::PI(e.1@),
        RawKind::DocType => RawEventView::DocType(e.1@),
        RawKind::GeneralRef => RawEventView::GeneralRef(e.1@),
    }
}

/// Raw events as values.
pub open spec fn raws_view(v: Seq<RawXmlEvent>) -> Seq<RawEventView> {
    v.map_values(|e: RawXmlEvent| raw_view(e))
}

/// The events that `quick_xml` reads from a document (text trimmed; empty elements split
/// into a start and an end when `expand_empty` holds), every kind of event, up to the end of
/// the document or the first read error, with that error's message.
pub uninterp spec fn raw_xml_events(data: Seq<u8>, expand_empty: bool) -> (Seq<RawEventView>, Option<Seq<char>>);

/// Reads a document with `quick_xml::Reader` (trimming text, expanding empty elements as
/// asked), converting every event one for one, until the end or the first error.
/// The result is a function of the arguments alone; what it is for given bytes is
/// `quick_xml`'s to say and is not stated here.
#[verifier::external_body]
fn read_raw_events(data: &[u8], expand_empty: bool, events: &mut Vec<RawXmlEvent>) -> (r: Option<String>)
    requires
        old(events)@.len() == 0,
    ensures
        (raws_view(final(events)@), opt_view(r)) == raw_xml_events(data@, expand_empty),
{
    let mut reader = Reader::from_reader(data);
    reader.config_mut().trim_text(true);
    reader.config_mut().expand_empty_elements = expand_empty;
    loop {
        let ev = match reader.read_event() { Err(e) => return Some(e.to_string()), Ok(ev) => ev };
        events.push(RawXmlEvent(
            match &ev { XStart(e) | XEmpty(e) => e.name().0.into(), _ => "".into() },
            ev.to_string(),
            match ev { XStart(_) => Start, XEmpty(_) => Empty, XEnd(_) => End, XText(_) => Text, XCData(_) => CData,
                XComment(_) => Comment, XDecl(_) => Decl, XPI(_) => PI, XDocType(_) => DocType, XGeneralRef(_) => GeneralRef, Eof => return None },
        ));
    }
}

/// The attributes `quick_xml` reads from the tag with this name and attribute text: the
/// attributes unchecked up to the first malformed one, and the first error of the checked
/// reading (a malformed or a duplicated attribute).
pub uninterp spec fn xml_tag_attributes(name: Seq<char>, raw: Seq<char>) -> (AttrsView, Option<Seq<char>>);

/// Whether no two attributes share a name.
pub open spec fn distinct_keys(a: AttrsView) -> bool {
    forall|i: int, j: int| 0 <= i < j < a.len() ==> #[trigger] a[i].0 != #[trigger] a[j].0
}

/// Reads the attributes of a tag with `BytesStart::attributes`, unchecked and checked.
/// The result is a function of the arguments alone and is not stated here, but for what
/// the checked reading guarantees: when it meets no error, no two attributes share a name.
#[verifier::external_body]
fn read_attributes(name: &str, raw: &str) -> (r: (Vec<(String, String)>, Option<String>))
    ensures
        (attrs_view(r.0@), opt_view(r.1)) == xml_tag_attributes(name@, raw@),
        r.1 is None ==> distinct_keys(attrs_view(r.0@)),
{
    let tag = BytesStart::from_content(format!("{}{}", name, raw), name.len());
    let attrs = tag.attributes().with_checks(false).map_while(|a| a.ok()).map(|a| (a.key.0.to_string(), a.value.to_string())).collect();
    (attrs, tag.attributes().find_map(|a| a.err()).map(|x| x.to_string()))
}

/// The tag with this name and attribute text.
pub open spec fn tag_from(name: Seq<char>, raw: Seq<char>) -> TagView {
    (name, xml_tag_attributes(name, raw).0, xml_tag_attributes(name, raw).1)
}

/// Whether the parsers read an event: tags, text and CDATA sections; comments,
/// declarations, processing instructions, document types and entity references are passed
/// over.
pub open spec fn is_read(e: RawEventView) -> bool {
    e is Start || e is Empty || e is End || e is Text || e is CData
}

/// The attribute text of a tag: its text after the name.
pub open spec fn after_name(name: Seq<char>, text: Seq<char>) -> Seq<char> {
    if name.len() <= text.len() { text.skip(name.len() as int) } else { Seq::empty() }
}

/// An event that the parsers read, with its attributes read.
pub open spec fn cooked(e: RawEventView) -> EventView {
    match e {
        RawEventView::Start(n, a) => EventView::Start(tag_from(n, after_name(n, a))),
        RawEventView::Empty(n, a) => EventView::Empty(tag_from(n, after_name(n, a))),
        RawEventView::End(n) => EventView::End(n),
        RawEventView::Text(t) => EventView::Text(t),
        RawEventView::CData(t) => EventView::CData(t),
        _ => EventView::Text(Seq::empty()),
    }
}

/// The events of `raws` that the parsers read, cooked, in order.
pub open spec fn read_events(raws: Seq<RawEventView>) -> Seq<EventView>
    decreases raws.len(),
{
    if raws.len() == 0 {
        Seq::empty()
    } else if is_read(raws.last()) {
        read_events(raws.drop_last()).push(cooked(raws.last()))
    } else {
        read_events(raws.drop_last())
    }
}

/// The events of a document that the parsers read, tags with their attributes, up to the
/// end or the first error, with that error's message.
pub open spec fn xml_events(data: Seq<u8>, expand_empty: bool) -> (Seq<EventView>, Option<Seq<char>>) {
    (read_events(raw_xml_events(data, expand_empty).0), raw_xml_events(data, expand_empty).1)
}

/// The attribute text of a tag, as [`after_name`] says.
fn attribute_text<'a>(name: &str, text: &'a str) -> (r: &'a str)
    ensures
        r@ == after_name(name@, text@),
{
    let n = name.unicode_len();
    let l = text.unicode_len();
    if n <= l {
        let r = text.substring_char(n, l);
        proof {
            assert(r@ =~= text@.skip(n as int));
        }
        r
    } else {
        proof {
            reveal_strlit("");
        }
        ""
    }
}

fn make_tag(name: String, raw: &str) -> (t: XmlTag)
    ensures
        tag_view(t) == tag_from(name@, raw@),
        t.attr_error is None ==> distinct_keys(attrs_view(t.attrs@)),
{
    let (attrs, attr_error) = read_attributes(name.as_str(), raw);
    XmlTag { name, attrs, attr_error }
}

/// Whether a tag read without attribute error has no two attributes of one name.
pub open spec fn keys_ok(e: EventView) -> bool {
    match e {
        EventView::Start(t) => t.2 is None ==> distinct_keys(t.1),
        EventView::Empty(t) => t.2 is None ==> distinct_keys(t.1),
        _ => true,
    }
}

/// The events of a document as [`xml_events`] describes.
pub fn read_xml_events(data: &[u8], expand_empty: bool) -> (r: (Vec<XmlEvent>, Option<String>))
    ensures
        (events_view(r.0@), opt_view(r.1)) == xml_events(data@, expand_empty),
        forall|i: int| 0 <= i < r.0@.len() ==> keys_ok(#[trigger] event_view(r.0@[i])),
{
    let mut raws: Vec<RawXmlEvent> = Vec::new();
    let error = read_raw_events(data, expand_empty, &mut raws);
    let ghost rv = raws_view(raws@);
    let mut events: Vec<XmlEvent> = Vec::new();
    let mut i: usize = 0;
    while i < raws.len()
        invariant
            i <= raws@.len(),
            rv == raws_view(raws@),
            events_view(events@) == read_events(rv.take(i as int)),
            forall|k: int| 0 <= k < events@.len() ==> keys_ok(#[trigger] event_view(events@[k])),
        decreases raws@.len() - i,
    {
        let ghost before = events@;
        proof {
            assert(rv.take(i + 1).drop_last() =~= rv.take(i as int));
            assert(rv.take(i + 1).last() == rv[i as int]);
        }
        let r = &raws[i];
        let ev = match r.2 {
            RawKind::Start => Some(XmlEvent::Start(make_tag(r.0.clone(), attribute_text(r.0.as_str(), r.1.as_str())))),
            RawKind::Empty => Some(XmlEvent::Empty(make_tag(r.0.clone(), attribute_text(r.0.as_str(), r.1.as_str())))),
            RawKind::End => Some(XmlEvent::End(r.1.clone())),
            RawKind::Text => Some(XmlEvent::Text(r.1.clone())),
            RawKind::CData => Some(XmlEvent::CData(r.1.clone())),
            _ => None,
        };
        match ev {
            Some(ev) => {
                events.push(ev);
                proof {
                    assert(event_view(ev) == cooked(rv[i as int]));
                    assert(events_view(events@) =~= events_view(before).push(event_view(ev)));
                }
            },
            None => {},
        }
        i = i + 1;
    }
    proof {
        assert(rv.take(raws@.len() as int) =~= rv);
    }
    (events, error)
}

/// What `quick_xml` makes of a raw attribute value (entities replaced, whitespace
/// normalised, as XML 1.0 asks), or `None` when it cannot.
pub uninterp spec fn attribute_unescaped(raw: Seq<char>) -> Option<Seq<char>>;

/// Normalises a raw attribute value with `quick_xml`'s `Attribute::unescape_value`.
/// The result is a function of the value alone and is not stated here.
#[verifier::external_body]
fn unescape_attribute(raw: &str) -> (r: Option<String>)
    ensures
        opt_view(r) == attribute_unescaped(raw@),
{
    Attribute { key: QName(""), value: Cow::Borrowed(raw) }.unescape_value().ok().map(|v| v.into_owned())
}

/// The raw value of the first attribute named `key`.
pub open spec fn find_attr(attrs: AttrsView, key: Seq<char>) -> Option<Seq<char>>
    decreases attrs.len(),
{
    if attrs.len() == 0 {
        None
    } else if attrs[0].0 == key {
        Some(attrs[0].1)
    } else {
        find_attr(attrs.drop_first(), key)
    }
}

/// The value of the first attribute named `key`, normalised, or as written when it cannot
/// be normalised.
pub open spec fn attr_text(attrs: AttrsView, key: Seq<char>) -> Option<Seq<char>> {
    match find_attr(attrs, key) {
        Some(raw) => match attribute_unescaped(raw) {
            Some(v) => Some(v),
            None => Some(raw),
        },
        None => None,
    }
}

/// The value of attribute `key` of a tag, as [`attr_text`] describes.
pub fn get_attribute(tag: &XmlTag, key: &str) -> (r: Option<String>)
    ensures
        opt_view(r) == attr_text(attrs_view(tag.attrs@), key@),
{
    let ghost av = attrs_view(tag.attrs@);
    let mut i: usize = 0;
    proof {
        assert(av.skip(0) =~= av);
    }
    while i < tag.attrs.len()
        invariant
            i <= tag.attrs@.len(),
            av == attrs_view(tag.attrs@),
            find_attr(av, key@) == find_attr(av.skip(i as int), key@),
        decreases tag.attrs@.len() - i,
    {
        proof {
            assert(av.skip(i as int).drop_first() =~= av.skip(i + 1));
            assert(av.skip(i as int)[0] == av[i as int]);
        }
        if crate::text::same_text(tag.attrs[i].0.as_str(), key) {
            let raw = tag.attrs[i].1.as_str();
            return match unescape_attribute(raw) {
                Some(v) => Some(v),
                None => Some(String::from_str(raw)),
            };
        }
        i = i + 1;
    }
    None
}

// ---------------------------------------------------------------- numbers

/// The value of a sequence of decimal digits.
pub open spec fn digits_value(s: Seq<char>) -> int
    decreases s.len(),
{
    if s.len() == 0 {
        0
    } else {
        digits_value(s.drop_last()) * 10 + (s.last() as int - '0' as int)
    }
}

/// Whether every character is an ASCII digit.
pub open spec fn all_digits(s: Seq<char>) -> bool {
    forall|i: int| 0 <= i < s.len() ==> '0' <= #[trigger] s[i] <= '9'
}

/// The text without one leading `+`.
pub open spec fn unsigned_digits(s: Seq<char>) -> Seq<char> {
    if s.len() > 0 && s[0] == '+' { s.drop_first() } else { s }
}

/// The unsigned number a text denotes when it is at most `max` (as Rust's `str::parse`
/// reads unsigned integers: an optional `+`, then one or more digits).
pub open spec fn unsigned_value(s: Seq<char>, max: int) -> Option<int> {
    let d = unsigned_digits(s);
    if d.len() > 0 && all_digits(d) && digits_value(d) <= max {
        Some(digits_value(d))
    } else {
        None
    }
}

/// A prefix's value never exceeds the whole's.
proof fn lemma_digits_monotone(s: Seq<char>, k: int)
    requires
        0 <= k <= s.len(),
        all_digits(s),
    ensures
        digits_value(s.take(k)) <= digits_value(s),
        digits_value(s.take(k)) >= 0,
    decreases s.len() - k,
{
    if k < s.len() {
        lemma_digits_monotone(s, k + 1);
        assert(s.take(k + 1).drop_last() =~= s.take(k));
        lemma_digits_nonneg(s.take(k));
    } else {
        assert(s.take(k) =~= s);
        lemma_digits_nonneg(s);
    }
}

/// Digit values are not negative.
proof fn lemma_digits_nonneg(s: Seq<char>)
    requires
        all_digits(s),
    ensures
        digits_value(s) >= 0,
    decreases s.len(),
{
    if s.len() > 0 {
        assert(all_digits(s.drop_last()));
        lemma_digits_nonneg(s.drop_last());
    }
}

/// The unsigned number `s` denotes, if it is at most `max`.
fn parse_unsigned(s: &str, max: u64) -> (r: Option<u64>)
    ensures
        match unsigned_value(s@, max as int) {
            Some(v) => r == Some(v as u64),
            None => r is None,
        },
{
    let n = s.unicode_len();
    let mut i: usize = 0;
    if n > 0 && s.get_char(0) == '+' {
        i = 1;
    }
    let ghost d = unsigned_digits(s@);
    proof {
        assert(d =~= s@.skip(i as int));
    }
    if i == n {
        return None;
    }
    let start = i;
    let mut acc: u128 = 0;
    while i < n
        invariant
            n == s@.len(),
            start <= i <= n,
            start < n,
            d =~= s@.skip(start as int),
            d == unsigned_digits(s@),
            all_digits(d.take(i - start)),
            acc == digits_value(d.take(i - start)),
            acc <= max,
        decreases n - i,
    {
        let c = s.get_char(i);
        proof {
            assert(d.take(i - start + 1).drop_last() =~= d.take(i - start));
            assert(d.take(i - start + 1).last() == c);
        }
        if c < '0' || c > '9' {
            proof {
                assert(s@.skip(start as int)[i - start] == s@[i as int]);
                assert(!('0' <= d[i - start] <= '9'));
            }
            return None;
        }
        let digit = (c as u32 - '0' as u32) as u128;
        acc = acc * 10 + digit;
        proof {
            assert(d[i - start] == s@[i as int]);
            assert(all_digits(d.take(i - start + 1)));
            assert(acc == digits_value(d.take(i - start + 1)));
        }
        if acc > max as u128 {
            proof {
                if all_digits(d) {
                    lemma_digits_monotone(d, i - start + 1);
                }
            }
            return None;
        }
        i = i + 1;
    }
    proof {
        assert(d.take(n - start) =~= d);
        lemma_digits_nonneg(d);
    }
    Some(acc as u64)
}

/// The `u32` a text denotes, as `str::parse::<u32>` reads it.
pub fn parse_u32(s: &str) -> (r: Option<u32>)
    ensures
        match unsigned_value(s@, u32::MAX as int) {
            Some(v) => r == Some(v as u32),
            None => r is None,
        },
{
    proof {
        if all_digits(unsigned_digits(s@)) {
            lemma_digits_nonneg(unsigned_digits(s@));
        }
    }
    match parse_unsigned(s, 0xffff_ffff) {
        Some(v) => Some(v as u32),
        None => None,
    }
}

/// The `u64` a text denotes, as `str::parse::<u64>` reads it.
pub fn parse_u64(s: &str) -> (r: Option<u64>)
    ensures
        match unsigned_value(s@, u64::MAX as int) {
            Some(v) => r == Some(v as u64),
            None => r is None,
        },
{
    proof {
        if all_digits(unsigned_digits(s@)) {
            lemma_digits_nonneg(unsigned_digits(s@));
        }
    }
    parse_unsigned(s, 0xffff_ffff_ffff_ffff)
}

// ---------------------------------------------------------------- reading as a stream

/// A document read as a stream of events: the events (empty elements expanded into a start
/// and an end), the read error that ended them, if any, and the position of the next event.
pub struct XmlParser {
    /// The events of the document.
    pub events: Vec<XmlEvent>,
    /// The message of the read error after the last event, if any.
    pub error: Option<String>,
    /// The position of the next event.
    pub pos: usize,
}

/// The message for running out of events: the read error that ended them, or `eof`.
pub open spec fn eof_message(err: Option<Seq<char>>, eof: Seq<char>) -> Seq<char> {
    match err {
        Some(m) => m,
        None => eof,
    }
}

/// The text of the element whose start was just read, from position `pos` on: the texts
/// and CDATA sections inside it (nested elements included) up to its end at depth 0, and the position after
/// that end.
pub open spec fn text_content(evs: Seq<EventView>, err: Option<Seq<char>>, pos: int, depth: nat, acc: Seq<char>) -> Result<(Seq<char>, int), Seq<char>>
    decreases evs.len() - pos,
{
    if pos < 0 || pos >= evs.len() {
        Err(eof_message(err, "Unexpected EOF in text content"@))
    } else {
        match evs[pos] {
            EventView::Text(t) => text_content(evs, err, pos + 1, depth, acc + t),
            EventView::CData(t) => text_content(evs, err, pos + 1, depth, acc + t),
            EventView::Start(_) => text_content(evs, err, pos + 1, depth + 1, acc),
            EventView::End(_) => if depth > 0 {
                text_content(evs, err, pos + 1, (depth - 1) as nat, acc)
            } else {
                Ok((acc, pos + 1))
            },
            EventView::Empty(_) => text_content(evs, err, pos + 1, depth, acc),
        }
    }
}

/// The message `quick_xml` gives when the end tag `name` never comes.
pub open spec fn missing_end_message(name: Seq<char>) -> Seq<char> {
    "ill-formed document: start tag not closed: `</"@ + name + ">` not found before end of input"@
}

/// The position after the end tag `name` that closes the element whose start was just read
/// (elements of the same name nested in it are skipped whole).
pub open spec fn end_of(evs: Seq<EventView>, err: Option<Seq<char>>, pos: int, name: Seq<char>, depth: nat) -> Result<int, Seq<char>>
    decreases evs.len() - pos,
{
    if pos < 0 || pos >= evs.len() {
        Err(eof_message(err, missing_end_message(name)))
    } else {
        match evs[pos] {
            EventView::Start(t) => if t.0 == name {
                end_of(evs, err, pos + 1, name, depth + 1)
            } else {
                end_of(evs, err, pos + 1, name, depth)
            },
            EventView::End(n) => if n == name {
                if depth == 0 {
                    Ok(pos + 1)
                } else {
                    end_of(evs, err, pos + 1, name, (depth - 1) as nat)
                }
            } else {
                end_of(evs, err, pos + 1, name, depth)
            },
            _ => end_of(evs, err, pos + 1, name, depth),
        }
    }
}

/// Reading text content moves forward and stays within the events.
pub proof fn lemma_text_content_advances(evs: Seq<EventView>, err: Option<Seq<char>>, pos: int, depth: nat, acc: Seq<char>)
    requires
        0 <= pos,
    ensures
        text_content(evs, err, pos, depth, acc) matches Ok((_, p)) ==> pos < p <= evs.len(),
    decreases evs.len() - pos,
{
    if pos < evs.len() {
        match evs[pos] {
            EventView::Text(t) => lemma_text_content_advances(evs, err, pos + 1, depth, acc + t),
            EventView::CData(t) => lemma_text_content_advances(evs, err, pos + 1, depth, acc + t),
            EventView::Start(_) => lemma_text_content_advances(evs, err, pos + 1, depth + 1, acc),
            EventView::End(_) => if depth > 0 {
                lemma_text_content_advances(evs, err, pos + 1, (depth - 1) as nat, acc);
            },
            EventView::Empty(_) => lemma_text_content_advances(evs, err, pos + 1, depth, acc),
        }
    }
}

/// Skipping to an end tag moves forward and stays within the events.
pub proof fn lemma_end_of_advances(evs: Seq<EventView>, err: Option<Seq<char>>, pos: int, name: Seq<char>, depth: nat)
    requires
        0 <= pos,
    ensures
        end_of(evs, err, pos, name, depth) matches Ok(p) ==> pos < p <= evs.len(),
    decreases evs.len() - pos,
{
    if pos < evs.len() {
        match evs[pos] {
            EventView::Start(t) => if t.0 == name {
                lemma_end_of_advances(evs, err, pos + 1, name, depth + 1);
            } else {
                lemma_end_of_advances(evs, err, pos + 1, name, depth);
            },
            EventView::End(n) => if n == name {
                if depth > 0 {
                    lemma_end_of_advances(evs, err, pos + 1, name, (depth - 1) as nat);
                }
            } else {
                lemma_end_of_advances(evs, err, pos + 1, name, depth);
            },
            _ => lemma_end_of_advances(evs, err, pos + 1, name, depth),
        }
    }
}

/// Reads the text of the element whose start is just before `pos`, as [`text_content`]
/// describes; a read error or a missing end is a validation error.
pub fn text_content_at(evs: &Vec<XmlEvent>, err: &Option<String>, pos: usize) -> (r: Result<(String, usize), crate::error::Lib3mfError>)
    requires
        pos <= evs@.len(),
    ensures
        match text_content(events_view(evs@), opt_view(*err), pos as int, 0, Seq::empty()) {
            Ok((t, p)) => r matches Ok((s, q)) && s@ == t && q == p,
            Err(m) => r matches Err(crate::error::Lib3mfError::Validation(x)) && x@ == m,
        },
        r matches Ok((_, q)) ==> pos < q <= evs@.len(),
{
    let ghost ev = events_view(evs@);
    let mut text = String::new();
    let mut depth: usize = 0;
    let mut i: usize = pos;
    proof {
        lemma_text_content_advances(ev, opt_view(*err), pos as int, 0, Seq::empty());
    }
    while i < evs.len()
        invariant
            ev == events_view(evs@),
            pos <= i <= evs@.len(),
            depth <= i,
            text_content(ev, opt_view(*err), pos as int, 0, Seq::empty())
                == text_content(ev, opt_view(*err), i as int, depth as nat, text@),
        decreases evs@.len() - i,
    {
        match &evs[i] {
            XmlEvent::Text(t) => {
                text.append(t.as_str());
            },
            XmlEvent::CData(t) => {
                text.append(t.as_str());
            },
            XmlEvent::Start(_) => {
                depth = depth + 1;
            },
            XmlEvent::End(_) => {
                if depth > 0 {
                    depth = depth - 1;
                } else {
                    return Ok((text, i + 1));
                }
            },
            XmlEvent::Empty(_) => {},
        }
        i = i + 1;
    }
    match err {
        Some(m) => Err(crate::error::Lib3mfError::Validation(m.clone())),
        None => Err(crate::error::Lib3mfError::Validation(String::from_str("Unexpected EOF in text content"))),
    }
}

/// Skips past the end tag `name` of the element whose start is just before `pos`, as
/// [`end_of`] describes; a read error or a missing end is a validation error.
pub fn end_of_at(evs: &Vec<XmlEvent>, err: &Option<String>, pos: usize, name: &str) -> (r: Result<usize, crate::error::Lib3mfError>)
    requires
        pos <= evs@.len(),
    ensures
        match end_of(events_view(evs@), opt_view(*err), pos as int, name@, 0) {
            Ok(p) => r matches Ok(q) && q == p,
            Err(m) => r matches Err(crate::error::Lib3mfError::Validation(x)) && x@ == m,
        },
        r matches Ok(q) ==> pos < q <= evs@.len(),
{
    let ghost ev = events_view(evs@);
    let mut depth: usize = 0;
    let mut i: usize = pos;
    proof {
        lemma_end_of_advances(ev, opt_view(*err), pos as int, name@, 0);
    }
    while i < evs.len()
        invariant
            ev == events_view(evs@),
            pos <= i <= evs@.len(),
            depth <= i,
            end_of(ev, opt_view(*err), pos as int, name@, 0) == end_of(ev, opt_view(*err), i as int, name@, depth as nat),
        decreases evs@.len() - i,
    {
        match &evs[i] {
            XmlEvent::Start(t) => {
                if crate::text::same_text(t.name.as_str(), name) {
                    depth = depth + 1;
                }
            },
            XmlEvent::End(n) => {
                if crate::text::same_text(n.as_str(), name) {
                    if depth == 0 {
                        return Ok(i + 1);
                    }
                    depth = depth - 1;
                }
            },
            _ => {},
        }
        i = i + 1;
    }
    match err {
        Some(m) => Err(crate::error::Lib3mfError::Validation(m.clone())),
        None => {
            let mut m = String::from_str("ill-formed document: start tag not closed: `</");
            m.append(name);
            m.append(">` not found before end of input");
            Err(crate::error::Lib3mfError::Validation(m))
        },
    }
}

/// The position of the first `:` at or after `i`, or the length.
pub open spec fn first_colon(n: Seq<char>, i: int) -> int
    decreases n.len() - i,
{
    if i < 0 || i >= n.len() {
        n.len() as int
    } else if n[i] == ':' {
        i
    } else {
        first_colon(n, i + 1)
    }
}

/// The local part of a qualified name: what follows its first `:`, or the whole name.
pub open spec fn local_name(n: Seq<char>) -> Seq<char> {
    let c = first_colon(n, 0);
    if c < n.len() {
        n.skip(c + 1)
    } else {
        n
    }
}

/// The local part of a qualified name.
pub fn local_name_of(n: &str) -> (r: String)
    ensures
        r@ == local_name(n@),
{
    let len = n.unicode_len();
    let mut i: usize = 0;
    while i < len && n.get_char(i) != ':'
        invariant
            len == n@.len(),
            i <= len,
            first_colon(n@, 0) == first_colon(n@, i as int),
        decreases len - i,
    {
        i = i + 1;
    }
    if i < len {
        String::from_str(n.substring_char(i + 1, len))
    } else {
        proof {
            assert(n@.subrange(0, len as int) =~= n@);
        }
        String::from_str(n)
    }
}

pub(crate) fn copy_pairs(v: &Vec<(String, String)>) -> (r: Vec<(String, String)>)
    ensures
        attrs_view(r@) == attrs_view(v@),
{
    let mut out: Vec<(String, String)> = Vec::new();
    let mut i: usize = 0;
    while i < v.len()
        invariant
            i <= v@.len(),
            attrs_view(out@) == attrs_view(v@.take(i as int)),
        decreases v@.len() - i,
    {
        let ghost prev = out@;
        out.push((v[i].0.clone(), v[i].1.clone()));
        proof {
            assert(attrs_view(out@) =~= attrs_view(prev).push((v@[i as int].0@, v@[i as int].1@)));
            assert(attrs_view(v@.take(i + 1)) =~= attrs_view(v@.take(i as int)).push((v@[i as int].0@, v@[i as int].1@)));
        }
        i = i + 1;
    }
    proof {
        assert(v@.take(i as int) =~= v@);
    }
    out
}

fn copy_tag(t: &XmlTag) -> (r: XmlTag)
    ensures
        tag_view(r) == tag_view(*t),
{
    let attr_error = match &t.attr_error {
        Some(m) => Some(m.clone()),
        None => None,
    };
    XmlTag { name: t.name.clone(), attrs: copy_pairs(&t.attrs), attr_error }
}

/// A copy of an event.
pub fn copy_event(e: &XmlEvent) -> (r: XmlEvent)
    ensures
        event_view(r) == event_view(*e),
{
    match e {
        XmlEvent::Start(t) => XmlEvent::Start(copy_tag(t)),
        XmlEvent::Empty(t) => XmlEvent::Empty(copy_tag(t)),
        XmlEvent::End(n) => XmlEvent::End(n.clone()),
        XmlEvent::Text(t) => XmlEvent::Text(t.clone()),
        XmlEvent::CData(t) => XmlEvent::CData(t.clone()),
    }
}

impl XmlParser {
    /// The events as values.
    pub open spec fn events_of(&self) -> Seq<EventView> {
        events_view(self.events@)
    }

    /// The read error as a value.
    pub open spec fn error_of(&self) -> Option<Seq<char>> {
        opt_view(self.error)
    }

    /// Whether the position lies within the events.
    pub open spec fn wf(&self) -> bool {
        self.pos <= self.events@.len()
    }

    /// A parser at the start of a document, its empty elements expanded into a start and
    /// an end.
    pub fn new(data: &[u8]) -> (p: Self)
        ensures
            (p.events_of(), p.error_of()) == xml_events(data@, true),
            p.pos == 0,
            p.wf(),
    {
        let (events, error) = read_xml_events(data, true);
        XmlParser { events, error, pos: 0 }
    }

    /// The next event, or `None` at the end of the document; a read error there is a
    /// validation error.
    pub fn read_next_event(&mut self) -> (r: Result<Option<XmlEvent>, crate::error::Lib3mfError>)
        requires
            old(self).wf(),
        ensures
            final(self).wf(),
            final(self).events == old(self).events,
            final(self).error == old(self).error,
            old(self).pos < old(self).events@.len() ==> (final(self).pos == old(self).pos + 1
                && (r matches Ok(Some(e)) && event_view(e) == old(self).events_of()[old(self).pos as int])),
            old(self).pos >= old(self).events@.len() ==> (final(self).pos == old(self).pos && match old(self).error_of() {
                Some(m) => r matches Err(crate::error::Lib3mfError::Validation(x)) && x@ == m,
                None => r matches Ok(None),
            }),
    {
        if self.pos < self.events.len() {
            let e = copy_event(&self.events[self.pos]);
            self.pos = self.pos + 1;
            Ok(Some(e))
        } else {
            match &self.error {
                Some(m) => Err(crate::error::Lib3mfError::Validation(m.clone())),
                None => Ok(None),
            }
        }
    }

    /// Reads the text of the element whose start was just read, up to its end, as
    /// [`text_content`] describes.
    pub fn read_text_content(&mut self) -> (r: Result<String, crate::error::Lib3mfError>)
        requires
            old(self).wf(),
        ensures
            final(self).wf(),
            final(self).events == old(self).events,
            final(self).error == old(self).error,
            r is Ok ==> old(self).pos < final(self).pos,
            match text_content(old(self).events_of(), old(self).error_of(), old(self).pos as int, 0, Seq::empty()) {
                Ok((t, p)) => r matches Ok(s) && s@ == t && final(self).pos == p,
                Err(m) => r matches Err(crate::error::Lib3mfError::Validation(x)) && x@ == m,
            },
    {
        match text_content_at(&self.events, &self.error, self.pos) {
            Ok((t, p)) => {
                self.pos = p;
                Ok(t)
            },
            Err(e) => Err(e),
        }
    }

    /// Skips past the end tag `end` of the element whose start was just read, as
    /// [`end_of`] describes.
    pub fn read_to_end(&mut self, end: &str) -> (r: Result<(), crate::error::Lib3mfError>)
        requires
            old(self).wf(),
        ensures
            final(self).wf(),
            final(self).events == old(self).events,
            final(self).error == old(self).error,
            r is Ok ==> old(self).pos < final(self).pos,
            match end_of(old(self).events_of(), old(self).error_of(), old(self).pos as int, end@, 0) {
                Ok(p) => r is Ok && final(self).pos == p,
                Err(m) => r matches Err(crate::error::Lib3mfError::Validation(x)) && x@ == m,
            },
    {
        match end_of_at(&self.events, &self.error, self.pos, end) {
            Ok(p) => {
                self.pos = p;
                Ok(())
            },
            Err(e) => Err(e),
        }
    }
}

// ---------------------------------------------------------------- numbers of attributes

/// What `lexical_core::parse::<u32>` makes of a text: an optional `+`, then one or more
/// decimal digits, the whole text, and a value that fits.
pub open spec fn lexical_u32(text: Seq<char>) -> Option<u32> {
    match unsigned_value(text, u32::MAX as int) {
        Some(v) => Some(v as u32),
        None => None,
    }
}

/// Reads an unsigned integer with `lexical_core::parse::<u32>`: its standard format takes
/// an optional `+` sign and decimal digits, and refuses an empty text, any other character
/// and a value above `u32::MAX`.
#[verifier::external_body]
fn lexical_parse_u32(text: &str) -> (r: Option<u32>)
    ensures
        r == lexical_u32(text@),
{
    lexical_core::parse::<u32>(text.as_bytes()).ok()
}

/// The 128-bit value of a UUID text as `uuid::Uuid::parse_str` reads it (hyphenated,
/// simple, braced or URN form), or `None` when it is not one.
pub uninterp spec fn uuid_parsed(text: Seq<char>) -> Option<u128>;

/// Reads a UUID text with `Uuid::parse_str`.
#[verifier::external_body]
pub(crate) fn parse_uuid(text: &str) -> (r: Option<u128>)
    ensures
        r == uuid_parsed(text@),
{
    uuid::Uuid::parse_str(text).ok().map(|u| u.as_u128())
}

/// Single-precision numbers that the caller read for the texts of a document, as bit
/// patterns: for each text, what `lexical_core` and what `str::parse` make of it (`None`
/// where it is no number). The library holds no floating-point values of its own.
pub struct NumberTable {
    /// Text, `lexical_core` reading, `str::parse` reading.
    pub entries: Vec<(String, Option<u32>, Option<u32>)>,
}

/// A number table as values.
pub type NumbersView = Seq<(Seq<char>, Option<u32>, Option<u32>)>;

/// A number table as values.
pub open spec fn numbers_view(t: NumberTable) -> NumbersView {
    t.entries@.map_values(|e: (String, Option<u32>, Option<u32>)| (e.0@, e.1, e.2))
}

/// The readings of the first entry for `text`.
pub open spec fn number_entry(t: NumbersView, text: Seq<char>) -> Option<(Option<u32>, Option<u32>)>
    decreases t.len(),
{
    if t.len() == 0 {
        None
    } else if t[0].0 == text {
        Some((t[0].1, t[0].2))
    } else {
        number_entry(t.drop_first(), text)
    }
}

/// The bit pattern `lexical_core` reads from `text`, as the table gives it.
pub open spec fn lexical_number(t: NumbersView, text: Seq<char>) -> Option<u32> {
    match number_entry(t, text) {
        Some(e) => e.0,
        None => None,
    }
}

/// The bit pattern `str::parse` reads from `text`, as the table gives it.
pub open spec fn std_number(t: NumbersView, text: Seq<char>) -> Option<u32> {
    match number_entry(t, text) {
        Some(e) => e.1,
        None => None,
    }
}

impl NumberTable {
    fn entry(&self, text: &str) -> (r: Option<(Option<u32>, Option<u32>)>)
        ensures
            r == number_entry(numbers_view(*self), text@),
    {
        let ghost tv = numbers_view(*self);
        let mut i: usize = 0;
        proof {
            assert(tv.skip(0) =~= tv);
        }
        while i < self.entries.len()
            invariant
                i <= self.entries@.len(),
                tv == numbers_view(*self),
                number_entry(tv, text@) == number_entry(tv.skip(i as int), text@),
            decreases self.entries@.len() - i,
        {
            proof {
                assert(tv.skip(i as int).drop_first() =~= tv.skip(i + 1));
                assert(tv.skip(i as int)[0] == tv[i as int]);
            }
            if crate::text::same_text(self.entries[i].0.as_str(), text) {
                return Some((self.entries[i].1, self.entries[i].2));
            }
            i = i + 1;
        }
        None
    }

    /// The bit pattern `lexical_core` reads from `text`, as the table gives it.
    pub fn lexical(&self, text: &str) -> (r: Option<u32>)
        ensures
            r == lexical_number(numbers_view(*self), text@),
    {
        match self.entry(text) {
            Some(e) => e.0,
            None => None,
        }
    }

    /// The bit pattern `str::parse` reads from `text`, as the table gives it.
    pub fn standard(&self, text: &str) -> (r: Option<u32>)
        ensures
            r == std_number(numbers_view(*self), text@),
    {
        match self.entry(text) {
            Some(e) => e.1,
            None => None,
        }
    }
}

/// What reading attribute `name` of a tag as a `u32` gives: its raw value by
/// `lexical_core`, or the message for a missing or malformed value.
pub open spec fn attr_u32(a: AttrsView, name: Seq<char>) -> Result<u32, Seq<char>> {
    match find_attr(a, name) {
        None => Err("Missing attribute: "@ + name),
        Some(raw) => match lexical_u32(raw) {
            Some(v) => Ok(v),
            None => Err("Invalid integer for attribute "@ + name + ": "@ + raw),
        },
    }
}

/// Attribute `name` as a `u32` where it is present and well formed.
pub open spec fn attr_u32_ok(a: AttrsView, name: Seq<char>) -> Option<u32> {
    match attr_u32(a, name) {
        Ok(v) => Some(v),
        Err(_) => None,
    }
}

/// What reading attribute `name` of a tag as a single-precision number gives: the bit
/// pattern of its raw value by `lexical_core`, or the message for a missing or malformed
/// value.
pub open spec fn attr_f32(a: AttrsView, name: Seq<char>, t: NumbersView) -> Result<u32, Seq<char>> {
    match find_attr(a, name) {
        None => Err("Missing attribute: "@ + name),
        Some(raw) => match lexical_number(t, raw) {
            Some(v) => Ok(v),
            None => Err("Invalid float for attribute "@ + name + ": "@ + raw),
        },
    }
}

/// Attribute `name` as a number, or `default` where it is missing or malformed.
pub open spec fn attr_f32_or(a: AttrsView, name: Seq<char>, t: NumbersView, default: u32) -> u32 {
    match attr_f32(a, name, t) {
        Ok(v) => v,
        Err(_) => default,
    }
}

/// The raw value of attribute `key` of a tag.
fn raw_attribute(tag: &XmlTag, key: &str) -> (r: Option<String>)
    ensures
        opt_view(r) == find_attr(attrs_view(tag.attrs@), key@),
{
    let ghost av = attrs_view(tag.attrs@);
    let mut i: usize = 0;
    proof {
        assert(av.skip(0) =~= av);
    }
    while i < tag.attrs.len()
        invariant
            i <= tag.attrs@.len(),
            av == attrs_view(tag.attrs@),
            find_attr(av, key@) == find_attr(av.skip(i as int), key@),
        decreases tag.attrs@.len() - i,
    {
        proof {
            assert(av.skip(i as int).drop_first() =~= av.skip(i + 1));
            assert(av.skip(i as int)[0] == av[i as int]);
        }
        if crate::text::same_text(tag.attrs[i].0.as_str(), key) {
            return Some(tag.attrs[i].1.clone());
        }
        i = i + 1;
    }
    None
}

/// Attribute `name` of a tag as a `u32`, as [`attr_u32`] describes; the message is a
/// validation error.
pub fn get_attribute_u32(tag: &XmlTag, name: &str) -> (r: Result<u32, crate::error::Lib3mfError>)
    ensures
        match attr_u32(attrs_view(tag.attrs@), name@) {
            Ok(v) => r == Ok::<u32, crate::error::Lib3mfError>(v),
            Err(m) => r matches Err(crate::error::Lib3mfError::Validation(x)) && x@ == m,
        },
{
    match raw_attribute(tag, name) {
        None => Err(crate::error::Lib3mfError::Validation(String::from_str("Missing attribute: ").concat(name))),
        Some(raw) => match lexical_parse_u32(raw.as_str()) {
            Some(v) => Ok(v),
            None => {
                let mut m = String::from_str("Invalid integer for attribute ");
                m.append(name);
                m.append(": ");
                m.append(raw.as_str());
                Err(crate::error::Lib3mfError::Validation(m))
            },
        },
    }
}

/// Attribute `name` of a tag as a `u32` where it is present: `None` when it is absent, and
/// a validation error when it is malformed.
pub fn get_attribute_u32_opt(tag: &XmlTag, name: &str) -> (r: Result<Option<u32>, crate::error::Lib3mfError>)
    ensures
        match find_attr(attrs_view(tag.attrs@), name@) {
            None => r == Ok::<Option<u32>, crate::error::Lib3mfError>(None),
            Some(raw) => match lexical_u32(raw) {
                Some(v) => r == Ok::<Option<u32>, crate::error::Lib3mfError>(Some(v)),
                None => r matches Err(crate::error::Lib3mfError::Validation(x)) && x@ == "Invalid integer: "@ + raw,
            },
        },
{
    match raw_attribute(tag, name) {
        None => Ok(None),
        Some(raw) => match lexical_parse_u32(raw.as_str()) {
            Some(v) => Ok(Some(v)),
            None => Err(crate::error::Lib3mfError::Validation(String::from_str("Invalid integer: ").concat(raw.as_str()))),
        },
    }
}

/// Attribute `name` of a tag as a single-precision number (bit pattern), as [`attr_f32`]
/// describes; the message is a validation error.
pub fn get_attribute_f32(tag: &XmlTag, name: &str, numbers: &NumberTable) -> (r: Result<u32, crate::error::Lib3mfError>)
    ensures
        match attr_f32(attrs_view(tag.attrs@), name@, numbers_view(*numbers)) {
            Ok(v) => r == Ok::<u32, crate::error::Lib3mfError>(v),
            Err(m) => r matches Err(crate::error::Lib3mfError::Validation(x)) && x@ == m,
        },
{
    match raw_attribute(tag, name) {
        None => Err(crate::error::Lib3mfError::Validation(String::from_str("Missing attribute: ").concat(name))),
        Some(raw) => match numbers.lexical(raw.as_str()) {
            Some(v) => Ok(v),
            None => {
                let mut m = String::from_str("Invalid float for attribute ");
                m.append(name);
                m.append(": ");
                m.append(raw.as_str());
                Err(crate::error::Lib3mfError::Validation(m))
            },
        },
    }
}

/// The production UUID of a tag (`uuid`, else `p:uuid`), read as text.
pub open spec fn uuid_text_of(a: AttrsView) -> Option<Seq<char>> {
    match attr_text(a, "uuid"@) {
        Some(u) => Some(u),
        None => attr_text(a, "p:uuid"@),
    }
}

/// What reading the production UUID of a tag gives: none, its value, or the message for a
/// malformed one.
pub open spec fn attr_uuid(a: AttrsView) -> Result<Option<u128>, Seq<char>> {
    match uuid_text_of(a) {
        None => Ok(None),
        Some(u) => match uuid_parsed(u) {
            Some(v) => Ok(Some(v)),
            None => Err("Invalid UUID: "@ + u),
        },
    }
}

/// The production UUID of a tag, as [`attr_uuid`] describes; the message is a validation
/// error.
pub fn get_attribute_uuid(tag: &XmlTag) -> (r: Result<Option<u128>, crate::error::Lib3mfError>)
    ensures
        match attr_uuid(attrs_view(tag.attrs@)) {
            Ok(v) => r == Ok::<Option<u128>, crate::error::Lib3mfError>(v),
            Err(m) => r matches Err(crate::error::Lib3mfError::Validation(x)) && x@ == m,
        },
{
    let text = match get_attribute(tag, "uuid") {
        Some(u) => Some(u),
        None => get_attribute(tag, "p:uuid"),
    };
    match text {
        None => Ok(None),
        Some(u) => match parse_uuid(u.as_str()) {
            Some(v) => Ok(Some(v)),
            None => Err(crate::error::Lib3mfError::Validation(String::from_str("Invalid UUID: ").concat(u.as_str()))),
        },
    }
}

/// The words of a text (its runs of non-white-space characters), over its first `n`
/// characters: the words completed and the word being read.
pub open spec fn words_upto(s: Seq<char>, n: nat) -> (Seq<Seq<char>>, Seq<char>)
    decreases n,
{
    if n == 0 || n > s.len() {
        (Seq::empty(), Seq::empty())
    } else {
        let (ws, cur) = words_upto(s, (n - 1) as nat);
        let c = s[n - 1];
        if crate::text::is_white(c) {
            if cur.len() > 0 { (ws.push(cur), Seq::empty()) } else { (ws, Seq::empty()) }
        } else {
            (ws, cur.push(c))
        }
    }
}

/// The words of a text, as `str::split_whitespace` gives them.
pub open spec fn words(s: Seq<char>) -> Seq<Seq<char>> {
    let (ws, cur) = words_upto(s, s.len());
    if cur.len() > 0 { ws.push(cur) } else { ws }
}

/// The words of a text (`str::split_whitespace`).
pub fn split_words(s: &str) -> (r: Vec<String>)
    ensures
        r@.map_values(|w: String| w@) == words(s@),
{
    let n = s.unicode_len();
    let mut ws: Vec<String> = Vec::new();
    let mut cur = String::new();
    let mut i: usize = 0;
    proof {
        assert(ws@.map_values(|w: String| w@) =~= Seq::<Seq<char>>::empty());
    }
    while i < n
        invariant
            n == s@.len(),
            i <= n,
            (ws@.map_values(|w: String| w@), cur@) == words_upto(s@, i as nat),
        decreases n - i,
    {
        let c = s.get_char(i);
        let ghost before = ws@;
        if crate::text::white(c) {
            if cur.unicode_len() > 0 {
                ws.push(cur);
                proof {
                    assert(ws@.map_values(|w: String| w@) =~= before.map_values(|w: String| w@).push(words_upto(s@, i as nat).1));
                }
            }
            cur = String::new();
        } else {
            crate::text::push_char(&mut cur, c);
        }
        i = i + 1;
    }
    if cur.unicode_len() > 0 {
        let ghost before = ws@;
        ws.push(cur);
        proof {
            assert(ws@.map_values(|w: String| w@) =~= before.map_values(|w: String| w@).push(words_upto(s@, n as nat).1));
        }
    }
    ws
}

/// The text of a raw attribute value: normalised, or as written when it cannot be.
pub open spec fn value_text(raw: Seq<char>) -> Seq<char> {
    match attribute_unescaped(raw) {
        Some(v) => v,
        None => raw,
    }
}

/// The texts that numbers may be read from in attributes: each raw value, its text and
/// the words of its text, attribute by attribute.
pub open spec fn attr_number_texts(a: AttrsView) -> Seq<Seq<char>>
    decreases a.len(),
{
    if a.len() == 0 {
        Seq::empty()
    } else {
        attr_number_texts(a.drop_last()) + seq![a.last().1, value_text(a.last().1)] + words(value_text(a.last().1))
    }
}

/// The texts that numbers may be read from in the tags of events, tag by tag.
pub open spec fn event_number_texts(evs: Seq<EventView>) -> Seq<Seq<char>>
    decreases evs.len(),
{
    if evs.len() == 0 {
        Seq::empty()
    } else {
        event_number_texts(evs.drop_last()) + match evs.last() {
            EventView::Start(t) => attr_number_texts(t.1),
            EventView::Empty(t) => attr_number_texts(t.1),
            _ => Seq::empty(),
        }
    }
}

/// Appends the texts that numbers may be read from in a tag's attributes.
fn push_attr_number_texts(attrs: &Vec<(String, String)>, out: &mut Vec<String>)
    ensures
        final(out)@.map_values(|s: String| s@) == old(out)@.map_values(|s: String| s@) + attr_number_texts(attrs_view(attrs@)),
{
    let ghost start = out@.map_values(|s: String| s@);
    let mut i: usize = 0;
    proof {
        assert(attrs_view(attrs@).take(0) =~= AttrsView::empty());
        assert(start + attr_number_texts(AttrsView::empty()) =~= start);
    }
    while i < attrs.len()
        invariant
            i <= attrs@.len(),
            out@.map_values(|s: String| s@) == start + attr_number_texts(attrs_view(attrs@).take(i as int)),
        decreases attrs@.len() - i,
    {
        let raw = attrs[i].1.as_str();
        let text = match unescape_attribute(raw) {
            Some(v) => v,
            None => String::from_str(raw),
        };
        let ws = split_words(text.as_str());
        let ghost before = out@.map_values(|s: String| s@);
        out.push(String::from_str(raw));
        out.push(text.clone());
        let mut j: usize = 0;
        proof {
            assert(out@.map_values(|s: String| s@) =~= before + seq![raw@, text@]);
        }
        while j < ws.len()
            invariant
                j <= ws@.len(),
                out@.map_values(|s: String| s@) == before + seq![raw@, text@] + ws@.take(j as int).map_values(|w: String| w@),
            decreases ws@.len() - j,
        {
            let ghost b2 = out@;
            out.push(ws[j].clone());
            proof {
                assert(out@.map_values(|s: String| s@) =~= b2.map_values(|s: String| s@).push(ws@[j as int]@));
                assert(ws@.take(j + 1).map_values(|w: String| w@) =~= ws@.take(j as int).map_values(|w: String| w@).push(ws@[j as int]@));
            }
            j = j + 1;
        }
        proof {
            assert(ws@.take(j as int) =~= ws@);
            let a = attrs_view(attrs@);
            assert(a.take(i + 1).drop_last() =~= a.take(i as int));
            assert(a.take(i + 1).last() == (attrs@[i as int].0@, raw@));
            assert(out@.map_values(|s: String| s@) =~= start + attr_number_texts(a.take(i + 1)));
        }
        i = i + 1;
    }
    proof {
        assert(attrs_view(attrs@).take(i as int) =~= attrs_view(attrs@));
    }
}

/// The texts of a document that its numbers may be read from, as
/// [`event_number_texts`] gives them; a caller reads each as a number to build the
/// [`NumberTable`] that reading the document takes.
pub fn number_texts(data: &[u8]) -> (r: Vec<String>)
    ensures
        r@.map_values(|s: String| s@) == event_number_texts(xml_events(data@, true).0),
{
    let (events, _) = read_xml_events(data, true);
    let ghost ev = events_view(events@);
    let mut out: Vec<String> = Vec::new();
    let mut i: usize = 0;
    proof {
        assert(ev.take(0) =~= Seq::<EventView>::empty());
        assert(out@.map_values(|s: String| s@) =~= Seq::<Seq<char>>::empty());
    }
    while i < events.len()
        invariant
            i <= events@.len(),
            ev == events_view(events@),
            out@.map_values(|s: String| s@) == event_number_texts(ev.take(i as int)),
        decreases events@.len() - i,
    {
        proof {
            assert(ev.take(i + 1).drop_last() =~= ev.take(i as int));
            assert(ev.take(i + 1).last() == event_view(events@[i as int]));
        }
        match &events[i] {
            XmlEvent::Start(t) => push_attr_number_texts(&t.attrs, &mut out),
            XmlEvent::Empty(t) => push_attr_number_texts(&t.attrs, &mut out),
            _ => {
                proof {
                    assert(out@.map_values(|s: String| s@) =~= out@.map_values(|s: String| s@) + Seq::<Seq<char>>::empty());
                }
            },
        }
        i = i + 1;
    }
    proof {
        assert(ev.take(i as int) =~= ev);
    }
    out
}

} // verus!
