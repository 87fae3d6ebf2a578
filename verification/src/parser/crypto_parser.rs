//! Reading of XML digital signatures (`<Signature>` elements of the Secure Content
//! extension): the signed information, the signature value and the key information.

use vstd::prelude::*;
use crate::error::Lib3mfError;
use crate::model::crypto::{
    CanonicalizationMethod, DigestMethod, DigestValue, KeyInfo, KeyValue, RSAKeyValue, Reference, Signature,
    SignatureMethod, SignatureValue, SignedInfo, Transform,
};
use crate::parser::xml_parser::{
    EventView, TagView, XmlEvent, XmlParser, attr_text, end_of, eof_message, get_attribute, local_name,
    local_name_of, opt_view, text_content,
};
use crate::text::same_text;

verus! {

/// A reference as values: URI, digest method, digest value, transform algorithms.
pub type ReferenceView = (Seq<char>, Seq<char>, Seq<char>, Option<Seq<Seq<char>>>);

/// The signed information as values: canonicalization method, signature method, references.
pub type SignedInfoView = (Seq<char>, Seq<char>, Seq<ReferenceView>);

/// An RSA key value as values: modulus and exponent texts.
pub type RsaView = (Seq<char>, Seq<char>);

/// Key information as values: key name, key value, certificate data.
pub type KeyInfoView = (Option<Seq<char>>, Option<Option<RsaView>>, Option<Option<Seq<char>>>);

/// A signature as values: signed information, signature value, key information.
pub type SignatureView = (SignedInfoView, Seq<char>, Option<KeyInfoView>);

/// Transforms as values.
pub open spec fn transforms_view(ts: Seq<Transform>) -> Seq<Seq<char>> {
    ts.map_values(|t: Transform| t.algorithm@)
}

/// A reference as values.
pub open spec fn reference_view(r: Reference) -> ReferenceView {
    (r.uri@, r.digest_method.algorithm@, r.digest_value.value@, match r.transforms {
        Some(ts) => Some(transforms_view(ts@)),
        None => None,
    })
}

/// References as values.
pub open spec fn references_view(rs: Seq<Reference>) -> Seq<ReferenceView> {
    rs.map_values(|r: Reference| reference_view(r))
}

/// The signed information as values.
pub open spec fn signed_info_view(s: SignedInfo) -> SignedInfoView {
    (s.canonicalization_method.algorithm@, s.signature_method.algorithm@, references_view(s.references@))
}

/// Key information as values.
pub open spec fn key_info_view(k: KeyInfo) -> KeyInfoView {
    (opt_view(k.key_name), match k.key_value {
        Some(kv) => Some(match kv.rsa_key_value {
            Some(r) => Some((r.modulus@, r.exponent@)),
            None => None,
        }),
        None => None,
    }, match k.x509_data {
        Some(x) => Some(opt_view(x.certificate)),
        None => None,
    })
}

/// A signature as values.
pub open spec fn signature_view(s: Signature) -> SignatureView {
    (signed_info_view(s.signed_info), s.signature_value.value@, match s.key_info {
        Some(k) => Some(key_info_view(k)),
        None => None,
    })
}

/// The `Algorithm` attribute of a tag, empty when absent.
pub open spec fn algorithm_of(t: TagView) -> Seq<char> {
    match attr_text(t.1, "Algorithm"@) {
        Some(a) => a,
        None => Seq::empty(),
    }
}

/// The `URI` attribute of a tag, empty when absent.
pub open spec fn uri_of(t: TagView) -> Seq<char> {
    match attr_text(t.1, "URI"@) {
        Some(a) => a,
        None => Seq::empty(),
    }
}

/// Whether an event ends an element of local name `name`.
pub open spec fn ends_local(e: EventView, name: Seq<char>) -> bool {
    match e {
        EventView::End(n) => local_name(n) == name,
        _ => false,
    }
}

/// The transform algorithms inside `<Transforms>` from position `pos` on, added to `ts`,
/// and the position after its end.
pub open spec fn transforms_scan(evs: Seq<EventView>, err: Option<Seq<char>>, pos: int, ts: Seq<Seq<char>>) -> Result<(Seq<Seq<char>>, int), Seq<char>>
    decreases evs.len() - pos,
{
    if pos < 0 || pos >= evs.len() {
        Err(eof_message(err, "Unexpected EOF in Transforms"@))
    } else if ends_local(evs[pos], "Transforms"@) {
        Ok((ts, pos + 1))
    } else {
        match evs[pos] {
            EventView::Start(t) => {
                let ts2 = if local_name(t.0) == "Transform"@ { ts.push(algorithm_of(t)) } else { ts };
                match end_of(evs, err, pos + 1, t.0, 0) {
                    Ok(p) => if pos < p <= evs.len() { transforms_scan(evs, err, p, ts2) } else { Err(Seq::empty()) },
                    Err(m) => Err(m),
                }
            },
            EventView::Empty(t) => transforms_scan(evs, err, pos + 1, if local_name(t.0) == "Transform"@ {
                ts.push(algorithm_of(t))
            } else {
                ts
            }),
            _ => transforms_scan(evs, err, pos + 1, ts),
        }
    }
}

/// A reference read from position `pos` on (its start tag read), starting from `r`, and
/// the position after its end.
pub open spec fn reference_scan(evs: Seq<EventView>, err: Option<Seq<char>>, pos: int, r: ReferenceView) -> Result<(ReferenceView, int), Seq<char>>
    decreases evs.len() - pos,
{
    if pos < 0 || pos >= evs.len() {
        Err(eof_message(err, "Unexpected EOF in Reference"@))
    } else if ends_local(evs[pos], "Reference"@) {
        Ok((r, pos + 1))
    } else {
        match evs[pos] {
            EventView::Start(t) => {
                let ln = local_name(t.0);
                if ln == "DigestValue"@ {
                    match text_content(evs, err, pos + 1, 0, Seq::empty()) {
                        Ok((v, p)) => if pos < p <= evs.len() { reference_scan(evs, err, p, (r.0, r.1, v, r.3)) } else { Err(Seq::empty()) },
                        Err(m) => Err(m),
                    }
                } else if ln == "Transforms"@ {
                    match transforms_scan(evs, err, pos + 1, Seq::empty()) {
                        Ok((ts, p)) => if pos < p <= evs.len() { reference_scan(evs, err, p, (r.0, r.1, r.2, Some(ts))) } else { Err(Seq::empty()) },
                        Err(m) => Err(m),
                    }
                } else {
                    let r2 = if ln == "DigestMethod"@ { (r.0, algorithm_of(t), r.2, r.3) } else { r };
                    match end_of(evs, err, pos + 1, t.0, 0) {
                        Ok(p) => if pos < p <= evs.len() { reference_scan(evs, err, p, r2) } else { Err(Seq::empty()) },
                        Err(m) => Err(m),
                    }
                }
            },
            EventView::Empty(t) => reference_scan(evs, err, pos + 1, if local_name(t.0) == "DigestMethod"@ {
                (r.0, algorithm_of(t), r.2, r.3)
            } else {
                r
            }),
            _ => reference_scan(evs, err, pos + 1, r),
        }
    }
}

/// A reference with only its URI.
pub open spec fn bare_reference(uri: Seq<char>) -> ReferenceView {
    (uri, Seq::empty(), Seq::empty(), None)
}

/// The signed information read from position `pos` on, starting from `s`, and the
/// position after its end.
pub open spec fn signed_info_scan(evs: Seq<EventView>, err: Option<Seq<char>>, pos: int, s: SignedInfoView) -> Result<(SignedInfoView, int), Seq<char>>
    decreases evs.len() - pos,
{
    if pos < 0 || pos >= evs.len() {
        Err(eof_message(err, "Unexpected EOF in SignedInfo"@))
    } else if ends_local(evs[pos], "SignedInfo"@) {
        Ok((s, pos + 1))
    } else {
        match evs[pos] {
            EventView::Start(t) => {
                let ln = local_name(t.0);
                if ln == "Reference"@ {
                    match reference_scan(evs, err, pos + 1, bare_reference(uri_of(t))) {
                        Ok((r, p)) => if pos < p <= evs.len() { signed_info_scan(evs, err, p, (s.0, s.1, s.2.push(r))) } else { Err(Seq::empty()) },
                        Err(m) => Err(m),
                    }
                } else {
                    let s2 = if ln == "CanonicalizationMethod"@ {
                        (algorithm_of(t), s.1, s.2)
                    } else if ln == "SignatureMethod"@ {
                        (s.0, algorithm_of(t), s.2)
                    } else {
                        s
                    };
                    match end_of(evs, err, pos + 1, t.0, 0) {
                        Ok(p) => if pos < p <= evs.len() { signed_info_scan(evs, err, p, s2) } else { Err(Seq::empty()) },
                        Err(m) => Err(m),
                    }
                }
            },
            EventView::Empty(t) => {
                let ln = local_name(t.0);
                signed_info_scan(evs, err, pos + 1, if ln == "CanonicalizationMethod"@ {
                    (algorithm_of(t), s.1, s.2)
                } else if ln == "SignatureMethod"@ {
                    (s.0, algorithm_of(t), s.2)
                } else if ln == "Reference"@ {
                    (s.0, s.1, s.2.push(bare_reference(uri_of(t))))
                } else {
                    s
                })
            },
            _ => signed_info_scan(evs, err, pos + 1, s),
        }
    }
}

/// An RSA key value read from position `pos` on, starting from `v`, and the position after
/// its end.
pub open spec fn rsa_scan(evs: Seq<EventView>, err: Option<Seq<char>>, pos: int, v: RsaView) -> Result<(RsaView, int), Seq<char>>
    decreases evs.len() - pos,
{
    if pos < 0 || pos >= evs.len() {
        Err(eof_message(err, "Unexpected EOF in RSAKeyValue"@))
    } else if ends_local(evs[pos], "RSAKeyValue"@) {
        Ok((v, pos + 1))
    } else {
        match evs[pos] {
            EventView::Start(t) => {
                let ln = local_name(t.0);
                if ln == "Modulus"@ || ln == "Exponent"@ {
                    match text_content(evs, err, pos + 1, 0, Seq::empty()) {
                        Ok((x, p)) => if pos < p <= evs.len() {
                            rsa_scan(evs, err, p, if ln == "Modulus"@ { (x, v.1) } else { (v.0, x) })
                        } else {
                            Err(Seq::empty())
                        },
                        Err(m) => Err(m),
                    }
                } else {
                    match end_of(evs, err, pos + 1, t.0, 0) {
                        Ok(p) => if pos < p <= evs.len() { rsa_scan(evs, err, p, v) } else { Err(Seq::empty()) },
                        Err(m) => Err(m),
                    }
                }
            },
            _ => rsa_scan(evs, err, pos + 1, v),
        }
    }
}

/// A key value read from position `pos` on, starting from `v`, and the position after its
/// end.
pub open spec fn key_value_scan(evs: Seq<EventView>, err: Option<Seq<char>>, pos: int, v: Option<RsaView>) -> Result<(Option<RsaView>, int), Seq<char>>
    decreases evs.len() - pos,
{
    if pos < 0 || pos >= evs.len() {
        Err(eof_message(err, "Unexpected EOF in KeyValue"@))
    } else if ends_local(evs[pos], "KeyValue"@) {
        Ok((v, pos + 1))
    } else {
        match evs[pos] {
            EventView::Start(t) => if local_name(t.0) == "RSAKeyValue"@ {
                match rsa_scan(evs, err, pos + 1, (Seq::empty(), Seq::empty())) {
                    Ok((x, p)) => if pos < p <= evs.len() { key_value_scan(evs, err, p, Some(x)) } else { Err(Seq::empty()) },
                    Err(m) => Err(m),
                }
            } else {
                match end_of(evs, err, pos + 1, t.0, 0) {
                    Ok(p) => if pos < p <= evs.len() { key_value_scan(evs, err, p, v) } else { Err(Seq::empty()) },
                    Err(m) => Err(m),
                }
            },
            _ => key_value_scan(evs, err, pos + 1, v),
        }
    }
}

/// Key information read from position `pos` on, starting from `k`, and the position after
/// its end.
pub open spec fn key_info_scan(evs: Seq<EventView>, err: Option<Seq<char>>, pos: int, k: KeyInfoView) -> Result<(KeyInfoView, int), Seq<char>>
    decreases evs.len() - pos,
{
    if pos < 0 || pos >= evs.len() {
        Err(eof_message(err, "Unexpected EOF in KeyInfo"@))
    } else if ends_local(evs[pos], "KeyInfo"@) {
        Ok((k, pos + 1))
    } else {
        match evs[pos] {
            EventView::Start(t) => {
                let ln = local_name(t.0);
                if ln == "KeyName"@ {
                    match text_content(evs, err, pos + 1, 0, Seq::empty()) {
                        Ok((x, p)) => if pos < p <= evs.len() { key_info_scan(evs, err, p, (Some(x), k.1, k.2)) } else { Err(Seq::empty()) },
                        Err(m) => Err(m),
                    }
                } else if ln == "KeyValue"@ {
                    match key_value_scan(evs, err, pos + 1, None) {
                        Ok((x, p)) => if pos < p <= evs.len() { key_info_scan(evs, err, p, (k.0, Some(x), k.2)) } else { Err(Seq::empty()) },
                        Err(m) => Err(m),
                    }
                } else {
                    match end_of(evs, err, pos + 1, t.0, 0) {
                        Ok(p) => if pos < p <= evs.len() { key_info_scan(evs, err, p, k) } else { Err(Seq::empty()) },
                        Err(m) => Err(m),
                    }
                }
            },
            _ => key_info_scan(evs, err, pos + 1, k),
        }
    }
}

/// Signed information with nothing set.
pub open spec fn empty_signed_info() -> SignedInfoView {
    (Seq::empty(), Seq::empty(), Seq::empty())
}

/// A signature read from position `pos` on (its start tag read), starting from `s`, and
/// the position after its end.
pub open spec fn signature_scan(evs: Seq<EventView>, err: Option<Seq<char>>, pos: int, s: SignatureView) -> Result<(SignatureView, int), Seq<char>>
    decreases evs.len() - pos,
{
    if pos < 0 || pos >= evs.len() {
        Err(eof_message(err, "Unexpected EOF in Signature"@))
    } else if ends_local(evs[pos], "Signature"@) {
        Ok((s, pos + 1))
    } else {
        match evs[pos] {
            EventView::Start(t) => {
                let ln = local_name(t.0);
                if ln == "SignedInfo"@ {
                    match signed_info_scan(evs, err, pos + 1, empty_signed_info()) {
                        Ok((x, p)) => if pos < p <= evs.len() { signature_scan(evs, err, p, (x, s.1, s.2)) } else { Err(Seq::empty()) },
                        Err(m) => Err(m),
                    }
                } else if ln == "SignatureValue"@ {
                    match text_content(evs, err, pos + 1, 0, Seq::empty()) {
                        Ok((x, p)) => if pos < p <= evs.len() { signature_scan(evs, err, p, (s.0, x, s.2)) } else { Err(Seq::empty()) },
                        Err(m) => Err(m),
                    }
                } else if ln == "KeyInfo"@ {
                    match key_info_scan(evs, err, pos + 1, (None, None, None)) {
                        Ok((x, p)) => if pos < p <= evs.len() { signature_scan(evs, err, p, (s.0, s.1, Some(x))) } else { Err(Seq::empty()) },
                        Err(m) => Err(m),
                    }
                } else {
                    match end_of(evs, err, pos + 1, t.0, 0) {
                        Ok(p) => if pos < p <= evs.len() { signature_scan(evs, err, p, s) } else { Err(Seq::empty()) },
                        Err(m) => Err(m),
                    }
                }
            },
            _ => signature_scan(evs, err, pos + 1, s),
        }
    }
}

/// Whether the parser's state after a reading is the state before it but for a position
/// within the events.
pub open spec fn moved_on(before: XmlParser, after: XmlParser) -> bool {
    &&& after.wf()
    &&& after.events == before.events
    &&& after.error == before.error
}

/// The error of an exhausted stream: the read error, or the end-of-file message.
pub(crate) fn eof_error(parser: &XmlParser, eof: &str) -> (e: Lib3mfError)
    ensures
        e matches Lib3mfError::Validation(x) && x@ == eof_message(parser.error_of(), eof@),
{
    match &parser.error {
        Some(m) => Lib3mfError::Validation(m.clone()),
        None => Lib3mfError::Validation(String::from_str(eof)),
    }
}

/// Whether an end tag's local name is `name`.
fn is_end_of(n: &String, name: &str) -> (r: bool)
    ensures
        r == (local_name(n@) == name@),
{
    let ln = local_name_of(n.as_str());
    same_text(ln.as_str(), name)
}

/// The `Algorithm` attribute of a tag, empty when absent.
fn algorithm(t: &crate::parser::xml_parser::XmlTag) -> (a: String)
    ensures
        a@ == algorithm_of(crate::parser::xml_parser::tag_view(*t)),
{
    match get_attribute(t, "Algorithm") {
        Some(a) => a,
        None => String::new(),
    }
}

fn parse_transforms_content(parser: &mut XmlParser) -> (r: Result<Vec<Transform>, Lib3mfError>)
    requires
        old(parser).wf(),
    ensures
        moved_on(*old(parser), *final(parser)),
        r is Ok ==> old(parser).pos < final(parser).pos,
        match transforms_scan(old(parser).events_of(), old(parser).error_of(), old(parser).pos as int, Seq::empty()) {
            Ok((ts, p)) => r matches Ok(v) && transforms_view(v@) == ts && final(parser).pos == p,
            Err(m) => r matches Err(Lib3mfError::Validation(x)) && x@ == m,
        },
{
    let ghost evs = parser.events_of();
    let ghost err = parser.error_of();
    let ghost start = parser.pos as int;
    let mut transforms: Vec<Transform> = Vec::new();
    proof {
        assert(transforms_view(transforms@) =~= Seq::<Seq<char>>::empty());
    }
    loop
        invariant
            moved_on(*old(parser), *parser),
            start == old(parser).pos,
            evs == parser.events_of(),
            err == parser.error_of(),
            start <= parser.pos,
            transforms_scan(evs, err, start, Seq::empty())
                == transforms_scan(evs, err, parser.pos as int, transforms_view(transforms@)),
        decreases evs.len() - parser.pos,
    {
        let ev = match parser.read_next_event() {
            Ok(Some(e)) => e,
            Ok(None) => return Err(eof_error(parser, "Unexpected EOF in Transforms")),
            Err(e) => return Err(e),
        };
        match ev {
            XmlEvent::End(n) => {
                if is_end_of(&n, "Transforms") {
                    return Ok(transforms);
                }
            },
            XmlEvent::Start(t) => {
                if is_end_of(&t.name, "Transform") {
                    let ghost before = transforms@;
                    transforms.push(Transform { algorithm: algorithm(&t) });
                    proof {
                        assert(transforms_view(transforms@) =~= transforms_view(before).push(algorithm_of(crate::parser::xml_parser::tag_view(t))));
                    }
                }
                match parser.read_to_end(t.name.as_str()) {
                    Ok(()) => {},
                    Err(e) => return Err(e),
                }
            },
            XmlEvent::Empty(t) => {
                if is_end_of(&t.name, "Transform") {
                    let ghost before = transforms@;
                    transforms.push(Transform { algorithm: algorithm(&t) });
                    proof {
                        assert(transforms_view(transforms@) =~= transforms_view(before).push(algorithm_of(crate::parser::xml_parser::tag_view(t))));
                    }
                }
            },
            XmlEvent::Text(_) | XmlEvent::CData(_) => {},
        }
    }
}

fn parse_reference_content(parser: &mut XmlParser, uri: String) -> (r: Result<Reference, Lib3mfError>)
    requires
        old(parser).wf(),
    ensures
        moved_on(*old(parser), *final(parser)),
        r is Ok ==> old(parser).pos < final(parser).pos,
        match reference_scan(old(parser).events_of(), old(parser).error_of(), old(parser).pos as int, bare_reference(uri@)) {
            Ok((v, p)) => r matches Ok(x) && reference_view(x) == v && final(parser).pos == p,
            Err(m) => r matches Err(Lib3mfError::Validation(x)) && x@ == m,
        },
{
    let ghost evs = parser.events_of();
    let ghost err = parser.error_of();
    let ghost start = parser.pos as int;
    let mut digest_method = String::new();
    let mut digest_value = String::new();
    let mut transforms: Option<Vec<Transform>> = None;
    loop
        invariant
            moved_on(*old(parser), *parser),
            start == old(parser).pos,
            evs == parser.events_of(),
            err == parser.error_of(),
            start <= parser.pos,
            reference_scan(evs, err, start, bare_reference(uri@))
                == reference_scan(evs, err, parser.pos as int, (uri@, digest_method@, digest_value@, match transforms {
                    Some(ts) => Some(transforms_view(ts@)),
                    None => None,
                })),
        decreases evs.len() - parser.pos,
    {
        let ev = match parser.read_next_event() {
            Ok(Some(e)) => e,
            Ok(None) => return Err(eof_error(parser, "Unexpected EOF in Reference")),
            Err(e) => return Err(e),
        };
        match ev {
            XmlEvent::End(n) => {
                if is_end_of(&n, "Reference") {
                    return Ok(Reference {
                        uri,
                        digest_method: DigestMethod { algorithm: digest_method },
                        digest_value: DigestValue { value: digest_value },
                        transforms,
                    });
                }
            },
            XmlEvent::Start(t) => {
                let ln = local_name_of(t.name.as_str());
                if same_text(ln.as_str(), "DigestValue") {
                    match parser.read_text_content() {
                        Ok(v) => digest_value = v,
                        Err(e) => return Err(e),
                    }
                } else if same_text(ln.as_str(), "Transforms") {
                    match parse_transforms_content(parser) {
                        Ok(ts) => transforms = Some(ts),
                        Err(e) => return Err(e),
                    }
                } else {
                    if same_text(ln.as_str(), "DigestMethod") {
                        digest_method = algorithm(&t);
                    }
                    match parser.read_to_end(t.name.as_str()) {
                        Ok(()) => {},
                        Err(e) => return Err(e),
                    }
                }
            },
            XmlEvent::Empty(t) => {
                if is_end_of(&t.name, "DigestMethod") {
                    digest_method = algorithm(&t);
                }
            },
            XmlEvent::Text(_) | XmlEvent::CData(_) => {},
        }
    }
}

fn parse_signed_info(parser: &mut XmlParser) -> (r: Result<SignedInfo, Lib3mfError>)
    requires
        old(parser).wf(),
    ensures
        moved_on(*old(parser), *final(parser)),
        r is Ok ==> old(parser).pos < final(parser).pos,
        match signed_info_scan(old(parser).events_of(), old(parser).error_of(), old(parser).pos as int, empty_signed_info()) {
            Ok((v, p)) => r matches Ok(x) && signed_info_view(x) == v && final(parser).pos == p,
            Err(m) => r matches Err(Lib3mfError::Validation(x)) && x@ == m,
        },
{
    let ghost evs = parser.events_of();
    let ghost err = parser.error_of();
    let ghost start = parser.pos as int;
    let mut canonicalization = String::new();
    let mut method = String::new();
    let mut references: Vec<Reference> = Vec::new();
    proof {
        assert(references_view(references@) =~= Seq::<ReferenceView>::empty());
    }
    loop
        invariant
            moved_on(*old(parser), *parser),
            start == old(parser).pos,
            evs == parser.events_of(),
            err == parser.error_of(),
            start <= parser.pos,
            signed_info_scan(evs, err, start, empty_signed_info())
                == signed_info_scan(evs, err, parser.pos as int, (canonicalization@, method@, references_view(references@))),
        decreases evs.len() - parser.pos,
    {
        let ev = match parser.read_next_event() {
            Ok(Some(e)) => e,
            Ok(None) => return Err(eof_error(parser, "Unexpected EOF in SignedInfo")),
            Err(e) => return Err(e),
        };
        match ev {
            XmlEvent::End(n) => {
                if is_end_of(&n, "SignedInfo") {
                    return Ok(SignedInfo {
                        canonicalization_method: CanonicalizationMethod { algorithm: canonicalization },
                        signature_method: SignatureMethod { algorithm: method },
                        references,
                    });
                }
            },
            XmlEvent::Start(t) => {
                let ln = local_name_of(t.name.as_str());
                if same_text(ln.as_str(), "Reference") {
                    let uri = match get_attribute(&t, "URI") {
                        Some(u) => u,
                        None => String::new(),
                    };
                    match parse_reference_content(parser, uri) {
                        Ok(rf) => {
                            let ghost before = references@;
                            references.push(rf);
                            proof {
                                assert(references_view(references@) =~= references_view(before).push(reference_view(rf)));
                            }
                        },
                        Err(e) => return Err(e),
                    }
                } else {
                    if same_text(ln.as_str(), "CanonicalizationMethod") {
                        canonicalization = algorithm(&t);
                    } else if same_text(ln.as_str(), "SignatureMethod") {
                        method = algorithm(&t);
                    }
                    match parser.read_to_end(t.name.as_str()) {
                        Ok(()) => {},
                        Err(e) => return Err(e),
                    }
                }
            },
            XmlEvent::Empty(t) => {
                let ln = local_name_of(t.name.as_str());
                if same_text(ln.as_str(), "CanonicalizationMethod") {
                    canonicalization = algorithm(&t);
                } else if same_text(ln.as_str(), "SignatureMethod") {
                    method = algorithm(&t);
                } else if same_text(ln.as_str(), "Reference") {
                    let uri = match get_attribute(&t, "URI") {
                        Some(u) => u,
                        None => String::new(),
                    };
                    let rf = Reference {
                        uri,
                        digest_method: DigestMethod { algorithm: String::new() },
                        digest_value: DigestValue { value: String::new() },
                        transforms: None,
                    };
                    let ghost before = references@;
                    references.push(rf);
                    proof {
                        assert(references_view(references@) =~= references_view(before).push(reference_view(rf)));
                    }
                }
            },
            XmlEvent::Text(_) | XmlEvent::CData(_) => {},
        }
    }
}

fn parse_rsa_key_value(parser: &mut XmlParser) -> (r: Result<RSAKeyValue, Lib3mfError>)
    requires
        old(parser).wf(),
    ensures
        moved_on(*old(parser), *final(parser)),
        r is Ok ==> old(parser).pos < final(parser).pos,
        match rsa_scan(old(parser).events_of(), old(parser).error_of(), old(parser).pos as int, (Seq::empty(), Seq::empty())) {
            Ok((v, p)) => r matches Ok(x) && (x.modulus@, x.exponent@) == v && final(parser).pos == p,
            Err(m) => r matches Err(Lib3mfError::Validation(x)) && x@ == m,
        },
{
    let ghost evs = parser.events_of();
    let ghost err = parser.error_of();
    let ghost start = parser.pos as int;
    let mut modulus = String::new();
    let mut exponent = String::new();
    loop
        invariant
            moved_on(*old(parser), *parser),
            start == old(parser).pos,
            evs == parser.events_of(),
            err == parser.error_of(),
            start <= parser.pos,
            rsa_scan(evs, err, start, (Seq::empty(), Seq::empty()))
                == rsa_scan(evs, err, parser.pos as int, (modulus@, exponent@)),
        decreases evs.len() - parser.pos,
    {
        let ev = match parser.read_next_event() {
            Ok(Some(e)) => e,
            Ok(None) => return Err(eof_error(parser, "Unexpected EOF in RSAKeyValue")),
            Err(e) => return Err(e),
        };
        match ev {
            XmlEvent::End(n) => {
                if is_end_of(&n, "RSAKeyValue") {
                    return Ok(RSAKeyValue { modulus, exponent });
                }
            },
            XmlEvent::Start(t) => {
                let ln = local_name_of(t.name.as_str());
                if same_text(ln.as_str(), "Modulus") {
                    match parser.read_text_content() {
                        Ok(v) => modulus = v,
                        Err(e) => return Err(e),
                    }
                } else if same_text(ln.as_str(), "Exponent") {
                    match parser.read_text_content() {
                        Ok(v) => exponent = v,
                        Err(e) => return Err(e),
                    }
                } else {
                    match parser.read_to_end(t.name.as_str()) {
                        Ok(()) => {},
                        Err(e) => return Err(e),
                    }
                }
            },
            _ => {},
        }
    }
}

fn parse_key_value(parser: &mut XmlParser) -> (r: Result<KeyValue, Lib3mfError>)
    requires
        old(parser).wf(),
    ensures
        moved_on(*old(parser), *final(parser)),
        r is Ok ==> old(parser).pos < final(parser).pos,
        match key_value_scan(old(parser).events_of(), old(parser).error_of(), old(parser).pos as int, None) {
            Ok((v, p)) => r matches Ok(x) && match x.rsa_key_value {
                Some(k) => Some((k.modulus@, k.exponent@)),
                None => None,
            } == v && final(parser).pos == p,
            Err(m) => r matches Err(Lib3mfError::Validation(x)) && x@ == m,
        },
{
    let ghost evs = parser.events_of();
    let ghost err = parser.error_of();
    let ghost start = parser.pos as int;
    let mut rsa: Option<RSAKeyValue> = None;
    loop
        invariant
            moved_on(*old(parser), *parser),
            start == old(parser).pos,
            evs == parser.events_of(),
            err == parser.error_of(),
            start <= parser.pos,
            key_value_scan(evs, err, start, None)
                == key_value_scan(evs, err, parser.pos as int, match rsa {
                    Some(k) => Some((k.modulus@, k.exponent@)),
                    None => None,
                }),
        decreases evs.len() - parser.pos,
    {
        let ev = match parser.read_next_event() {
            Ok(Some(e)) => e,
            Ok(None) => return Err(eof_error(parser, "Unexpected EOF in KeyValue")),
            Err(e) => return Err(e),
        };
        match ev {
            XmlEvent::End(n) => {
                if is_end_of(&n, "KeyValue") {
                    return Ok(KeyValue { rsa_key_value: rsa });
                }
            },
            XmlEvent::Start(t) => {
                if is_end_of(&t.name, "RSAKeyValue") {
                    match parse_rsa_key_value(parser) {
                        Ok(k) => rsa = Some(k),
                        Err(e) => return Err(e),
                    }
                } else {
                    match parser.read_to_end(t.name.as_str()) {
                        Ok(()) => {},
                        Err(e) => return Err(e),
                    }
                }
            },
            _ => {},
        }
    }
}

fn parse_key_info(parser: &mut XmlParser) -> (r: Result<KeyInfo, Lib3mfError>)
    requires
        old(parser).wf(),
    ensures
        moved_on(*old(parser), *final(parser)),
        r is Ok ==> old(parser).pos < final(parser).pos,
        match key_info_scan(old(parser).events_of(), old(parser).error_of(), old(parser).pos as int, (None, None, None)) {
            Ok((v, p)) => r matches Ok(x) && key_info_view(x) == v && final(parser).pos == p,
            Err(m) => r matches Err(Lib3mfError::Validation(x)) && x@ == m,
        },
{
    let ghost evs = parser.events_of();
    let ghost err = parser.error_of();
    let ghost start = parser.pos as int;
    let mut key_name: Option<String> = None;
    let mut key_value: Option<KeyValue> = None;
    loop
        invariant
            moved_on(*old(parser), *parser),
            start == old(parser).pos,
            evs == parser.events_of(),
            err == parser.error_of(),
            start <= parser.pos,
            key_info_scan(evs, err, start, (None, None, None))
                == key_info_scan(evs, err, parser.pos as int, key_info_view(KeyInfo { key_name, key_value, x509_data: None })),
        decreases evs.len() - parser.pos,
    {
        let ev = match parser.read_next_event() {
            Ok(Some(e)) => e,
            Ok(None) => return Err(eof_error(parser, "Unexpected EOF in KeyInfo")),
            Err(e) => return Err(e),
        };
        match ev {
            XmlEvent::End(n) => {
                if is_end_of(&n, "KeyInfo") {
                    return Ok(KeyInfo { key_name, key_value, x509_data: None });
                }
            },
            XmlEvent::Start(t) => {
                let ln = local_name_of(t.name.as_str());
                if same_text(ln.as_str(), "KeyName") {
                    match parser.read_text_content() {
                        Ok(v) => key_name = Some(v),
                        Err(e) => return Err(e),
                    }
                } else if same_text(ln.as_str(), "KeyValue") {
                    match parse_key_value(parser) {
                        Ok(v) => key_value = Some(v),
                        Err(e) => return Err(e),
                    }
                } else {
                    match parser.read_to_end(t.name.as_str()) {
                        Ok(()) => {},
                        Err(e) => return Err(e),
                    }
                }
            },
            _ => {},
        }
    }
}

/// Reads a `<Signature>` element whose start tag was just read: its `SignedInfo`
/// (canonicalization and signature methods, references with digest method, digest value
/// and transforms), `SignatureValue` and `KeyInfo` (key name, RSA key value), elements
/// being known by their local names; other elements are skipped whole.
pub fn parse_signature(parser: &mut XmlParser) -> (r: Result<Signature, Lib3mfError>)
    requires
        old(parser).wf(),
    ensures
        moved_on(*old(parser), *final(parser)),
        match signature_scan(old(parser).events_of(), old(parser).error_of(), old(parser).pos as int,
            (empty_signed_info(), Seq::empty(), None)) {
            Ok((v, p)) => r matches Ok(x) && signature_view(x) == v && final(parser).pos == p,
            Err(m) => r matches Err(Lib3mfError::Validation(x)) && x@ == m,
        },
{
    let ghost evs = parser.events_of();
    let ghost err = parser.error_of();
    let ghost start = parser.pos as int;
    let mut signed_info = SignedInfo {
        canonicalization_method: CanonicalizationMethod { algorithm: String::new() },
        signature_method: SignatureMethod { algorithm: String::new() },
        references: Vec::new(),
    };
    let mut value = String::new();
    let mut key_info: Option<KeyInfo> = None;
    proof {
        assert(signed_info_view(signed_info) =~= empty_signed_info());
    }
    loop
        invariant
            moved_on(*old(parser), *parser),
            start == old(parser).pos,
            evs == parser.events_of(),
            err == parser.error_of(),
            start <= parser.pos,
            signature_scan(evs, err, start, (empty_signed_info(), Seq::empty(), None))
                == signature_scan(evs, err, parser.pos as int, (signed_info_view(signed_info), value@, match key_info {
                    Some(k) => Some(key_info_view(k)),
                    None => None,
                })),
        decreases evs.len() - parser.pos,
    {
        let ev = match parser.read_next_event() {
            Ok(Some(e)) => e,
            Ok(None) => return Err(eof_error(parser, "Unexpected EOF in Signature")),
            Err(e) => return Err(e),
        };
        match ev {
            XmlEvent::End(n) => {
                if is_end_of(&n, "Signature") {
                    return Ok(Signature { signed_info, signature_value: SignatureValue { value }, key_info });
                }
            },
            XmlEvent::Start(t) => {
                let ln = local_name_of(t.name.as_str());
                if same_text(ln.as_str(), "SignedInfo") {
                    match parse_signed_info(parser) {
                        Ok(v) => signed_info = v,
                        Err(e) => return Err(e),
                    }
                } else if same_text(ln.as_str(), "SignatureValue") {
                    match parser.read_text_content() {
                        Ok(v) => value = v,
                        Err(e) => return Err(e),
                    }
                } else if same_text(ln.as_str(), "KeyInfo") {
                    match parse_key_info(parser) {
                        Ok(v) => key_info = Some(v),
                        Err(e) => return Err(e),
                    }
                } else {
                    match parser.read_to_end(t.name.as_str()) {
                        Ok(()) => {},
                        Err(e) => return Err(e),
                    }
                }
            },
            _ => {},
        }
    }
}

} // verus!
