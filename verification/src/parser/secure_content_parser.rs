//! Reading of key stores (the Secure Content extension): consumers, resource data groups
//! and the access rights that carry wrapped content keys.

use vstd::prelude::*;
use crate::crypto::verification::{base64_decoded, decode_base64};
use crate::error::Lib3mfError;
use crate::model::secure_content::{AccessRight, Consumer, KeyStore, ResourceDataGroup};
use crate::parser::crypto_parser::{ends_local, moved_on};
use crate::parser::xml_parser::{
    EventView, XmlEvent, XmlParser, attr_text, attrs_view, end_of, eof_message, get_attribute, local_name,
    local_name_of, opt_view, parse_uuid, text_content, uuid_parsed,
};
use crate::text::same_text;

verus! {

/// An access right as values: consumer, algorithm, wrapped key.
pub type AccessView = (Seq<char>, Seq<char>, Seq<u8>);

/// A consumer as values: identifier, key identifier, key value.
pub type ConsumerView = (Seq<char>, Option<Seq<char>>, Option<Seq<char>>);

/// A resource data group as values: key UUID and access rights.
pub type GroupView = (u128, Seq<AccessView>);

/// A key store as values: UUID, consumers, resource data groups.
pub type KeyStoreView = (u128, Seq<ConsumerView>, Seq<GroupView>);

/// An access right as values.
pub open spec fn access_view(a: AccessRight) -> AccessView {
    (a.consumer_id@, a.algorithm@, a.wrapped_key@)
}

/// Access rights as values.
pub open spec fn accesses_view(v: Seq<AccessRight>) -> Seq<AccessView> {
    v.map_values(|a: AccessRight| access_view(a))
}

/// A consumer as values.
pub open spec fn consumer_view(c: Consumer) -> ConsumerView {
    (c.id@, opt_view(c.key_id), opt_view(c.key_value))
}

/// Consumers as values.
pub open spec fn consumers_view(v: Seq<Consumer>) -> Seq<ConsumerView> {
    v.map_values(|c: Consumer| consumer_view(c))
}

/// A resource data group as values.
pub open spec fn group_view(g: ResourceDataGroup) -> GroupView {
    (g.key_uuid, accesses_view(g.access_rights@))
}

/// Resource data groups as values.
pub open spec fn groups_view(v: Seq<ResourceDataGroup>) -> Seq<GroupView> {
    v.map_values(|g: ResourceDataGroup| group_view(g))
}

/// A key store as values.
pub open spec fn keystore_view(k: KeyStore) -> KeyStoreView {
    (k.uuid, consumers_view(k.consumers@), groups_view(k.resource_data_groups@))
}

/// The wrapped key and its algorithm read from the content of an `<accessright>` from
/// position `pos` on, starting from `w`, and the position after its end. A `wrappedkey`
/// holds the key in base64 and may name its algorithm.
pub open spec fn access_scan(evs: Seq<EventView>, err: Option<Seq<char>>, pos: int, w: (Seq<u8>, Seq<char>)) -> Result<((Seq<u8>, Seq<char>), int), Seq<char>>
    decreases evs.len() - pos,
{
    if pos < 0 || pos >= evs.len() {
        Err(eof_message(err, "Unexpected EOF in accessright"@))
    } else if ends_local(evs[pos], "accessright"@) {
        Ok((w, pos + 1))
    } else {
        match evs[pos] {
            EventView::Start(t) => if local_name(t.0) == "wrappedkey"@ {
                let alg = match attr_text(t.1, "encryptionalgorithm"@) {
                    Some(a) => a,
                    None => w.1,
                };
                match text_content(evs, err, pos + 1, 0, Seq::empty()) {
                    Ok((x, p)) => match base64_decoded(x) {
                        Ok(k) => if pos < p <= evs.len() { access_scan(evs, err, p, (k, alg)) } else { Err(Seq::empty()) },
                        Err(e) => Err("Invalid base64 wrapped key: "@ + e),
                    },
                    Err(m) => Err(m),
                }
            } else {
                match end_of(evs, err, pos + 1, t.0, 0) {
                    Ok(p) => if pos < p <= evs.len() { access_scan(evs, err, p, w) } else { Err(Seq::empty()) },
                    Err(m) => Err(m),
                }
            },
            _ => access_scan(evs, err, pos + 1, w),
        }
    }
}

/// The default wrapping algorithm of an access right.
pub open spec fn default_algorithm() -> Seq<char> {
    "RSA-OAEP"@
}

/// The access rights of a `<resourcedatagroup>` read from position `pos` on, added to
/// `rights`, and the position after its end.
pub open spec fn group_scan(evs: Seq<EventView>, err: Option<Seq<char>>, pos: int, rights: Seq<AccessView>) -> Result<(Seq<AccessView>, int), Seq<char>>
    decreases evs.len() - pos,
{
    if pos < 0 || pos >= evs.len() {
        Err(eof_message(err, "Unexpected EOF in resourcedatagroup"@))
    } else if ends_local(evs[pos], "resourcedatagroup"@) {
        Ok((rights, pos + 1))
    } else {
        match evs[pos] {
            EventView::Start(t) => if local_name(t.0) == "accessright"@ {
                match attr_text(t.1, "consumerid"@) {
                    None => Err("Missing consumerid"@),
                    Some(c) => match access_scan(evs, err, pos + 1, (Seq::empty(), default_algorithm())) {
                        Ok((w, p)) => if pos < p <= evs.len() {
                            group_scan(evs, err, p, rights.push((c, w.1, w.0)))
                        } else {
                            Err(Seq::empty())
                        },
                        Err(m) => Err(m),
                    },
                }
            } else {
                match end_of(evs, err, pos + 1, t.0, 0) {
                    Ok(p) => if pos < p <= evs.len() { group_scan(evs, err, p, rights) } else { Err(Seq::empty()) },
                    Err(m) => Err(m),
                }
            },
            _ => group_scan(evs, err, pos + 1, rights),
        }
    }
}

/// The consumers and resource data groups of a `<keystore>` read from position `pos` on,
/// added to `ks`, and the position after its end.
pub open spec fn keystore_scan(evs: Seq<EventView>, err: Option<Seq<char>>, pos: int, ks: (Seq<ConsumerView>, Seq<GroupView>)) -> Result<((Seq<ConsumerView>, Seq<GroupView>), int), Seq<char>>
    decreases evs.len() - pos,
{
    if pos < 0 || pos >= evs.len() {
        Err(eof_message(err, "Unexpected EOF in keystore"@))
    } else if ends_local(evs[pos], "keystore"@) {
        Ok((ks, pos + 1))
    } else {
        match evs[pos] {
            EventView::Start(t) => {
                let ln = local_name(t.0);
                if ln == "consumer"@ {
                    match attr_text(t.1, "consumerid"@) {
                        None => Err("Missing consumerid"@),
                        Some(id) => {
                            let c = (id, attr_text(t.1, "keyid"@), attr_text(t.1, "keyvalue"@));
                            match end_of(evs, err, pos + 1, t.0, 0) {
                                Ok(p) => if pos < p <= evs.len() { keystore_scan(evs, err, p, (ks.0.push(c), ks.1)) } else { Err(Seq::empty()) },
                                Err(m) => Err(m),
                            }
                        },
                    }
                } else if ln == "resourcedatagroup"@ {
                    match attr_text(t.1, "keyuuid"@) {
                        None => Err("Missing keyuuid"@),
                        Some(u) => match uuid_parsed(u) {
                            None => Err("Invalid keyuuid: "@ + u),
                            Some(id) => match group_scan(evs, err, pos + 1, Seq::empty()) {
                                Ok((rs, p)) => if pos < p <= evs.len() { keystore_scan(evs, err, p, (ks.0, ks.1.push((id, rs)))) } else { Err(Seq::empty()) },
                                Err(m) => Err(m),
                            },
                        },
                    }
                } else {
                    match end_of(evs, err, pos + 1, t.0, 0) {
                        Ok(p) => if pos < p <= evs.len() { keystore_scan(evs, err, p, ks) } else { Err(Seq::empty()) },
                        Err(m) => Err(m),
                    }
                }
            },
            _ => keystore_scan(evs, err, pos + 1, ks),
        }
    }
}

fn eof_error(parser: &XmlParser, eof: &str) -> (e: Lib3mfError)
    ensures
        e matches Lib3mfError::Validation(x) && x@ == eof_message(parser.error_of(), eof@),
{
    match &parser.error {
        Some(m) => Lib3mfError::Validation(m.clone()),
        None => Lib3mfError::Validation(String::from_str(eof)),
    }
}

fn local_is(n: &String, name: &str) -> (r: bool)
    ensures
        r == (local_name(n@) == name@),
{
    let ln = local_name_of(n.as_str());
    same_text(ln.as_str(), name)
}

fn parse_access_right_content(parser: &mut XmlParser) -> (r: Result<(Vec<u8>, String), Lib3mfError>)
    requires
        old(parser).wf(),
    ensures
        moved_on(*old(parser), *final(parser)),
        r is Ok ==> old(parser).pos < final(parser).pos,
        match access_scan(old(parser).events_of(), old(parser).error_of(), old(parser).pos as int, (Seq::empty(), default_algorithm())) {
            Ok((w, p)) => r matches Ok((k, a)) && k@ == w.0 && a@ == w.1 && final(parser).pos == p,
            Err(m) => r matches Err(Lib3mfError::Validation(x)) && x@ == m,
        },
{
    let ghost evs = parser.events_of();
    let ghost err = parser.error_of();
    let ghost start = parser.pos as int;
    let mut wrapped_key: Vec<u8> = Vec::new();
    let mut algorithm = String::from_str("RSA-OAEP");
    loop
        invariant
            moved_on(*old(parser), *parser),
            start == old(parser).pos,
            evs == parser.events_of(),
            err == parser.error_of(),
            start <= parser.pos,
            access_scan(evs, err, start, (Seq::empty(), default_algorithm()))
                == access_scan(evs, err, parser.pos as int, (wrapped_key@, algorithm@)),
        decreases evs.len() - parser.pos,
    {
        let ev = match parser.read_next_event() {
            Ok(Some(e)) => e,
            Ok(None) => return Err(eof_error(parser, "Unexpected EOF in accessright")),
            Err(e) => return Err(e),
        };
        match ev {
            XmlEvent::End(n) => {
                if local_is(&n, "accessright") {
                    return Ok((wrapped_key, algorithm));
                }
            },
            XmlEvent::Start(t) => {
                if local_is(&t.name, "wrappedkey") {
                    if let Some(a) = get_attribute(&t, "encryptionalgorithm") {
                        algorithm = a;
                    }
                    let text = match parser.read_text_content() {
                        Ok(x) => x,
                        Err(e) => return Err(e),
                    };
                    wrapped_key = match decode_base64(text.as_str()) {
                        Ok(k) => k,
                        Err(m) => return Err(Lib3mfError::Validation(String::from_str("Invalid base64 wrapped key: ").concat(m.as_str()))),
                    };
                } else {
                    match parser.read_to_end(t.name.as_str()) {
                        Ok(()) => {},
                        Err(e) => return Err(e),
                    }
                }
            },
            _ => {},
        }
    }
}

fn parse_resource_data_group(parser: &mut XmlParser, key_uuid: u128) -> (r: Result<ResourceDataGroup, Lib3mfError>)
    requires
        old(parser).wf(),
    ensures
        moved_on(*old(parser), *final(parser)),
        r is Ok ==> old(parser).pos < final(parser).pos,
        match group_scan(old(parser).events_of(), old(parser).error_of(), old(parser).pos as int, Seq::empty()) {
            Ok((rs, p)) => r matches Ok(g) && group_view(g) == (key_uuid, rs) && final(parser).pos == p,
            Err(m) => r matches Err(Lib3mfError::Validation(x)) && x@ == m,
        },
{
    let ghost evs = parser.events_of();
    let ghost err = parser.error_of();
    let ghost start = parser.pos as int;
    let mut access_rights: Vec<AccessRight> = Vec::new();
    proof {
        assert(accesses_view(access_rights@) =~= Seq::<AccessView>::empty());
    }
    loop
        invariant
            moved_on(*old(parser), *parser),
            start == old(parser).pos,
            evs == parser.events_of(),
            err == parser.error_of(),
            start <= parser.pos,
            group_scan(evs, err, start, Seq::empty()) == group_scan(evs, err, parser.pos as int, accesses_view(access_rights@)),
        decreases evs.len() - parser.pos,
    {
        let ev = match parser.read_next_event() {
            Ok(Some(e)) => e,
            Ok(None) => return Err(eof_error(parser, "Unexpected EOF in resourcedatagroup")),
            Err(e) => return Err(e),
        };
        match ev {
            XmlEvent::End(n) => {
                if local_is(&n, "resourcedatagroup") {
                    return Ok(ResourceDataGroup { key_uuid, access_rights });
                }
            },
            XmlEvent::Start(t) => {
                if local_is(&t.name, "accessright") {
                    let consumer_id = match get_attribute(&t, "consumerid") {
                        Some(c) => c,
                        None => return Err(Lib3mfError::Validation(String::from_str("Missing consumerid"))),
                    };
                    let (wrapped_key, algorithm) = match parse_access_right_content(parser) {
                        Ok(w) => w,
                        Err(e) => return Err(e),
                    };
                    let a = AccessRight { consumer_id, algorithm, wrapped_key };
                    let ghost before = access_rights@;
                    access_rights.push(a);
                    proof {
                        assert(accesses_view(access_rights@) =~= accesses_view(before).push(access_view(a)));
                    }
                } else {
                    match parser.read_to_end(t.name.as_str()) {
                        Ok(()) => {},
                        Err(e) => return Err(e),
                    }
                }
            },
            _ => {},
        }
    }
}

/// Reads the content of a `<keystore>` element whose start tag was just read: its
/// consumers (identifier required, key identifier and value optional) and resource data
/// groups (key UUID required) with their access rights, elements being known by their
/// local names; other elements are skipped whole.
pub fn parse_keystore_content(parser: &mut XmlParser, uuid: u128) -> (r: Result<KeyStore, Lib3mfError>)
    requires
        old(parser).wf(),
    ensures
        moved_on(*old(parser), *final(parser)),
        match keystore_scan(old(parser).events_of(), old(parser).error_of(), old(parser).pos as int, (Seq::empty(), Seq::empty())) {
            Ok((ks, p)) => r matches Ok(k) && keystore_view(k) == (uuid, ks.0, ks.1) && final(parser).pos == p,
            Err(m) => r matches Err(Lib3mfError::Validation(x)) && x@ == m,
        },
{
    let ghost evs = parser.events_of();
    let ghost err = parser.error_of();
    let ghost start = parser.pos as int;
    let mut consumers: Vec<Consumer> = Vec::new();
    let mut groups: Vec<ResourceDataGroup> = Vec::new();
    proof {
        assert(consumers_view(consumers@) =~= Seq::<ConsumerView>::empty());
        assert(groups_view(groups@) =~= Seq::<GroupView>::empty());
    }
    loop
        invariant
            moved_on(*old(parser), *parser),
            start == old(parser).pos,
            evs == parser.events_of(),
            err == parser.error_of(),
            start <= parser.pos,
            keystore_scan(evs, err, start, (Seq::empty(), Seq::empty()))
                == keystore_scan(evs, err, parser.pos as int, (consumers_view(consumers@), groups_view(groups@))),
        decreases evs.len() - parser.pos,
    {
        let ev = match parser.read_next_event() {
            Ok(Some(e)) => e,
            Ok(None) => return Err(eof_error(parser, "Unexpected EOF in keystore")),
            Err(e) => return Err(e),
        };
        match ev {
            XmlEvent::End(n) => {
                if local_is(&n, "keystore") {
                    return Ok(KeyStore { uuid, consumers, resource_data_groups: groups });
                }
            },
            XmlEvent::Start(t) => {
                let ln = local_name_of(t.name.as_str());
                if same_text(ln.as_str(), "consumer") {
                    let id = match get_attribute(&t, "consumerid") {
                        Some(c) => c,
                        None => return Err(Lib3mfError::Validation(String::from_str("Missing consumerid"))),
                    };
                    let c = Consumer { id, key_id: get_attribute(&t, "keyid"), key_value: get_attribute(&t, "keyvalue") };
                    let ghost before = consumers@;
                    consumers.push(c);
                    proof {
                        assert(consumers_view(consumers@) =~= consumers_view(before).push(consumer_view(c)));
                    }
                    match parser.read_to_end(t.name.as_str()) {
                        Ok(()) => {},
                        Err(e) => return Err(e),
                    }
                } else if same_text(ln.as_str(), "resourcedatagroup") {
                    let text = match get_attribute(&t, "keyuuid") {
                        Some(u) => u,
                        None => return Err(Lib3mfError::Validation(String::from_str("Missing keyuuid"))),
                    };
                    let key_uuid = match parse_uuid(text.as_str()) {
                        Some(u) => u,
                        None => return Err(Lib3mfError::Validation(String::from_str("Invalid keyuuid: ").concat(text.as_str()))),
                    };
                    let g = match parse_resource_data_group(parser, key_uuid) {
                        Ok(g) => g,
                        Err(e) => return Err(e),
                    };
                    let ghost before = groups@;
                    groups.push(g);
                    proof {
                        assert(groups_view(groups@) =~= groups_view(before).push(group_view(g)));
                    }
                } else {
                    match parser.read_to_end(t.name.as_str()) {
                        Ok(()) => {},
                        Err(e) => return Err(e),
                    }
                }
            },
            _ => {},
        }
    }
}

} // verus!
