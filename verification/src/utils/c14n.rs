//! A simplified canonical form of XML (C14N) for signatures: attributes sorted by name,
//! empty elements written out as start and end tags, text kept as written, comments and
//! processing instructions left out.

use vstd::prelude::*;
use crate::error::Lib3mfError;
use crate::parser::xml_parser::{
    attrs_view, distinct_keys, event_view, events_view, keys_ok, read_xml_events, tag_view, xml_events,
    AttrsView, EventView, TagView, XmlEvent, XmlTag,
};
use crate::utils::diff::{lemma_lex_total, lemma_lex_trans, lex_lt, str_less};
use crate::text::same_text;
use vstd::utf8::encode_utf8;

verus! {

/// Whether attribute names strictly increase (by code point).
pub open spec fn keys_increasing(p: AttrsView) -> bool {
    forall|i: int, j: int| 0 <= i < j < p.len() ==> lex_lt(#[trigger] p[i].0, #[trigger] p[j].0)
}

/// The attributes arranged by increasing name.
pub open spec fn sorted_attrs(a: AttrsView) -> AttrsView {
    choose|p: AttrsView| keys_increasing(p) && forall|x: (Seq<char>, Seq<char>)| #![trigger p.contains(x)] #![trigger a.contains(x)] p.contains(x) <==> a.contains(x)
}

/// The attributes written out: ` name="value"` each, in order.
pub open spec fn attrs_text(p: AttrsView) -> Seq<char>
    decreases p.len(),
{
    if p.len() == 0 {
        Seq::empty()
    } else {
        attrs_text(p.drop_last()) + " "@ + p.last().0 + "=\""@ + p.last().1 + "\""@
    }
}

/// A start tag written out, attributes sorted, or the attribute error that stops it.
pub open spec fn open_tag_text(t: TagView) -> Result<Seq<char>, Seq<char>> {
    match t.2 {
        Some(m) => Err(m),
        None => Ok("<"@ + t.0 + attrs_text(sorted_attrs(t.1)) + ">"@),
    }
}

/// An end tag written out.
pub open spec fn close_tag_text(name: Seq<char>) -> Seq<char> {
    "</"@ + name + ">"@
}

/// The canonical text of one event, or the attribute error met writing it.
pub open spec fn event_text(e: EventView) -> Result<Seq<char>, Seq<char>> {
    match e {
        EventView::Start(t) => open_tag_text(t),
        EventView::Empty(t) => match open_tag_text(t) {
            Ok(s) => Ok(s + close_tag_text(t.0)),
            Err(m) => Err(m),
        },
        EventView::End(n) => Ok(close_tag_text(n)),
        EventView::Text(s) => Ok(s),
        EventView::CData(_) => Ok(Seq::empty()),
    }
}

/// The canonical text of the first `n` events, or the first attribute error.
pub open spec fn events_text(evs: Seq<EventView>, n: nat) -> Result<Seq<char>, Seq<char>>
    decreases n,
{
    if n == 0 || n > evs.len() {
        Ok(Seq::empty())
    } else {
        match events_text(evs, (n - 1) as nat) {
            Err(m) => Err(m),
            Ok(s) => match event_text(evs[n - 1]) {
                Err(m) => Err(m),
                Ok(t) => Ok(s + t),
            },
        }
    }
}

/// The canonical form of a document, or the message of the error that stops it (an
/// attribute error, else the XML error that ends the events).
pub open spec fn canonical_of(input: Seq<char>) -> Result<Seq<char>, Seq<char>> {
    let (evs, err) = xml_events(encode_utf8(input), false);
    match events_text(evs, evs.len()) {
        Err(m) => Err(m),
        Ok(s) => match err {
            Some(m) => Err(m),
            None => Ok(s),
        },
    }
}

/// The state of a subtree capture: whether capturing, the depth inside the target, and
/// the text so far.
pub type Capture = (bool, int, Seq<char>);

/// One event of a subtree capture: the new state and whether the capture is complete, or
/// the attribute error met.
pub open spec fn capture_step(st: Capture, e: EventView, target: Seq<char>) -> Result<(Capture, bool), Seq<char>> {
    let (capturing, depth, out) = st;
    match e {
        EventView::Start(t) => if t.0 == target || capturing {
            match open_tag_text(t) {
                Err(m) => Err(m),
                Ok(s) => Ok(((true, if t.0 == target { 1 } else { depth + 1 }, out + s), false)),
            }
        } else {
            Ok((st, false))
        },
        EventView::End(n) => if capturing {
            Ok(((true, depth - 1, out + close_tag_text(n)), depth - 1 == 0))
        } else {
            Ok((st, false))
        },
        EventView::Empty(t) => if t.0 == target || capturing {
            match open_tag_text(t) {
                Err(m) => Err(m),
                Ok(s) => Ok(((capturing, depth, out + s + close_tag_text(t.0)), t.0 == target)),
            }
        } else {
            Ok((st, false))
        },
        EventView::Text(s) => if capturing {
            Ok(((capturing, depth, out + s), false))
        } else {
            Ok((st, false))
        },
        EventView::CData(_) => Ok((st, false)),
    }
}

/// The capture from event `i` on: the text and whether it completed, or the first
/// attribute error.
pub open spec fn capture_scan(evs: Seq<EventView>, i: int, st: Capture, target: Seq<char>) -> Result<(Seq<char>, bool), Seq<char>>
    decreases evs.len() - i,
{
    if i < 0 || i >= evs.len() {
        Ok((st.2, false))
    } else {
        match capture_step(st, evs[i], target) {
            Err(m) => Err(m),
            Ok((st2, true)) => Ok((st2.2, true)),
            Ok((st2, false)) => capture_scan(evs, i + 1, st2, target),
        }
    }
}

/// The canonical form of the first element named `target` (its start tag through its end
/// tag), or the error that stops it: an attribute error or an XML error met before it is
/// complete (structure errors, `false`), or no such element (a validation error, `true`).
pub open spec fn canonical_subtree_of(input: Seq<char>, target: Seq<char>) -> Result<Seq<char>, (bool, Seq<char>)> {
    let (evs, err) = xml_events(encode_utf8(input), false);
    match capture_scan(evs, 0, (false, 0, Seq::empty()), target) {
        Err(m) => Err((false, m)),
        Ok((out, done)) => if !done && err is Some {
            Err((false, err->Some_0))
        } else if out.len() == 0 {
            Err((true, "Tag <"@ + target + "> not found for C14N"@))
        } else {
            Ok(out)
        },
    }
}

/// Two arrangements of the same attributes by increasing name are the same.
proof fn lemma_sorted_unique(p: AttrsView, q: AttrsView)
    requires
        keys_increasing(p),
        keys_increasing(q),
        forall|x: (Seq<char>, Seq<char>)| #![trigger p.contains(x)] #![trigger q.contains(x)] p.contains(x) <==> q.contains(x),
    ensures
        p == q,
    decreases p.len(),
{
    if p.len() == 0 {
        if q.len() > 0 {
            assert(q.contains(q[0]));
        }
        assert(q =~= p);
    } else if q.len() == 0 {
        assert(p.contains(p[0]));
    } else {
        assert(p.contains(p[0]));
        assert(q.contains(q[0]));
        let j = choose|j: int| 0 <= j < q.len() && q[j] == p[0];
        let k = choose|k: int| 0 <= k < p.len() && p[k] == q[0];
        lemma_lex_total(p[0].0, q[0].0);
        if j > 0 {
            assert(lex_lt(q[0].0, q[j].0));
            if k > 0 {
                assert(lex_lt(p[0].0, p[k].0));
            }
        }
        assert(q[0] == p[0]);
        let pt = p.drop_first();
        let qt = q.drop_first();
        assert forall|x: (Seq<char>, Seq<char>)| #![trigger pt.contains(x)] #![trigger qt.contains(x)] pt.contains(x) <==> qt.contains(x) by {
            if pt.contains(x) {
                let m = choose|m: int| 0 <= m < pt.len() && pt[m] == x;
                assert(p[m + 1] == x);
                assert(lex_lt(p[0].0, x.0));
                lemma_lex_total(x.0, x.0);
                assert(q.contains(x));
                let n = choose|n: int| 0 <= n < q.len() && q[n] == x;
                assert(n != 0);
                assert(qt[n - 1] == x);
            }
            if qt.contains(x) {
                let m = choose|m: int| 0 <= m < qt.len() && qt[m] == x;
                assert(q[m + 1] == x);
                assert(lex_lt(q[0].0, x.0));
                lemma_lex_total(x.0, x.0);
                assert(p.contains(x));
                let n = choose|n: int| 0 <= n < p.len() && p[n] == x;
                assert(n != 0);
                assert(pt[n - 1] == x);
            }
        }
        lemma_sorted_unique(pt, qt);
        assert(p =~= seq![p[0]] + pt);
        assert(q =~= seq![q[0]] + qt);
    }
}

/// The attributes of a tag arranged by increasing name.
fn sort_attributes(attrs: &Vec<(String, String)>) -> (r: Vec<(String, String)>)
    requires
        distinct_keys(attrs_view(attrs@)),
    ensures
        attrs_view(r@) == sorted_attrs(attrs_view(attrs@)),
{
    let ghost av = attrs_view(attrs@);
    let mut out: Vec<(String, String)> = Vec::new();
    let mut i: usize = 0;
    while i < attrs.len()
        invariant
            i <= attrs@.len(),
            av == attrs_view(attrs@),
            distinct_keys(av),
            keys_increasing(attrs_view(out@)),
            forall|x: (Seq<char>, Seq<char>)| #![trigger attrs_view(out@).contains(x)] #![trigger av.take(i as int).contains(x)] attrs_view(out@).contains(x) <==> av.take(i as int).contains(x),
        decreases attrs@.len() - i,
    {
        let ghost ov = attrs_view(out@);
        let a = &attrs[i];
        let ghost ax = av[i as int];
        let mut j: usize = 0;
        while j < out.len() && !str_less(a.0.as_str(), out[j].0.as_str())
            invariant
                j <= out@.len(),
                ov == attrs_view(out@),
                ax.0 == a.0@,
                forall|k: int| 0 <= k < j ==> !lex_lt(ax.0, #[trigger] ov[k].0),
            decreases out@.len() - j,
        {
            j = j + 1;
        }
        let pair = (a.0.clone(), a.1.clone());
        out.insert(j, pair);
        proof {
            let nv = attrs_view(out@);
            assert(nv =~= ov.insert(j as int, ax));
            assert forall|k: int| 0 <= k < ov.len() implies #[trigger] ov[k].0 != ax.0 by {
                assert(ov.contains(ov[k]));
                assert(av.take(i as int).contains(ov[k]));
                let m = choose|m: int| 0 <= m < i && av.take(i as int)[m] == ov[k];
                assert(av[m] == ov[k]);
            }
            assert forall|k: int| 0 <= k < j implies lex_lt(#[trigger] ov[k].0, ax.0) by {
                lemma_lex_total(ov[k].0, ax.0);
            }
            if j < ov.len() {
                assert(lex_lt(ax.0, ov[j as int].0));
                assert forall|k: int| j < k < ov.len() implies lex_lt(ax.0, #[trigger] ov[k].0) by {
                    lemma_lex_trans(ax.0, ov[j as int].0, ov[k].0);
                }
            }
            assert forall|p: int, q: int| 0 <= p < q < nv.len() implies lex_lt(#[trigger] nv[p].0, #[trigger] nv[q].0) by {
                if q < j {
                } else if q == j {
                } else if p < j {
                    assert(nv[q] == ov[q - 1]);
                    lemma_lex_trans(ov[p].0, ax.0, ov[q - 1].0);
                } else if p == j {
                } else {
                    assert(nv[p] == ov[p - 1]);
                    assert(nv[q] == ov[q - 1]);
                }
            }
            assert(av.take(i + 1) =~= av.take(i as int).push(ax));
            assert forall|x: (Seq<char>, Seq<char>)| #![trigger nv.contains(x)] #![trigger av.take(i + 1).contains(x)] nv.contains(x) <==> av.take(i + 1).contains(x) by {
                if nv.contains(x) {
                    let m = choose|m: int| 0 <= m < nv.len() && nv[m] == x;
                    if m < j {
                        assert(ov.contains(ov[m]));
                    } else if m > j {
                        assert(ov[m - 1] == x);
                        assert(ov.contains(ov[m - 1]));
                    } else {
                        assert(av.take(i + 1)[i as int] == x);
                    }
                }
                let ti = av.take(i + 1);
                if ti.contains(x) {
                    let m = choose|m: int| 0 <= m < ti.len() && ti[m] == x;
                    if m < i {
                        assert(av.take(i as int)[m] == x);
                        assert(av.take(i as int).contains(x));
                        let n = choose|n: int| 0 <= n < ov.len() && ov[n] == x;
                        if n < j {
                            assert(nv[n] == x);
                        } else {
                            assert(nv[n + 1] == x);
                        }
                    } else {
                        assert(nv[j as int] == x);
                    }
                }
            }
        }
        i = i + 1;
    }
    proof {
        assert(av.take(attrs@.len() as int) =~= av);
        let s = sorted_attrs(av);
        let ov = attrs_view(out@);
        assert(keys_increasing(ov) && forall|x: (Seq<char>, Seq<char>)| #![trigger ov.contains(x)] #![trigger av.contains(x)] ov.contains(x) <==> av.contains(x));
        lemma_sorted_unique(ov, s);
    }
    out
}

/// Appends the attributes written out.
fn push_attrs(out: &mut String, p: &Vec<(String, String)>)
    ensures
        final(out)@ == old(out)@ + attrs_text(attrs_view(p@)),
{
    let ghost pv = attrs_view(p@);
    let mut i: usize = 0;
    proof {
        assert(pv.take(0) =~= Seq::<(Seq<char>, Seq<char>)>::empty());
        assert(old(out)@ + attrs_text(pv.take(0)) =~= old(out)@);
    }
    while i < p.len()
        invariant
            i <= p@.len(),
            pv == attrs_view(p@),
            out@ == old(out)@ + attrs_text(pv.take(i as int)),
        decreases p@.len() - i,
    {
        proof {
            assert(pv.take(i + 1).drop_last() =~= pv.take(i as int));
            assert(pv.take(i + 1).last() == pv[i as int]);
        }
        out.append(" ");
        out.append(p[i].0.as_str());
        out.append("=\"");
        out.append(p[i].1.as_str());
        out.append("\"");
        proof {
            assert(out@ =~= old(out)@ + attrs_text(pv.take(i + 1)));
        }
        i = i + 1;
    }
    proof {
        assert(pv.take(p@.len() as int) =~= pv);
    }
}

/// Appends a start tag written out, or returns its attribute error.
fn push_open_tag(out: &mut String, t: &XmlTag) -> (r: Result<(), String>)
    requires
        t.attr_error is None ==> distinct_keys(attrs_view(t.attrs@)),
    ensures
        match open_tag_text(tag_view(*t)) {
            Ok(s) => r is Ok && final(out)@ == old(out)@ + s,
            Err(m) => r matches Err(e) && e@ == m,
        },
        r is Err ==> final(out)@ == old(out)@,
{
    match &t.attr_error {
        Some(m) => Err(m.clone()),
        None => {
            let sorted = sort_attributes(&t.attrs);
            out.append("<");
            out.append(t.name.as_str());
            push_attrs(out, &sorted);
            out.append(">");
            proof {
                assert(out@ =~= old(out)@ + ("<"@ + t.name@ + attrs_text(sorted_attrs(attrs_view(t.attrs@))) + ">"@));
            }
            Ok(())
        },
    }
}

/// Appends an end tag written out.
fn push_close_tag(out: &mut String, name: &str)
    ensures
        final(out)@ == old(out)@ + close_tag_text(name@),
{
    out.append("</");
    out.append(name);
    out.append(">");
    proof {
        assert(final(out)@ =~= old(out)@ + close_tag_text(name@));
    }
}

/// Canonical XML for signatures.
pub struct Canonicalizer;

impl Canonicalizer {
    /// The canonical form of the first element named `target_tag`, as
    /// [`canonical_subtree_of`] describes: its UTF-8 bytes, a structure error for an
    /// attribute or XML error met before the element is complete, a validation error when
    /// there is no such element.
    pub fn canonicalize_subtree(input_xml: &str, target_tag: &str) -> (r: Result<Vec<u8>, Lib3mfError>)
        ensures
            match canonical_subtree_of(input_xml@, target_tag@) {
                Ok(s) => r matches Ok(b) && b@ == encode_utf8(s),
                Err((false, m)) => r matches Err(Lib3mfError::InvalidStructure(e)) && e@ == m,
                Err((true, m)) => r matches Err(Lib3mfError::Validation(e)) && e@ == m,
            },
    {
        let data = input_xml.as_bytes_vec();
        let (evs, error) = read_xml_events(data.as_slice(), false);
        let ghost ev = events_view(evs@);
        let mut out = String::new();
        let mut capturing = false;
        let mut depth: u64 = 0;
        let mut done = false;
        let mut i: usize = 0;
        while !done && i < evs.len()
            invariant
                i <= evs@.len(),
                ev == events_view(evs@),
                xml_events(encode_utf8(input_xml@), false) == (ev, crate::parser::xml_parser::opt_view(error)),
                forall|k: int| 0 <= k < evs@.len() ==> keys_ok(#[trigger] event_view(evs@[k])),
                depth <= i,
                capturing && !done ==> depth >= 1,
                done ==> capture_scan(ev, 0, (false, 0, Seq::empty()), target_tag@) == Ok::<(Seq<char>, bool), Seq<char>>((out@, true)),
                !done ==> capture_scan(ev, 0, (false, 0, Seq::empty()), target_tag@) == capture_scan(ev, i as int, (capturing, depth as int, out@), target_tag@),
            decreases evs@.len() - i, (if done { 0int } else { 1int }),
        {
            let e = &evs[i];
            proof {
                assert(ev[i as int] == event_view(*e));
                assert(keys_ok(event_view(evs@[i as int])));
            }
            match e {
                XmlEvent::Start(t) => {
                    let is_target = same_text(t.name.as_str(), target_tag);
                    if is_target || capturing {
                        match push_open_tag(&mut out, t) {
                            Err(m) => return Err(Lib3mfError::InvalidStructure(m)),
                            Ok(()) => {},
                        }
                        depth = if is_target { 1 } else { depth + 1 };
                        capturing = true;
                    }
                },
                XmlEvent::End(n) => {
                    if capturing {
                        push_close_tag(&mut out, n.as_str());
                        depth = depth - 1;
                        if depth == 0 {
                            done = true;
                        }
                    }
                },
                XmlEvent::Empty(t) => {
                    let is_target = same_text(t.name.as_str(), target_tag);
                    if is_target || capturing {
                        match push_open_tag(&mut out, t) {
                            Err(m) => return Err(Lib3mfError::InvalidStructure(m)),
                            Ok(()) => {},
                        }
                        push_close_tag(&mut out, t.name.as_str());
                        if is_target {
                            done = true;
                        }
                    }
                },
                XmlEvent::Text(s) => {
                    if capturing {
                        out.append(s.as_str());
                    }
                },
                XmlEvent::CData(_) => {},
            }
            if !done {
                i = i + 1;
            }
        }
        if !done {
            if let Some(m) = error {
                return Err(Lib3mfError::InvalidStructure(m));
            }
        }
        if out.as_str().unicode_len() == 0 {
            let m = String::from_str("Tag <").concat(target_tag).concat("> not found for C14N");
            return Err(Lib3mfError::Validation(m));
        }
        Ok(out.as_str().as_bytes_vec())
    }

    /// The canonical form of a whole document, as [`canonical_of`] describes: its UTF-8
    /// bytes, or a structure error for an attribute or XML error.
    pub fn canonicalize(input_xml: &str) -> (r: Result<Vec<u8>, Lib3mfError>)
        ensures
            match canonical_of(input_xml@) {
                Ok(s) => r matches Ok(b) && b@ == encode_utf8(s),
                Err(m) => r matches Err(Lib3mfError::InvalidStructure(e)) && e@ == m,
            },
    {
        let data = input_xml.as_bytes_vec();
        let (evs, error) = read_xml_events(data.as_slice(), false);
        let ghost ev = events_view(evs@);
        let mut out = String::new();
        let mut i: usize = 0;
        while i < evs.len()
            invariant
                i <= evs@.len(),
                ev == events_view(evs@),
                xml_events(encode_utf8(input_xml@), false) == (ev, crate::parser::xml_parser::opt_view(error)),
                forall|k: int| 0 <= k < evs@.len() ==> keys_ok(#[trigger] event_view(evs@[k])),
                events_text(ev, i as nat) == Ok::<Seq<char>, Seq<char>>(out@),
            decreases evs@.len() - i,
        {
            let e = &evs[i];
            let ghost before = out@;
            proof {
                assert(ev[i as int] == event_view(*e));
                assert(keys_ok(event_view(evs@[i as int])));
            }
            match e {
                XmlEvent::Start(t) => {
                    match push_open_tag(&mut out, t) {
                        Err(m) => {
                            proof {
                                lemma_text_error_sticks(ev, i as nat + 1);
                            }
                            return Err(Lib3mfError::InvalidStructure(m));
                        },
                        Ok(()) => {
                            proof {
                                assert(out@.skip(before.len() as int) =~= open_tag_text(tag_view(*t))->Ok_0);
                            }
                        },
                    }
                },
                XmlEvent::End(n) => {
                    push_close_tag(&mut out, n.as_str());
                    proof {
                        assert(out@.skip(before.len() as int) =~= close_tag_text(n@));
                    }
                },
                XmlEvent::Empty(t) => {
                    match push_open_tag(&mut out, t) {
                        Err(m) => {
                            proof {
                                lemma_text_error_sticks(ev, i as nat + 1);
                            }
                            return Err(Lib3mfError::InvalidStructure(m));
                        },
                        Ok(()) => {},
                    }
                    push_close_tag(&mut out, t.name.as_str());
                    proof {
                        assert(out@.skip(before.len() as int) =~= open_tag_text(tag_view(*t))->Ok_0 + close_tag_text(t.name@));
                    }
                },
                XmlEvent::Text(s) => {
                    out.append(s.as_str());
                    proof {
                        assert(out@.skip(before.len() as int) =~= s@);
                    }
                },
                XmlEvent::CData(_) => {
                    proof {
                        assert(out@.skip(before.len() as int) =~= Seq::<char>::empty());
                    }
                },
            }
            proof {
                assert(event_text(ev[i as int]) == Ok::<Seq<char>, Seq<char>>(out@.skip(before.len() as int)));
                assert(out@ =~= before + out@.skip(before.len() as int));
            }
            i = i + 1;
        }
        match error {
            Some(m) => Err(Lib3mfError::InvalidStructure(m)),
            None => Ok(out.as_str().as_bytes_vec()),
        }
    }
}

/// Once writing the events fails, writing more of them fails with the same error.
proof fn lemma_text_error_sticks(evs: Seq<EventView>, n: nat)
    requires
        n <= evs.len(),
        events_text(evs, n) is Err,
    ensures
        events_text(evs, evs.len()) == events_text(evs, n),
    decreases evs.len() - n,
{
    if n < evs.len() {
        lemma_text_error_sticks(evs, n + 1);
    }
}

} // verus!
