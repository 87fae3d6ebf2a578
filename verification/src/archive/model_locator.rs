//! Discovery of the main model part through the package relationships.

use vstd::prelude::*;
use crate::archive::ArchiveReader;
use crate::archive::opc::{parse_relationships, relationships_of, rels_view, RelView, Relationship};
use crate::error::Lib3mfError;
use crate::model::resolver::{eq_ignore_ascii_case, same_ignoring_case, strip_slashes, without_leading_slashes};
use crate::text::same_text;

verus! {

/// The relationship type of the 3D model part.
pub open spec fn model_rel_type() -> Seq<char> {
    "http://schemas.microsoft.com/3dmanufacturing/2013/01/3dmodel"@
}

/// The relationship type of the package thumbnail.
pub open spec fn thumbnail_rel_type() -> Seq<char> {
    "http://schemas.openxmlformats.org/package/2006/relationships/metadata/thumbnail"@
}

/// The relationship type of the print ticket.
pub open spec fn print_ticket_rel_type() -> Seq<char> {
    "http://schemas.microsoft.com/3dmanufacturing/2013/01/printticket"@
}

/// The message for an external relationship with the given target.
pub open spec fn external_message(target: Seq<char>) -> Seq<char> {
    "External relationships are not allowed in 3MF packages. Found external relationship with target '"@
        + target + "'"@
}

/// The message for a second model relationship.
pub open spec fn multiple_models_message() -> Seq<char> {
    "Multiple 3D model part relationships found. Only one 3D model part is allowed per package"@
}

/// The message for a thumbnail relationship whose target is not in the package.
pub open spec fn missing_thumbnail_message(path: Seq<char>) -> Seq<char> {
    "Thumbnail file '"@ + path + "' referenced in relationships does not exist in package"@
}

/// The message for a second print ticket relationship.
pub open spec fn multiple_tickets_message() -> Seq<char> {
    "Multiple print ticket relationships found. Only one print ticket is allowed per package"@
}

/// The message when no model relationship is found.
pub open spec fn no_model_message() -> Seq<char> {
    "No 3D model relationship found"@
}

/// The scan of the first `n` relationships: the model path found so far and the number of
/// print tickets seen, or the message of the first violation. `present[i]` tells whether
/// the target of relationship `i` (without leading slashes) is in the package; it is read
/// for thumbnail relationships only.
pub open spec fn scan(rels: Seq<RelView>, present: Seq<bool>, n: nat) -> Result<(Option<Seq<char>>, nat), Seq<char>>
    decreases n,
{
    if n == 0 {
        Ok((None, 0))
    } else {
        match scan(rels, present, (n - 1) as nat) {
            Err(e) => Err(e),
            Ok((model, tickets)) => {
                let r = rels[n - 1];
                if eq_ignore_ascii_case(r.3, "external"@) {
                    Err(external_message(r.2))
                } else if r.1 == model_rel_type() {
                    if model is Some {
                        Err(multiple_models_message())
                    } else {
                        Ok((Some(strip_slashes(r.2)), tickets))
                    }
                } else if r.1 == thumbnail_rel_type() {
                    if present[n - 1] {
                        Ok((model, tickets))
                    } else {
                        Err(missing_thumbnail_message(strip_slashes(r.2)))
                    }
                } else if r.1 == print_ticket_rel_type() {
                    if tickets >= 1 {
                        Err(multiple_tickets_message())
                    } else {
                        Ok((model, tickets + 1))
                    }
                } else {
                    Ok((model, tickets))
                }
            },
        }
    }
}

/// The model path the relationships name (without leading slashes), or the message of the
/// violation that ends the scan: an external relationship, a second model, a missing
/// thumbnail, a second print ticket, or no model at all.
pub open spec fn locate(rels: Seq<RelView>, present: Seq<bool>) -> Result<Seq<char>, Seq<char>> {
    match scan(rels, present, rels.len()) {
        Err(e) => Err(e),
        Ok((Some(p), _)) => Ok(p),
        Ok((None, _)) => Err(no_model_message()),
    }
}

/// The number of the first `n` relationships whose type is `ty`.
pub open spec fn count_type(rels: Seq<RelView>, n: int, ty: Seq<char>) -> nat
    decreases n,
{
    if n <= 0 {
        0
    } else {
        count_type(rels, n - 1, ty) + (if rels[n - 1].1 == ty { 1nat } else { 0nat })
    }
}

proof fn lemma_count_mono(rels: Seq<RelView>, m: int, n: int, ty: Seq<char>)
    requires
        0 <= m <= n,
    ensures
        count_type(rels, m, ty) <= count_type(rels, n, ty),
    decreases n - m,
{
    if m < n {
        lemma_count_mono(rels, m, n - 1, ty);
    }
}

proof fn lemma_count_after(rels: Seq<RelView>, j: int, n: int, ty: Seq<char>)
    requires
        0 <= j < n,
        rels[j].1 == ty,
    ensures
        count_type(rels, n, ty) >= count_type(rels, j, ty) + 1,
{
    lemma_count_mono(rels, j + 1, n, ty);
}

/// The three relationship types differ.
proof fn lemma_types_differ()
    ensures
        model_rel_type() != print_ticket_rel_type(),
        thumbnail_rel_type() != print_ticket_rel_type(),
        thumbnail_rel_type() != model_rel_type(),
{
    reveal_strlit("http://schemas.microsoft.com/3dmanufacturing/2013/01/3dmodel");
    reveal_strlit("http://schemas.openxmlformats.org/package/2006/relationships/metadata/thumbnail");
    reveal_strlit("http://schemas.microsoft.com/3dmanufacturing/2013/01/printticket");
    assert(model_rel_type()[53] != print_ticket_rel_type()[53]);
    assert(thumbnail_rel_type()[15] != print_ticket_rel_type()[15]);
    assert(thumbnail_rel_type()[15] != model_rel_type()[15]);
}

/// The scan under the conditions of [`law_single_model_located`], after `n` relationships.
proof fn lemma_scan_clean(rels: Seq<RelView>, present: Seq<bool>, k: int, n: int)
    requires
        0 <= n <= rels.len(),
        present.len() == rels.len(),
        forall|i: int| 0 <= i < rels.len() ==> !eq_ignore_ascii_case(#[trigger] rels[i].3, "external"@),
        forall|i: int| 0 <= i < rels.len() && (#[trigger] rels[i]).1 == thumbnail_rel_type() ==> present[i],
        count_type(rels, rels.len() as int, model_rel_type()) == 1,
        count_type(rels, rels.len() as int, print_ticket_rel_type()) <= 1,
        0 <= k < rels.len(),
        rels[k].1 == model_rel_type(),
    ensures
        scan(rels, present, n as nat) == Ok::<(Option<Seq<char>>, nat), Seq<char>>((
            if count_type(rels, n, model_rel_type()) == 0 { None } else { Some(strip_slashes(rels[k].2)) },
            count_type(rels, n, print_ticket_rel_type()),
        )),
    decreases n,
{
    let len = rels.len() as int;
    let mt = model_rel_type();
    let tt = print_ticket_rel_type();
    if n > 0 {
        lemma_scan_clean(rels, present, k, n - 1);
        lemma_types_differ();
        lemma_count_mono(rels, n, len, mt);
        lemma_count_mono(rels, n, len, tt);
        let r = rels[n - 1];
        assert(!eq_ignore_ascii_case(r.3, "external"@));
        if r.1 == mt {
            if n - 1 < k {
                lemma_count_after(rels, k, len, mt);
                lemma_count_mono(rels, n, k, mt);
            } else if n - 1 > k {
                lemma_count_after(rels, k, n - 1, mt);
            }
            assert(n - 1 == k);
        } else if r.1 == thumbnail_rel_type() {
            assert(present[n - 1]);
        }
    }
}

/// A package whose relationships name exactly one model part and at most one print ticket,
/// with no external target and every thumbnail present, is located at that model part's
/// target (its leading slashes removed).
pub proof fn law_single_model_located(rels: Seq<RelView>, present: Seq<bool>, k: int)
    requires
        present.len() == rels.len(),
        forall|i: int| 0 <= i < rels.len() ==> !eq_ignore_ascii_case(#[trigger] rels[i].3, "external"@),
        forall|i: int| 0 <= i < rels.len() && (#[trigger] rels[i]).1 == thumbnail_rel_type() ==> present[i],
        count_type(rels, rels.len() as int, model_rel_type()) == 1,
        count_type(rels, rels.len() as int, print_ticket_rel_type()) <= 1,
        0 <= k < rels.len(),
        rels[k].1 == model_rel_type(),
    ensures
        locate(rels, present) == Ok::<Seq<char>, Seq<char>>(strip_slashes(rels[k].2)),
{
    lemma_scan_clean(rels, present, k, rels.len() as int);
}

/// The scan of relationships without a model part, external target, missing thumbnail or
/// second print ticket, after `n` relationships.
proof fn lemma_scan_no_model(rels: Seq<RelView>, present: Seq<bool>, n: int)
    requires
        0 <= n <= rels.len(),
        present.len() == rels.len(),
        forall|i: int| 0 <= i < rels.len() ==> !eq_ignore_ascii_case(#[trigger] rels[i].3, "external"@),
        forall|i: int| 0 <= i < rels.len() && (#[trigger] rels[i]).1 == thumbnail_rel_type() ==> present[i],
        count_type(rels, rels.len() as int, model_rel_type()) == 0,
        count_type(rels, rels.len() as int, print_ticket_rel_type()) <= 1,
    ensures
        scan(rels, present, n as nat) == Ok::<(Option<Seq<char>>, nat), Seq<char>>((None, count_type(rels, n, print_ticket_rel_type()))),
    decreases n,
{
    if n > 0 {
        lemma_scan_no_model(rels, present, n - 1);
        lemma_types_differ();
        lemma_count_mono(rels, n, rels.len() as int, model_rel_type());
        lemma_count_mono(rels, n, rels.len() as int, print_ticket_rel_type());
        assert(!eq_ignore_ascii_case(rels[n - 1].3, "external"@));
        if rels[n - 1].1 == thumbnail_rel_type() {
            assert(present[n - 1]);
        }
    }
}

/// Relationships that name no model part, and break no other rule, are refused with "No 3D
/// model relationship found".
pub proof fn law_no_model_refused(rels: Seq<RelView>, present: Seq<bool>)
    requires
        present.len() == rels.len(),
        forall|i: int| 0 <= i < rels.len() ==> !eq_ignore_ascii_case(#[trigger] rels[i].3, "external"@),
        forall|i: int| 0 <= i < rels.len() && (#[trigger] rels[i]).1 == thumbnail_rel_type() ==> present[i],
        forall|i: int| 0 <= i < rels.len() ==> (#[trigger] rels[i]).1 != model_rel_type(),
        count_type(rels, rels.len() as int, print_ticket_rel_type()) <= 1,
    ensures
        locate(rels, present) == Err::<Seq<char>, Seq<char>>("No 3D model relationship found"@),
{
    lemma_no_type(rels, rels.len() as int, model_rel_type());
    lemma_scan_no_model(rels, present, rels.len() as int);
}

/// No relationship of type `ty` among the first `n` counts none.
proof fn lemma_no_type(rels: Seq<RelView>, n: int, ty: Seq<char>)
    requires
        n <= rels.len(),
        forall|i: int| 0 <= i < rels.len() ==> (#[trigger] rels[i]).1 != ty,
    ensures
        count_type(rels, n, ty) == 0,
    decreases n,
{
    if n > 0 {
        lemma_no_type(rels, n - 1, ty);
        assert(rels[n - 1].1 != ty);
    }
}

/// Checks the package relationships and returns the model path, as [`locate`] describes;
/// `present[i]` tells whether the target of relationship `i` is in the package.
pub fn locate_model_path(rels: &Vec<Relationship>, present: &Vec<bool>) -> (r: Result<String, Lib3mfError>)
    requires
        present@.len() == rels@.len(),
    ensures
        match locate(rels_view(rels@), present@) {
            Ok(p) => r matches Ok(s) && s@ == p,
            Err(m) => r matches Err(Lib3mfError::Validation(e)) && e@ == m,
        },
{
    let ghost rv = rels_view(rels@);
    let mut model: Option<String> = None;
    let mut tickets: u64 = 0;
    let mut i: usize = 0;
    while i < rels.len()
        invariant
            i <= rels@.len(),
            present@.len() == rels@.len(),
            rv == rels_view(rels@),
            tickets <= 1,
            scan(rv, present@, i as nat) == Ok::<(Option<Seq<char>>, nat), Seq<char>>((
                match model { Some(s) => Some(s@), None => None },
                tickets as nat,
            )),
        decreases rels@.len() - i,
    {
        let r = &rels[i];
        proof {
            assert(rv[i as int] == (r.id@, r.rel_type@, r.target@, r.target_mode@));
        }
        if same_ignoring_case(r.target_mode.as_str(), "external") {
            let m = String::from_str(
                "External relationships are not allowed in 3MF packages. Found external relationship with target '",
            ).concat(r.target.as_str()).concat("'");
            proof {
                lemma_scan_error_sticks(rv, present@, i as nat + 1);
            }
            return Err(Lib3mfError::Validation(m));
        }
        if same_text(r.rel_type.as_str(), "http://schemas.microsoft.com/3dmanufacturing/2013/01/3dmodel") {
            if model.is_some() {
                proof {
                    lemma_scan_error_sticks(rv, present@, i as nat + 1);
                }
                return Err(Lib3mfError::Validation(String::from_str(
                    "Multiple 3D model part relationships found. Only one 3D model part is allowed per package",
                )));
            }
            model = Some(without_leading_slashes(r.target.as_str()));
        } else if same_text(r.rel_type.as_str(), "http://schemas.openxmlformats.org/package/2006/relationships/metadata/thumbnail") {
            if !present[i] {
                let p = without_leading_slashes(r.target.as_str());
                let m = String::from_str("Thumbnail file '").concat(p.as_str()).concat(
                    "' referenced in relationships does not exist in package",
                );
                proof {
                    lemma_scan_error_sticks(rv, present@, i as nat + 1);
                }
                return Err(Lib3mfError::Validation(m));
            }
        } else if same_text(r.rel_type.as_str(), "http://schemas.microsoft.com/3dmanufacturing/2013/01/printticket") {
            if tickets >= 1 {
                proof {
                    lemma_scan_error_sticks(rv, present@, i as nat + 1);
                }
                return Err(Lib3mfError::Validation(String::from_str(
                    "Multiple print ticket relationships found. Only one print ticket is allowed per package",
                )));
            }
            tickets = tickets + 1;
        }
        i = i + 1;
    }
    proof {
        assert(rv.len() == rels@.len());
    }
    match model {
        Some(p) => Ok(p),
        None => Err(Lib3mfError::Validation(String::from_str("No 3D model relationship found"))),
    }
}

/// Once the scan fails, scanning further relationships fails with the same message.
proof fn lemma_scan_error_sticks(rels: Seq<RelView>, present: Seq<bool>, n: nat)
    requires
        n <= rels.len(),
        scan(rels, present, n) is Err,
    ensures
        scan(rels, present, rels.len()) == scan(rels, present, n),
    decreases rels.len() - n,
{
    if n < rels.len() {
        lemma_scan_error_sticks(rels, present, n + 1);
    }
}

/// For each relationship, whether the archive lists its target (without leading slashes),
/// as the scan reads it: asked for thumbnail relationships, `true` for the others.
pub open spec fn thumbnail_presence<R: ArchiveReader>(a: R, rels: Seq<RelView>) -> Seq<bool> {
    Seq::new(rels.len(), |i: int| rels[i].1 == thumbnail_rel_type() ==> a.has_entry(strip_slashes(rels[i].2)))
}

/// Finds the path of the main model part: an `InvalidStructure` error when the archive has
/// no `_rels/.rels`; otherwise reads it (a read error is the archive's), reads its
/// relationships (their error is a validation error) and checks them as [`locate`] says,
/// with the archive telling which thumbnail targets it holds.
pub fn find_model_path<R: ArchiveReader>(archive: &mut R) -> (r: Result<String, Lib3mfError>)
    ensures
        forall|n: Seq<char>| #[trigger] final(archive).entry(n) == old(archive).entry(n),
        forall|n: Seq<char>| #[trigger] final(archive).has_entry(n) == old(archive).has_entry(n),
        !old(archive).has_entry("_rels/.rels"@) ==> (r matches Err(Lib3mfError::InvalidStructure(m)) && m@ == "Missing _rels/.rels"@),
        old(archive).has_entry("_rels/.rels"@) ==> match old(archive).entry("_rels/.rels"@) {
            None => r is Err,
            Some(data) => match relationships_of(data) {
                Err(m) => r matches Err(Lib3mfError::Validation(e)) && e@ == m,
                Ok(rels) => match locate(rels, thumbnail_presence(*old(archive), rels)) {
                    Ok(p) => r matches Ok(s) && s@ == p,
                    Err(m) => r matches Err(Lib3mfError::Validation(e)) && e@ == m,
                },
            },
        },
{
    if !archive.entry_exists("_rels/.rels") {
        return Err(Lib3mfError::InvalidStructure(String::from_str("Missing _rels/.rels")));
    }
    let data = archive.read_entry("_rels/.rels")?;
    let rels = parse_relationships(data.as_slice())?;
    let ghost rv = rels_view(rels@);
    let ghost pres = thumbnail_presence(*old(archive), rv);
    let mut present: Vec<bool> = Vec::new();
    let mut i: usize = 0;
    while i < rels.len()
        invariant
            i <= rels@.len(),
            rv == rels_view(rels@),
            pres == thumbnail_presence(*old(archive), rv),
            present@ == pres.take(i as int),
            forall|n: Seq<char>| #[trigger] archive.entry(n) == old(archive).entry(n),
            forall|n: Seq<char>| #[trigger] archive.has_entry(n) == old(archive).has_entry(n),
        decreases rels@.len() - i,
    {
        let r = &rels[i];
        proof {
            assert(rv[i as int] == (r.id@, r.rel_type@, r.target@, r.target_mode@));
        }
        if same_text(r.rel_type.as_str(), "http://schemas.openxmlformats.org/package/2006/relationships/metadata/thumbnail") {
            let p = without_leading_slashes(r.target.as_str());
            let here = archive.entry_exists(p.as_str());
            present.push(here);
        } else {
            present.push(true);
        }
        proof {
            assert(present@ =~= pres.take(i + 1));
        }
        i = i + 1;
    }
    proof {
        assert(present@ =~= pres);
    }
    locate_model_path(&rels, &present)
}

} // verus!
