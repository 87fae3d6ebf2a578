//! Differences between two models: metadata, object resources and the build.

use vstd::prelude::*;
use crate::model::core_model::{lookup_value, metadata_names, Model};
use crate::model::mesh::{Geometry, Object};
use crate::model::resources::{first_with, ResourceCollection, Identified, count_id, has_id, lemma_count_id_has, lemma_first_with};
use crate::text::{append_num, decimal};

verus! {

// ---------------------------------------------------------------- ordering of names

/// Lexicographic order on character sequences, by code point.
pub open spec fn lex_lt(a: Seq<char>, b: Seq<char>) -> bool
    decreases a.len(),
{
    if a.len() == 0 {
        b.len() > 0
    } else if b.len() == 0 {
        false
    } else if a[0] != b[0] {
        (a[0] as int) < (b[0] as int)
    } else {
        lex_lt(a.drop_first(), b.drop_first())
    }
}

/// Lexicographic order is irreflexive and total on distinct sequences.
pub proof fn lemma_lex_total(a: Seq<char>, b: Seq<char>)
    ensures
        !lex_lt(a, a),
        a != b ==> (lex_lt(a, b) || lex_lt(b, a)),
        !(lex_lt(a, b) && lex_lt(b, a)),
    decreases a.len(),
{
    if a.len() > 0 {
        lemma_lex_total(a.drop_first(), a.drop_first());
        if b.len() > 0 {
            lemma_lex_total(a.drop_first(), b.drop_first());
            if a != b && a[0] == b[0] {
                assert(a.drop_first() != b.drop_first()) by {
                    if a.drop_first() == b.drop_first() {
                        assert(a =~= seq![a[0]] + a.drop_first());
                        assert(b =~= seq![b[0]] + b.drop_first());
                    }
                }
            }
        }
    } else {
        if b.len() == 0 {
            assert(a =~= b);
        }
    }
}

/// Lexicographic order is transitive.
pub proof fn lemma_lex_trans(a: Seq<char>, b: Seq<char>, c: Seq<char>)
    requires
        lex_lt(a, b),
        lex_lt(b, c),
    ensures
        lex_lt(a, c),
    decreases a.len(),
{
    if a.len() > 0 && b.len() > 0 && c.len() > 0 {
        if a[0] == b[0] && b[0] == c[0] {
            lemma_lex_trans(a.drop_first(), b.drop_first(), c.drop_first());
        }
    }
}

/// The character sequences of a list of strings.
pub open spec fn views(s: Seq<String>) -> Seq<Seq<char>> {
    s.map_values(|x: String| x@)
}

/// Whether `s` is in strictly increasing order.
pub open spec fn strictly_sorted(s: Seq<Seq<char>>) -> bool {
    forall|i: int, j: int| 0 <= i < j < s.len() ==> lex_lt(#[trigger] s[i], #[trigger] s[j])
}

/// Compares two strings by code point; true when `a` comes first.
pub(crate) fn str_less(a: &str, b: &str) -> (r: bool)
    ensures
        r == lex_lt(a@, b@),
{
    let n = a.unicode_len();
    let m = b.unicode_len();
    let mut i: usize = 0;
    proof {
        assert(a@.skip(0) =~= a@);
        assert(b@.skip(0) =~= b@);
    }
    while i < n && i < m
        invariant
            n == a@.len(),
            m == b@.len(),
            i <= n,
            i <= m,
            forall|k: int| 0 <= k < i ==> a@[k] == b@[k],
            lex_lt(a@, b@) == lex_lt(a@.skip(i as int), b@.skip(i as int)),
        decreases n - i,
    {
        let ca = a.get_char(i);
        let cb = b.get_char(i);
        if ca != cb {
            proof {
                assert(a@.skip(i as int)[0] == ca);
                assert(b@.skip(i as int)[0] == cb);
            }
            return (ca as u32) < (cb as u32);
        }
        proof {
            assert(a@.skip(i as int).drop_first() =~= a@.skip(i + 1));
            assert(b@.skip(i as int).drop_first() =~= b@.skip(i + 1));
        }
        i = i + 1;
    }
    proof {
        assert(a@.skip(i as int).len() == 0 || b@.skip(i as int).len() == 0);
    }
    i < m
}

/// Inserts `x` into a strictly increasing list of names, unless it is already there.
fn insert_sorted(keys: &mut Vec<String>, x: &String)
    requires
        strictly_sorted(views(old(keys)@)),
    ensures
        strictly_sorted(views(final(keys)@)),
        forall|y: Seq<char>| #[trigger] views(final(keys)@).contains(y)
            <==> (views(old(keys)@).contains(y) || y == x@),
{
    let ghost v0 = views(keys@);
    let mut p: usize = 0;
    let mut stop = false;
    while p < keys.len() && !stop
        invariant
            v0 == views(old(keys)@),
            strictly_sorted(v0),
            keys@ == old(keys)@,
            p <= keys@.len(),
            forall|k: int| 0 <= k < p ==> lex_lt(#[trigger] v0[k], x@),
            stop ==> p < keys@.len() && lex_lt(x@, v0[p as int]),
        decreases keys@.len() - p + (if stop { 0int } else { 1int }),
    {
        let before = str_less(x.as_str(), keys[p].as_str());
        if before {
            stop = true;
        } else {
            let after = str_less(keys[p].as_str(), x.as_str());
            if !after {
                proof {
                    lemma_lex_total(v0[p as int], x@);
                    assert(v0[p as int] == x@);
                    assert(v0.contains(x@));
                }
                return;
            }
            p = p + 1;
        }
    }
    let ghost p0 = p as int;
    proof {
        assert(p0 < v0.len() ==> lex_lt(x@, v0[p0]));
    }
    keys.insert(p, x.clone());
    proof {
        let v1 = views(keys@);
        assert(v1 =~= v0.insert(p0, x@));
        assert forall|i: int, j: int| 0 <= i < j < v1.len() implies lex_lt(#[trigger] v1[i], #[trigger] v1[j]) by {
            if j < p0 {
                assert(lex_lt(v0[i], v0[j]));
            } else if j == p0 {
                assert(lex_lt(v0[i], x@));
            } else if i == p0 {
                if j - 1 > p0 {
                    lemma_lex_trans(x@, v0[p0], v0[j - 1]);
                }
            } else if i < p0 {
                assert(lex_lt(v0[i], x@));
                assert(lex_lt(x@, v0[p0]));
                lemma_lex_trans(v0[i], x@, v0[p0]);
                if j - 1 > p0 {
                    lemma_lex_trans(v0[i], v0[p0], v0[j - 1]);
                }
            } else {
                assert(lex_lt(v0[i - 1], v0[j - 1]));
            }
        }
        assert forall|y: Seq<char>| #[trigger] v1.contains(y) <==> (v0.contains(y) || y == x@) by {
            if v1.contains(y) {
                let k = choose|k: int| 0 <= k < v1.len() && v1[k] == y;
                if k < p0 {
                    assert(v0[k] == y);
                } else if k > p0 {
                    assert(v0[k - 1] == y);
                }
            }
            if v0.contains(y) {
                let k = choose|k: int| 0 <= k < v0.len() && v0[k] == y;
                if k < p0 {
                    assert(v1[k] == y);
                } else {
                    assert(v1[k + 1] == y);
                }
            }
            if y == x@ {
                assert(v1[p0] == y);
            }
        }
    }
}

// ---------------------------------------------------------------- diff records

/// The computed differences between two models.
#[derive(Debug)]
pub struct ModelDiff {
    /// Metadata keys whose values differ.
    pub metadata_diffs: Vec<MetadataDiff>,
    /// Object resources added, removed or changed.
    pub resource_diffs: Vec<ResourceDiff>,
    /// Differences of the build item lists.
    pub build_diffs: Vec<BuildDiff>,
}

/// A metadata key whose value differs between the two models.
#[derive(Debug)]
pub struct MetadataDiff {
    /// The key.
    pub key: String,
    /// The value in the first model, if any.
    pub old_value: Option<String>,
    /// The value in the second model, if any.
    pub new_value: Option<String>,
}

/// A difference of an object resource.
#[derive(Debug)]
pub enum ResourceDiff {
    /// Present in the second model only.
    Added {
        /// Resource ID.
        id: u32,
        /// Kind of geometry, such as `Mesh`.
        geometry_type: String,
    },
    /// Present in the first model only.
    Removed {
        /// Resource ID.
        id: u32,
        /// Kind of geometry.
        geometry_type: String,
    },
    /// Present in both, with differences.
    Changed {
        /// Resource ID.
        id: u32,
        /// What changed.
        details: Vec<String>,
    },
}

/// A difference of the build item lists.
#[derive(Debug)]
pub enum BuildDiff {
    /// An item present in the second model only.
    Added {
        /// Object of the item.
        object_id: u32,
    },
    /// An item present in the first model only.
    Removed {
        /// Object of the item.
        object_id: u32,
    },
    /// An item that changed.
    Changed {
        /// Object of the item (0 for the list as a whole).
        object_id: u32,
        /// What changed.
        details: Vec<String>,
    },
}

impl Default for ModelDiff {
    fn default() -> (d: Self)
        ensures
            d.metadata_diffs@.len() == 0,
            d.resource_diffs@.len() == 0,
            d.build_diffs@.len() == 0,
    {
        ModelDiff { metadata_diffs: Vec::new(), resource_diffs: Vec::new(), build_diffs: Vec::new() }
    }
}

impl ModelDiff {
    /// Whether the models did not differ.
    pub fn is_empty(&self) -> (r: bool)
        ensures
            r == (self.metadata_diffs@.len() == 0 && self.resource_diffs@.len() == 0 && self.build_diffs@.len() == 0),
    {
        self.metadata_diffs.len() == 0 && self.resource_diffs.len() == 0 && self.build_diffs.len() == 0
    }
}

/// A difference record as values: kind (0 added, 1 removed, 2 changed), ID, and texts
/// (the type name, or the details).
pub type DiffView = (u8, u32, Seq<Seq<char>>);

/// A resource difference as values.
pub open spec fn resource_diff_view(d: ResourceDiff) -> DiffView {
    match d {
        ResourceDiff::Added { id, geometry_type } => (0, id, seq![geometry_type@]),
        ResourceDiff::Removed { id, geometry_type } => (1, id, seq![geometry_type@]),
        ResourceDiff::Changed { id, details } => (2, id, views(details@)),
    }
}

/// A build difference as values.
pub open spec fn build_diff_view(d: BuildDiff) -> DiffView {
    match d {
        BuildDiff::Added { object_id } => (0, object_id, Seq::empty()),
        BuildDiff::Removed { object_id } => (1, object_id, Seq::empty()),
        BuildDiff::Changed { object_id, details } => (2, object_id, views(details@)),
    }
}

/// An optional string as an optional character sequence.
pub open spec fn opt_view(o: Option<String>) -> Option<Seq<char>> {
    match o {
        Some(s) => Some(s@),
        None => None,
    }
}

/// The name of a kind of geometry.
pub open spec fn geometry_type_name(g: Geometry) -> Seq<char> {
    match g {
        Geometry::Mesh(_) => "Mesh"@,
        Geometry::Components(_) => "Components"@,
        Geometry::SliceStack(_) => "SliceStack"@,
        Geometry::VolumetricStack(_) => "VolumetricStack"@,
        Geometry::BooleanShape(_) => "BooleanShape"@,
        Geometry::DisplacementMesh(_) => "DisplacementMesh"@,
    }
}

/// The name of a kind of geometry.
pub fn get_geometry_type_name(g: &Geometry) -> (r: &'static str)
    ensures
        r@ == geometry_type_name(*g),
{
    match g {
        Geometry::Mesh(_) => "Mesh",
        Geometry::Components(_) => "Components",
        Geometry::SliceStack(_) => "SliceStack",
        Geometry::VolumetricStack(_) => "VolumetricStack",
        Geometry::BooleanShape(_) => "BooleanShape",
        Geometry::DisplacementMesh(_) => "DisplacementMesh",
    }
}

/// `f(0) + f(1) + ... + f(n - 1)`.
pub open spec fn concat_views(n: nat, f: spec_fn(int) -> Seq<DiffView>) -> Seq<DiffView>
    decreases n,
{
    if n == 0 {
        Seq::empty()
    } else {
        concat_views((n - 1) as nat, f) + f(n - 1)
    }
}

/// What changed between two meshes: vertex and triangle counts.
pub open spec fn mesh_change_details(nva: nat, nvb: nat, nta: nat, ntb: nat) -> Seq<Seq<char>> {
    (if nva != nvb { seq!["Vertex count changed: "@ + decimal(nva) + " -> "@ + decimal(nvb)] } else { Seq::empty() })
        + (if nta != ntb { seq!["Triangle count changed: "@ + decimal(nta) + " -> "@ + decimal(ntb)] } else { Seq::empty() })
}

/// Whether two geometries are of the same kind (and so have the same type name).
pub open spec fn same_kind(a: Geometry, b: Geometry) -> bool {
    match (a, b) {
        (Geometry::Mesh(_), Geometry::Mesh(_)) => true,
        (Geometry::Components(_), Geometry::Components(_)) => true,
        (Geometry::SliceStack(_), Geometry::SliceStack(_)) => true,
        (Geometry::VolumetricStack(_), Geometry::VolumetricStack(_)) => true,
        (Geometry::BooleanShape(_), Geometry::BooleanShape(_)) => true,
        (Geometry::DisplacementMesh(_), Geometry::DisplacementMesh(_)) => true,
        _ => false,
    }
}

/// The differences recorded for an object of the first model.
pub open spec fn old_object_diffs(o: Object, rb: ResourceCollection) -> Seq<DiffView> {
    let ta = geometry_type_name(o.geometry);
    match first_with(rb.objects(), o.id.0) {
        Some(ob) => {
            let tb = geometry_type_name(ob.geometry);
            if !same_kind(o.geometry, ob.geometry) {
                seq![(2u8, o.id.0, seq!["Type changed: "@ + ta + " -> "@ + tb])]
            } else {
                match (o.geometry, ob.geometry) {
                    (Geometry::Mesh(ma), Geometry::Mesh(mb)) => {
                        let d = mesh_change_details(ma.vertices@.len(), mb.vertices@.len(), ma.triangles@.len(), mb.triangles@.len());
                        if d.len() > 0 { seq![(2u8, o.id.0, d)] } else { Seq::empty() }
                    },
                    _ => Seq::empty(),
                }
            }
        },
        None => seq![(1u8, o.id.0, seq![ta])],
    }
}

/// The difference recorded for an object of the second model.
pub open spec fn new_object_diffs(o: Object, ra: ResourceCollection) -> Seq<DiffView> {
    if !ra.spec_exists(o.id.0) {
        seq![(0u8, o.id.0, seq![geometry_type_name(o.geometry)])]
    } else {
        Seq::empty()
    }
}

/// The resource differences: removed or changed objects of the first model in order, then
/// added objects of the second model in order.
pub open spec fn resource_diff_views(a: Model, b: Model) -> Seq<DiffView> {
    concat_views(a.resources.objects().len(), |k: int| old_object_diffs(a.resources.objects()[k], b.resources))
        + concat_views(b.resources.objects().len(), |k: int| new_object_diffs(b.resources.objects()[k], a.resources))
}

/// The build differences: only the item count is compared.
pub open spec fn build_diff_views(a: Model, b: Model) -> Seq<DiffView> {
    let na = a.build.items@.len();
    let nb = b.build.items@.len();
    if na != nb {
        seq![(2u8, 0u32, seq!["Item count changed: "@ + decimal(na) + " -> "@ + decimal(nb)])]
    } else {
        Seq::empty()
    }
}

/// A name that a lookup finds is among the names.
pub proof fn lemma_lookup_found(s: Seq<(String, String)>, k: Seq<char>)
    ensures
        lookup_value(s, k) is Some ==> metadata_names(s).contains(k),
    decreases s.len(),
{
    if s.len() > 0 && s[0].0@ != k {
        lemma_lookup_found(s.drop_first(), k);
        if lookup_value(s, k) is Some {
            let j = choose|j: int| 0 <= j < metadata_names(s.drop_first()).len() && metadata_names(s.drop_first())[j] == k;
            assert(metadata_names(s)[j + 1] == k);
        }
    } else if s.len() > 0 {
        assert(metadata_names(s)[0] == k);
    }
}

/// What a sequence with one more element contains.
pub proof fn lemma_push_contains<T>(s: Seq<T>, x: T)
    ensures
        forall|y: T| #[trigger] s.push(x).contains(y) <==> (s.contains(y) || y == x),
{
    assert forall|y: T| #[trigger] s.push(x).contains(y) <==> (s.contains(y) || y == x) by {
        if s.push(x).contains(y) {
            let k = choose|k: int| 0 <= k < s.push(x).len() && s.push(x)[k] == y;
            if k < s.len() {
                assert(s[k] == y);
            }
        }
        if s.contains(y) {
            let k = choose|k: int| 0 <= k < s.len() && s[k] == y;
            assert(s.push(x)[k] == y);
        }
        if y == x {
            assert(s.push(x)[s.len() as int] == y);
        }
    }
}

/// The metadata names of both lists, in increasing order, each once.
fn all_metadata_keys(a: &Vec<(String, String)>, b: &Vec<(String, String)>) -> (keys: Vec<String>)
    ensures
        strictly_sorted(views(keys@)),
        forall|y: Seq<char>| #[trigger] views(keys@).contains(y) <==> (metadata_names(a@).contains(y) || metadata_names(b@).contains(y)),
{
    let mut keys: Vec<String> = Vec::new();
    proof {
        assert forall|y: Seq<char>| #[trigger] views(keys@).contains(y) <==> (metadata_names(a@.take(0)).contains(y) || metadata_names(b@.take(0)).contains(y)) by {
            assert(views(keys@).len() == 0);
            assert(metadata_names(a@.take(0)).len() == 0);
            assert(metadata_names(b@.take(0)).len() == 0);
        }
    }
    let mut i: usize = 0;
    while i < a.len()
        invariant
            i <= a@.len(),
            strictly_sorted(views(keys@)),
            forall|y: Seq<char>| #[trigger] views(keys@).contains(y) <==> (metadata_names(a@.take(i as int)).contains(y) || metadata_names(b@.take(0)).contains(y)),
        decreases a@.len() - i,
    {
        insert_sorted(&mut keys, &a[i].0);
        proof {
            assert(metadata_names(a@.take(i + 1)) =~= metadata_names(a@.take(i as int)).push(a@[i as int].0@));
            lemma_push_contains(metadata_names(a@.take(i as int)), a@[i as int].0@);
        }
        i = i + 1;
    }
    let mut j: usize = 0;
    while j < b.len()
        invariant
            j <= b@.len(),
            strictly_sorted(views(keys@)),
            forall|y: Seq<char>| #[trigger] views(keys@).contains(y) <==> (metadata_names(a@.take(a@.len() as int)).contains(y) || metadata_names(b@.take(j as int)).contains(y)),
        decreases b@.len() - j,
    {
        insert_sorted(&mut keys, &b[j].0);
        proof {
            assert(metadata_names(b@.take(j + 1)) =~= metadata_names(b@.take(j as int)).push(b@[j as int].0@));
            lemma_push_contains(metadata_names(b@.take(j as int)), b@[j as int].0@);
        }
        j = j + 1;
    }
    proof {
        assert(a@.take(a@.len() as int) =~= a@);
        assert(b@.take(b@.len() as int) =~= b@);
    }
    keys
}

fn clone_opt(o: Option<&String>) -> (r: Option<String>)
    ensures
        opt_view(r) == match o { Some(s) => Some(s@), None => None::<Seq<char>> },
{
    match o {
        Some(s) => Some(s.clone()),
        None => None,
    }
}

/// The metadata keys of `diffs`.
pub open spec fn diff_keys(diffs: Seq<MetadataDiff>) -> Seq<Seq<char>> {
    diffs.map_values(|d: MetadataDiff| d.key@)
}

/// Whether metadata `diffs` are exactly the keys whose values differ between `a` and `b`,
/// in increasing order, each with both values.
pub open spec fn metadata_diffs_ok(diffs: Seq<MetadataDiff>, a: Seq<(String, String)>, b: Seq<(String, String)>) -> bool {
    &&& strictly_sorted(diff_keys(diffs))
    &&& forall|y: Seq<char>| #[trigger] diff_keys(diffs).contains(y) <==> opt_view(lookup_value(a, y)) != opt_view(lookup_value(b, y))
    &&& forall|q: int| 0 <= q < diffs.len() ==> {
        &&& opt_view((#[trigger] diffs[q]).old_value) == opt_view(lookup_value(a, diffs[q].key@))
        &&& opt_view(diffs[q].new_value) == opt_view(lookup_value(b, diffs[q].key@))
    }
}

fn compare_metadata(ma: &Model, mb: &Model) -> (diffs: Vec<MetadataDiff>)
    ensures
        metadata_diffs_ok(diffs@, ma.metadata@, mb.metadata@),
{
    let keys = all_metadata_keys(&ma.metadata, &mb.metadata);
    let ghost kv = views(keys@);
    let mut diffs: Vec<MetadataDiff> = Vec::new();
    let mut i: usize = 0;
    while i < keys.len()
        invariant
            kv == views(keys@),
            strictly_sorted(kv),
            i <= keys@.len(),
            strictly_sorted(diff_keys(diffs@)),
            forall|q: int| 0 <= q < diffs@.len() ==> exists|j: int| 0 <= j < i && #[trigger] diff_keys(diffs@)[q] == kv[j],
            forall|y: Seq<char>| #[trigger] diff_keys(diffs@).contains(y) <==> (exists|j: int| 0 <= j < i && kv[j] == y
                && opt_view(lookup_value(ma.metadata@, y)) != opt_view(lookup_value(mb.metadata@, y))),
            forall|q: int| 0 <= q < diffs@.len() ==> {
                &&& opt_view((#[trigger] diffs@[q]).old_value) == opt_view(lookup_value(ma.metadata@, diffs@[q].key@))
                &&& opt_view(diffs@[q].new_value) == opt_view(lookup_value(mb.metadata@, diffs@[q].key@))
            },
        decreases keys@.len() - i,
    {
        let key = &keys[i];
        let va = ma.get_metadata(key);
        let vb = mb.get_metadata(key);
        let same = match (va, vb) {
            (Some(x), Some(y)) => *x == *y,
            (None, None) => true,
            _ => false,
        };
        let ghost d0 = diffs@;
        proof {
            assert(kv[i as int] == key@);
        }
        if !same {
            let d = MetadataDiff { key: key.clone(), old_value: clone_opt(va), new_value: clone_opt(vb) };
            diffs.push(d);
            proof {
                assert(diff_keys(diffs@) =~= diff_keys(d0).push(key@));
                assert forall|q1: int, q2: int| 0 <= q1 < q2 < diff_keys(diffs@).len() implies lex_lt(#[trigger] diff_keys(diffs@)[q1], #[trigger] diff_keys(diffs@)[q2]) by {
                    if q2 == d0.len() {
                        let j = choose|j: int| 0 <= j < i && #[trigger] diff_keys(d0)[q1] == kv[j];
                        assert(lex_lt(kv[j], kv[i as int]));
                    } else {
                        assert(lex_lt(diff_keys(d0)[q1], diff_keys(d0)[q2]));
                    }
                }
                assert forall|q: int| 0 <= q < diffs@.len() implies exists|j: int| 0 <= j < i + 1 && #[trigger] diff_keys(diffs@)[q] == kv[j] by {
                    if q < d0.len() {
                        let j = choose|j: int| 0 <= j < i && #[trigger] diff_keys(d0)[q] == kv[j];
                        assert(diff_keys(diffs@)[q] == kv[j]);
                    } else {
                        assert(diff_keys(diffs@)[q] == kv[i as int]);
                    }
                }
            }
        }
        proof {
            assert forall|y: Seq<char>| #[trigger] diff_keys(diffs@).contains(y) <==> (exists|j: int| 0 <= j < i + 1 && kv[j] == y
                && opt_view(lookup_value(ma.metadata@, y)) != opt_view(lookup_value(mb.metadata@, y))) by {
                if diff_keys(diffs@).contains(y) {
                    let q = choose|q: int| 0 <= q < diff_keys(diffs@).len() && diff_keys(diffs@)[q] == y;
                    if q < d0.len() {
                        assert(diff_keys(d0)[q] == y);
                        assert(diff_keys(d0).contains(y));
                    } else {
                        assert(y == kv[i as int]);
                    }
                }
                if exists|j: int| 0 <= j < i + 1 && kv[j] == y && opt_view(lookup_value(ma.metadata@, y)) != opt_view(lookup_value(mb.metadata@, y)) {
                    let j = choose|j: int| 0 <= j < i + 1 && kv[j] == y && opt_view(lookup_value(ma.metadata@, y)) != opt_view(lookup_value(mb.metadata@, y));
                    if j < i {
                        assert(diff_keys(d0).contains(y));
                        let q = choose|q: int| 0 <= q < diff_keys(d0).len() && diff_keys(d0)[q] == y;
                        assert(diff_keys(diffs@)[q] == y);
                    } else {
                        assert(!same);
                        assert(diff_keys(diffs@)[diffs@.len() - 1] == y);
                    }
                }
            }
        }
        i = i + 1;
    }
    proof {
        assert forall|y: Seq<char>| #[trigger] diff_keys(diffs@).contains(y) <==> opt_view(lookup_value(ma.metadata@, y)) != opt_view(lookup_value(mb.metadata@, y)) by {
            if opt_view(lookup_value(ma.metadata@, y)) != opt_view(lookup_value(mb.metadata@, y)) {
                lemma_lookup_found(ma.metadata@, y);
                lemma_lookup_found(mb.metadata@, y);
                assert(kv.contains(y));
                let j = choose|j: int| 0 <= j < kv.len() && kv[j] == y;
                assert(0 <= j < keys@.len() && kv[j] == y);
            }
        }
    }
    diffs
}

/// The resource differences as values.
pub open spec fn resource_views(diffs: Seq<ResourceDiff>) -> Seq<DiffView> {
    diffs.map_values(|d: ResourceDiff| resource_diff_view(d))
}

/// The build differences as values.
pub open spec fn build_views(diffs: Seq<BuildDiff>) -> Seq<DiffView> {
    diffs.map_values(|d: BuildDiff| build_diff_view(d))
}

fn type_string(g: &Geometry) -> (s: String)
    ensures
        s@ == geometry_type_name(*g),
{
    String::from_str(get_geometry_type_name(g))
}

fn old_object_diff(o: &Object, rb: &ResourceCollection, diffs: &mut Vec<ResourceDiff>)
    ensures
        resource_views(final(diffs)@) == resource_views(old(diffs)@) + old_object_diffs(*o, *rb),
{
    let ghost d0 = diffs@;
    match rb.get_object(o.id) {
        Some(ob) => {
            let ta = get_geometry_type_name(&o.geometry);
            let tb = get_geometry_type_name(&ob.geometry);
            let same_type = match (&o.geometry, &ob.geometry) {
                (Geometry::Mesh(_), Geometry::Mesh(_)) => true,
                (Geometry::Components(_), Geometry::Components(_)) => true,
                (Geometry::SliceStack(_), Geometry::SliceStack(_)) => true,
                (Geometry::VolumetricStack(_), Geometry::VolumetricStack(_)) => true,
                (Geometry::BooleanShape(_), Geometry::BooleanShape(_)) => true,
                (Geometry::DisplacementMesh(_), Geometry::DisplacementMesh(_)) => true,
                _ => false,
            };
            if !same_type {
                let mut m = String::from_str("Type changed: ");
                m.append(ta);
                m.append(" -> ");
                m.append(tb);
                let mut details: Vec<String> = Vec::new();
                details.push(m);
                diffs.push(ResourceDiff::Changed { id: o.id.0, details });
                proof {
                    assert(views(details@) =~= seq!["Type changed: "@ + geometry_type_name(o.geometry) + " -> "@ + geometry_type_name(ob.geometry)]);
                    assert(resource_views(diffs@) =~= resource_views(d0).push(resource_diff_view(diffs@.last())));
                    assert(old_object_diffs(*o, *rb) =~= seq![resource_diff_view(diffs@.last())]);
                }
            } else {
                match (&o.geometry, &ob.geometry) {
                    (Geometry::Mesh(ma), Geometry::Mesh(mb)) => {
                        let mut details: Vec<String> = Vec::new();
                        if ma.vertices.len() != mb.vertices.len() {
                            let mut m = String::new();
                            append_num(&mut m, "Vertex count changed: ", ma.vertices.len() as u64);
                            append_num(&mut m, " -> ", mb.vertices.len() as u64);
                            details.push(m);
                        }
                        let ghost det1 = views(details@);
                        if ma.triangles.len() != mb.triangles.len() {
                            let mut m = String::new();
                            append_num(&mut m, "Triangle count changed: ", ma.triangles.len() as u64);
                            append_num(&mut m, " -> ", mb.triangles.len() as u64);
                            details.push(m);
                        }
                        proof {
                            let nva = ma.vertices@.len();
                            let nvb = mb.vertices@.len();
                            let nta = ma.triangles@.len();
                            let ntb = mb.triangles@.len();
                            let e1: Seq<Seq<char>> = if nva != nvb { seq!["Vertex count changed: "@ + decimal(nva) + " -> "@ + decimal(nvb)] } else { Seq::empty() };
                            let e2: Seq<Seq<char>> = if nta != ntb { seq!["Triangle count changed: "@ + decimal(nta) + " -> "@ + decimal(ntb)] } else { Seq::empty() };
                            assert(det1 =~= e1);
                            assert(views(details@) =~= e1 + e2);
                            assert(views(details@) =~= mesh_change_details(nva, nvb, nta, ntb));
                        }
                        if details.len() > 0 {
                            diffs.push(ResourceDiff::Changed { id: o.id.0, details });
                            proof {
                                assert(resource_views(diffs@) =~= resource_views(d0).push(resource_diff_view(diffs@.last())));
                            }
                        } else {
                            proof {
                                assert(old_object_diffs(*o, *rb) =~= Seq::empty());
                                assert(resource_views(diffs@) =~= resource_views(d0) + Seq::empty());
                            }
                        }
                    },
                    _ => {
                        proof {
                            assert(resource_views(diffs@) =~= resource_views(d0) + Seq::empty());
                        }
                    },
                }
            }
        },
        None => {
            let t = type_string(&o.geometry);
            diffs.push(ResourceDiff::Removed { id: o.id.0, geometry_type: t });
            proof {
                assert(resource_views(diffs@) =~= resource_views(d0).push(resource_diff_view(diffs@.last())));
                assert(old_object_diffs(*o, *rb) =~= seq![resource_diff_view(diffs@.last())]);
            }
        },
    }
}

fn compare_resources(ma: &Model, mb: &Model) -> (diffs: Vec<ResourceDiff>)
    ensures
        resource_views(diffs@) == resource_diff_views(*ma, *mb),
{
    let ra = &ma.resources;
    let rb = &mb.resources;
    let oa = ra.iter_objects();
    let ob = rb.iter_objects();
    let mut diffs: Vec<ResourceDiff> = Vec::new();
    let ghost f = |k: int| old_object_diffs(ra.objects()[k], *rb);
    let ghost g = |k: int| new_object_diffs(rb.objects()[k], *ra);
    proof {
        assert(resource_views(diffs@) =~= concat_views(0, f));
    }
    let mut i: usize = 0;
    while i < oa.len()
        invariant
            oa@ == ra.objects(),
            i <= oa@.len(),
            f == (|k: int| old_object_diffs(ra.objects()[k], *rb)),
            resource_views(diffs@) == concat_views(i as nat, f),
        decreases oa@.len() - i,
    {
        old_object_diff(&oa[i], rb, &mut diffs);
        i = i + 1;
    }
    let ghost first = resource_views(diffs@);
    proof {
        assert(first + concat_views(0, g) =~= first);
    }
    let mut j: usize = 0;
    while j < ob.len()
        invariant
            ob@ == rb.objects(),
            j <= ob@.len(),
            g == (|k: int| new_object_diffs(rb.objects()[k], *ra)),
            resource_views(diffs@) == first + concat_views(j as nat, g),
        decreases ob@.len() - j,
    {
        let ghost d0 = diffs@;
        let o = &ob[j];
        if !ra.id_exists(o.id) {
            let t = type_string(&o.geometry);
            diffs.push(ResourceDiff::Added { id: o.id.0, geometry_type: t });
            proof {
                assert(resource_views(diffs@) =~= resource_views(d0).push(resource_diff_view(diffs@.last())));
                assert(g(j as int) =~= seq![resource_diff_view(diffs@.last())]);
                assert(first + concat_views(j as nat + 1, g) =~= first + concat_views(j as nat, g) + g(j as int));
            }
        } else {
            proof {
                assert(g(j as int) =~= Seq::empty());
                assert(first + concat_views(j as nat + 1, g) =~= first + concat_views(j as nat, g));
            }
        }
        j = j + 1;
    }
    diffs
}

/// Compares two models: metadata by key, object resources by ID, and the build item count.
pub fn compare_models(model_a: &Model, model_b: &Model) -> (diff: ModelDiff)
    ensures
        metadata_diffs_ok(diff.metadata_diffs@, model_a.metadata@, model_b.metadata@),
        resource_views(diff.resource_diffs@) == resource_diff_views(*model_a, *model_b),
        build_views(diff.build_diffs@) == build_diff_views(*model_a, *model_b),
{
    let metadata_diffs = compare_metadata(model_a, model_b);
    let resource_diffs = compare_resources(model_a, model_b);
    let mut build_diffs: Vec<BuildDiff> = Vec::new();
    let na = model_a.build.items.len();
    let nb = model_b.build.items.len();
    if na != nb {
        let mut m = String::new();
        append_num(&mut m, "Item count changed: ", na as u64);
        append_num(&mut m, " -> ", nb as u64);
        let mut details: Vec<String> = Vec::new();
        details.push(m);
        build_diffs.push(BuildDiff::Changed { object_id: 0, details });
        proof {
            assert(views(details@) =~= seq!["Item count changed: "@ + decimal(na as nat) + " -> "@ + decimal(nb as nat)]);
            assert(build_views(build_diffs@) =~= build_diff_views(*model_a, *model_b));
        }
    } else {
        proof {
            assert(build_views(build_diffs@) =~= build_diff_views(*model_a, *model_b));
        }
    }
    ModelDiff { metadata_diffs, resource_diffs, build_diffs }
}


// ---------------------------------------------------------------- comparing a model with itself

/// Two elements with one ID count twice.
proof fn lemma_count_two<T: Identified>(s: Seq<T>, i: int, j: int, id: u32)
    requires
        0 <= i < j < s.len(),
        s[i].rid() == id,
        s[j].rid() == id,
    ensures
        count_id(s, id) >= 2,
    decreases s.len(),
{
    let t = s.drop_last();
    if j == s.len() - 1 {
        assert(t[i] == s[i]);
        assert(has_id(t, id));
        lemma_count_id_has(t, id);
    } else {
        assert(t[i] == s[i] && t[j] == s[j]);
        lemma_count_two(t, i, j, id);
    }
}

/// With IDs used once, looking up an element's ID finds that element.
proof fn lemma_unique_first<T: Identified>(s: Seq<T>, k: int)
    requires
        0 <= k < s.len(),
        count_id(s, s[k].rid()) <= 1,
    ensures
        first_with(s, s[k].rid()) == Some(s[k]),
{
    let id = s[k].rid();
    assert(has_id(s, id));
    lemma_first_with(s, id);
    let x = first_with(s, id)->Some_0;
    let j = choose|j: int| 0 <= j < s.len() && s[j] == x;
    if j < k {
        lemma_count_two(s, j, k, id);
    } else if k < j {
        lemma_count_two(s, k, j, id);
    }
}

proof fn lemma_concat_empty(n: nat, f: spec_fn(int) -> Seq<DiffView>)
    requires
        forall|k: int| 0 <= k < n ==> (#[trigger] f(k)).len() == 0,
    ensures
        concat_views(n, f).len() == 0,
    decreases n,
{
    if n > 0 {
        lemma_concat_empty((n - 1) as nat, f);
        assert(f(n - 1).len() == 0);
    }
}

/// A model compared with itself differs in nothing: no metadata, resource or build
/// differences (its resource IDs being unique, as the registry keeps them).
pub proof fn law_compare_with_itself(m: Model, diffs: Seq<MetadataDiff>)
    requires
        m.resources.unique_ids(),
        metadata_diffs_ok(diffs, m.metadata@, m.metadata@),
    ensures
        diffs.len() == 0,
        resource_diff_views(m, m).len() == 0,
        build_diff_views(m, m).len() == 0,
{
    if diffs.len() > 0 {
        assert(diff_keys(diffs).contains(diff_keys(diffs)[0]));
    }
    let rc = m.resources;
    let objs = rc.objects();
    let f1 = |k: int| old_object_diffs(objs[k], rc);
    let f2 = |k: int| new_object_diffs(objs[k], rc);
    assert forall|k: int| 0 <= k < objs.len() implies (#[trigger] f1(k)).len() == 0 by {
        let id = objs[k].rid();
        assert(rc.id_count(id) <= 1);
        lemma_unique_first(objs, k);
    }
    assert forall|k: int| 0 <= k < objs.len() implies (#[trigger] f2(k)).len() == 0 by {
        assert(has_id(objs, objs[k].rid()));
    }
    lemma_concat_empty(objs.len(), f1);
    lemma_concat_empty(objs.len(), f2);
}

/// The (ID, texts) of the difference records of one kind, in order.
pub open spec fn entries_of_kind(vs: Seq<DiffView>, kind: u8) -> Seq<(u32, Seq<Seq<char>>)>
    decreases vs.len(),
{
    if vs.len() == 0 {
        Seq::empty()
    } else {
        entries_of_kind(vs.drop_last(), kind) + (if vs.last().0 == kind {
            seq![(vs.last().1, vs.last().2)]
        } else {
            Seq::empty()
        })
    }
}

proof fn lemma_entries_add(x: Seq<DiffView>, y: Seq<DiffView>, kind: u8)
    ensures
        entries_of_kind(x + y, kind) == entries_of_kind(x, kind) + entries_of_kind(y, kind),
    decreases y.len(),
{
    if y.len() == 0 {
        assert(x + y =~= x);
    } else {
        lemma_entries_add(x, y.drop_last(), kind);
        assert((x + y).drop_last() =~= x + y.drop_last());
        assert((x + y).last() == y.last());
    }
}

proof fn lemma_entries_concat(n: nat, f: spec_fn(int) -> Seq<DiffView>, k1: u8, g: spec_fn(int) -> Seq<DiffView>, k2: u8)
    requires
        forall|i: int| 0 <= i < n ==> entries_of_kind(#[trigger] f(i), k1) == entries_of_kind(g(i), k2),
    ensures
        entries_of_kind(concat_views(n, f), k1) == entries_of_kind(concat_views(n, g), k2),
    decreases n,
{
    if n > 0 {
        lemma_entries_concat((n - 1) as nat, f, k1, g, k2);
        lemma_entries_add(concat_views((n - 1) as nat, f), f(n - 1), k1);
        lemma_entries_add(concat_views((n - 1) as nat, g), g(n - 1), k2);
    }
}

proof fn lemma_entries_none(n: nat, f: spec_fn(int) -> Seq<DiffView>, kind: u8)
    requires
        forall|i: int| 0 <= i < n ==> entries_of_kind(#[trigger] f(i), kind).len() == 0,
    ensures
        entries_of_kind(concat_views(n, f), kind).len() == 0,
    decreases n,
{
    if n > 0 {
        lemma_entries_none((n - 1) as nat, f, kind);
        lemma_entries_add(concat_views((n - 1) as nat, f), f(n - 1), kind);
    }
}

proof fn lemma_entries_single(d: DiffView, kind: u8)
    ensures
        entries_of_kind(seq![d], kind) == (if d.0 == kind { seq![(d.1, d.2)] } else { Seq::empty() }),
{
    assert(seq![d].drop_last() =~= Seq::<DiffView>::empty());
    assert(entries_of_kind(Seq::<DiffView>::empty(), kind) == Seq::<(u32, Seq<Seq<char>>)>::empty());
    let tail: Seq<(u32, Seq<Seq<char>>)> = if d.0 == kind { seq![(d.1, d.2)] } else { Seq::empty() };
    assert(Seq::<(u32, Seq<Seq<char>>)>::empty() + tail =~= tail);
}

/// What one comparison reports as added, the reverse comparison reports as removed: the
/// objects of the second model whose IDs the first model lacks, with their type names, in
/// the order of the second model (where no object ID of the second model names another
/// kind of resource in the first).
pub proof fn law_added_mirrors_removed(a: Model, b: Model)
    requires
        forall|k: int| 0 <= k < b.resources.objects().len() ==>
            (a.resources.spec_exists(#[trigger] b.resources.objects()[k].id.0) ==> has_id(a.resources.objects(), b.resources.objects()[k].id.0)),
    ensures
        entries_of_kind(resource_diff_views(a, b), 0) == entries_of_kind(resource_diff_views(b, a), 1),
{
    let oa = a.resources.objects();
    let ob = b.resources.objects();
    let a1 = |k: int| old_object_diffs(oa[k], b.resources);
    let a2 = |k: int| new_object_diffs(ob[k], a.resources);
    let b1 = |k: int| old_object_diffs(ob[k], a.resources);
    let b2 = |k: int| new_object_diffs(oa[k], b.resources);
    assert forall|i: int| 0 <= i < oa.len() implies entries_of_kind(#[trigger] a1(i), 0).len() == 0 by {
        let o = oa[i];
        lemma_entries_single((1u8, o.id.0, seq![geometry_type_name(o.geometry)]), 0);
        match first_with(b.resources.objects(), o.id.0) {
            Some(x) => {
                let tb = geometry_type_name(x.geometry);
                lemma_entries_single((2u8, o.id.0, seq!["Type changed: "@ + geometry_type_name(o.geometry) + " -> "@ + tb]), 0);
                match (o.geometry, x.geometry) {
                    (Geometry::Mesh(ma), Geometry::Mesh(mb)) => {
                        let d = mesh_change_details(ma.vertices@.len(), mb.vertices@.len(), ma.triangles@.len(), mb.triangles@.len());
                        lemma_entries_single((2u8, o.id.0, d), 0);
                    },
                    _ => {},
                }
            },
            None => {},
        }
    }
    assert forall|i: int| 0 <= i < oa.len() implies entries_of_kind(#[trigger] b2(i), 1).len() == 0 by {
        lemma_entries_single((0u8, oa[i].id.0, seq![geometry_type_name(oa[i].geometry)]), 1);
    }
    assert forall|i: int| 0 <= i < ob.len() implies entries_of_kind(#[trigger] a2(i), 0) == entries_of_kind(b1(i), 1) by {
        let o = ob[i];
        lemma_first_with(oa, o.id.0);
        lemma_entries_single((0u8, o.id.0, seq![geometry_type_name(o.geometry)]), 0);
        lemma_entries_single((1u8, o.id.0, seq![geometry_type_name(o.geometry)]), 1);
        if has_id(oa, o.id.0) {
            assert(a.resources.spec_exists(o.id.0));
            match first_with(oa, o.id.0) {
                Some(x) => {
                    let tb = geometry_type_name(x.geometry);
                    lemma_entries_single((2u8, o.id.0, seq!["Type changed: "@ + geometry_type_name(o.geometry) + " -> "@ + tb]), 1);
                    match (o.geometry, x.geometry) {
                        (Geometry::Mesh(ma), Geometry::Mesh(mb)) => {
                            let d = mesh_change_details(ma.vertices@.len(), mb.vertices@.len(), ma.triangles@.len(), mb.triangles@.len());
                            lemma_entries_single((2u8, o.id.0, d), 1);
                        },
                        _ => {},
                    }
                },
                None => {},
            }
        }
    }
    lemma_entries_none(oa.len(), a1, 0);
    lemma_entries_none(oa.len(), b2, 1);
    lemma_entries_concat(ob.len(), a2, 0, b1, 1);
    lemma_entries_add(concat_views(oa.len(), a1), concat_views(ob.len(), a2), 0);
    lemma_entries_add(concat_views(ob.len(), b1), concat_views(oa.len(), b2), 1);
    assert(entries_of_kind(resource_diff_views(a, b), 0) =~= entries_of_kind(concat_views(ob.len(), a2), 0));
    assert(entries_of_kind(resource_diff_views(b, a), 1) =~= entries_of_kind(concat_views(ob.len(), b1), 1));
}

/// A record of one part of a concatenation is a record of the whole.
proof fn lemma_concat_views_contains(n: nat, f: spec_fn(int) -> Seq<DiffView>, k: int, x: DiffView)
    requires
        0 <= k < n,
        f(k).contains(x),
    ensures
        concat_views(n, f).contains(x),
    decreases n,
{
    let j = choose|j: int| 0 <= j < f(k).len() && #[trigger] f(k)[j] == x;
    let pre = concat_views((n - 1) as nat, f);
    if k == n - 1 {
        assert((pre + f(k))[pre.len() + j] == x);
    } else {
        lemma_concat_views_contains((n - 1) as nat, f, k, x);
        let i = choose|i: int| 0 <= i < pre.len() && pre[i] == x;
        assert((pre + f(n - 1))[i] == x);
    }
}

/// When a mesh object of the first model and the mesh object the second model holds under
/// the same ID (its first) differ in their number of triangles, the comparison records that
/// object as changed, with the detail "Triangle count changed: `a` -> `b`", whatever their
/// vertex counts.
pub proof fn law_triangle_count_change_recorded(a: Model, b: Model, diffs: Seq<ResourceDiff>, k: int)
    requires
        resource_views(diffs) == resource_diff_views(a, b),
        0 <= k < a.resources.objects().len(),
        a.resources.objects()[k].geometry matches Geometry::Mesh(ma)
            && first_with(b.resources.objects(), a.resources.objects()[k].id.0) matches Some(ob)
            && ob.geometry matches Geometry::Mesh(mb)
            && ma.triangles@.len() != mb.triangles@.len(),
    ensures
        exists|j: int| 0 <= j < diffs.len() && ((#[trigger] diffs[j]) matches ResourceDiff::Changed { id, details }
            && id == a.resources.objects()[k].id.0
            && views(details@).contains(({
                let ma = a.resources.objects()[k].geometry->Mesh_0;
                let mb = first_with(b.resources.objects(), a.resources.objects()[k].id.0)->Some_0.geometry->Mesh_0;
                "Triangle count changed: "@ + decimal(ma.triangles@.len()) + " -> "@ + decimal(mb.triangles@.len())
            }))),
{
    let o = a.resources.objects()[k];
    let ob = first_with(b.resources.objects(), o.id.0)->Some_0;
    let ma = o.geometry->Mesh_0;
    let mb = ob.geometry->Mesh_0;
    let msg = "Triangle count changed: "@ + decimal(ma.triangles@.len()) + " -> "@ + decimal(mb.triangles@.len());
    let d = mesh_change_details(ma.vertices@.len(), mb.vertices@.len(), ma.triangles@.len(), mb.triangles@.len());
    let first: Seq<Seq<char>> = if ma.vertices@.len() != mb.vertices@.len() {
        seq!["Vertex count changed: "@ + decimal(ma.vertices@.len()) + " -> "@ + decimal(mb.vertices@.len())]
    } else {
        Seq::empty()
    };
    assert(d == first + seq![msg]);
    assert(d[first.len() as int] == msg);
    assert(d.contains(msg));
    let x: DiffView = (2u8, o.id.0, d);
    assert(old_object_diffs(o, b.resources) == seq![x]);
    let f1 = |i: int| old_object_diffs(a.resources.objects()[i], b.resources);
    assert(f1(k)[0] == x);
    lemma_concat_views_contains(a.resources.objects().len(), f1, k, x);
    let c1 = concat_views(a.resources.objects().len(), f1);
    let c2 = concat_views(b.resources.objects().len(), |i: int| new_object_diffs(b.resources.objects()[i], a.resources));
    let i1 = choose|i: int| 0 <= i < c1.len() && c1[i] == x;
    assert(resource_diff_views(a, b) == c1 + c2);
    assert((c1 + c2)[i1] == x);
    let rv = resource_views(diffs);
    assert(rv.len() == diffs.len());
    assert(0 <= i1 < diffs.len());
    assert(rv[i1] == x);
    assert(rv[i1] == resource_diff_view(diffs[i1]));
    match diffs[i1] {
        ResourceDiff::Changed { id, details } => {
            assert(views(details@) == d);
            assert(id == o.id.0);
        },
        ResourceDiff::Added { id, geometry_type } => {
            assert(resource_diff_view(diffs[i1]).0 == 0u8);
        },
        ResourceDiff::Removed { id, geometry_type } => {
            assert(resource_diff_view(diffs[i1]).0 == 1u8);
        },
    }
}

/// When a mesh object of the first model and the mesh object the second model holds under
/// the same ID (its first) differ in their number of vertices, the comparison records that
/// object as changed, with the detail "Vertex count changed: `a` -> `b`", whatever their
/// triangle counts.
pub proof fn law_vertex_count_change_recorded(a: Model, b: Model, diffs: Seq<ResourceDiff>, k: int)
    requires
        resource_views(diffs) == resource_diff_views(a, b),
        0 <= k < a.resources.objects().len(),
        a.resources.objects()[k].geometry matches Geometry::Mesh(ma)
            && first_with(b.resources.objects(), a.resources.objects()[k].id.0) matches Some(ob)
            && ob.geometry matches Geometry::Mesh(mb)
            && ma.vertices@.len() != mb.vertices@.len(),
    ensures
        exists|j: int| 0 <= j < diffs.len() && ((#[trigger] diffs[j]) matches ResourceDiff::Changed { id, details }
            && id == a.resources.objects()[k].id.0
            && views(details@).contains(({
                let ma = a.resources.objects()[k].geometry->Mesh_0;
                let mb = first_with(b.resources.objects(), a.resources.objects()[k].id.0)->Some_0.geometry->Mesh_0;
                "Vertex count changed: "@ + decimal(ma.vertices@.len()) + " -> "@ + decimal(mb.vertices@.len())
            }))),
{
    let o = a.resources.objects()[k];
    let ob = first_with(b.resources.objects(), o.id.0)->Some_0;
    let ma = o.geometry->Mesh_0;
    let mb = ob.geometry->Mesh_0;
    let msg = "Vertex count changed: "@ + decimal(ma.vertices@.len()) + " -> "@ + decimal(mb.vertices@.len());
    let d = mesh_change_details(ma.vertices@.len(), mb.vertices@.len(), ma.triangles@.len(), mb.triangles@.len());
    let second: Seq<Seq<char>> = if ma.triangles@.len() != mb.triangles@.len() {
        seq!["Triangle count changed: "@ + decimal(ma.triangles@.len()) + " -> "@ + decimal(mb.triangles@.len())]
    } else {
        Seq::empty()
    };
    assert(d == seq![msg] + second);
    assert(d[0] == msg);
    assert(d.contains(msg));
    let x: DiffView = (2u8, o.id.0, d);
    assert(old_object_diffs(o, b.resources) == seq![x]);
    let f1 = |i: int| old_object_diffs(a.resources.objects()[i], b.resources);
    assert(f1(k)[0] == x);
    lemma_concat_views_contains(a.resources.objects().len(), f1, k, x);
    let c1 = concat_views(a.resources.objects().len(), f1);
    let c2 = concat_views(b.resources.objects().len(), |i: int| new_object_diffs(b.resources.objects()[i], a.resources));
    let i1 = choose|i: int| 0 <= i < c1.len() && c1[i] == x;
    assert(resource_diff_views(a, b) == c1 + c2);
    assert((c1 + c2)[i1] == x);
    let rv = resource_views(diffs);
    assert(rv.len() == diffs.len());
    assert(0 <= i1 < diffs.len());
    assert(rv[i1] == x);
    assert(rv[i1] == resource_diff_view(diffs[i1]));
    match diffs[i1] {
        ResourceDiff::Changed { id, details } => {
            assert(views(details@) == d);
            assert(id == o.id.0);
        },
        ResourceDiff::Added { id, geometry_type } => {
            assert(resource_diff_view(diffs[i1]).0 == 0u8);
        },
        ResourceDiff::Removed { id, geometry_type } => {
            assert(resource_diff_view(diffs[i1]).0 == 1u8);
        },
    }
}

/// A record of the first or second part of the resource differences is one of the whole.
proof fn lemma_resource_views_has(diffs: Seq<ResourceDiff>, a: Model, b: Model, x: DiffView)
    requires
        resource_views(diffs) == resource_diff_views(a, b),
        resource_diff_views(a, b).contains(x),
    ensures
        exists|j: int| 0 <= j < diffs.len() && resource_diff_view(#[trigger] diffs[j]) == x,
{
    let rv = resource_views(diffs);
    let j = choose|j: int| 0 <= j < rv.len() && rv[j] == x;
    assert(rv[j] == resource_diff_view(diffs[j]));
}

/// An object of the first model whose ID names no object in the second is recorded as
/// removed, with its kind of geometry; an object of the second model whose ID names no
/// resource in the first is recorded as added.
pub proof fn law_removed_and_added_recorded(a: Model, b: Model, diffs: Seq<ResourceDiff>, k: int, kb: int)
    requires
        resource_views(diffs) == resource_diff_views(a, b),
    ensures
        0 <= k < a.resources.objects().len() && !has_id(b.resources.objects(), a.resources.objects()[k].id.0)
            ==> exists|j: int| 0 <= j < diffs.len() && ((#[trigger] diffs[j]) matches ResourceDiff::Removed { id, geometry_type }
                && id == a.resources.objects()[k].id.0
                && geometry_type@ == geometry_type_name(a.resources.objects()[k].geometry)),
        0 <= kb < b.resources.objects().len() && !a.resources.spec_exists(b.resources.objects()[kb].id.0)
            ==> exists|j: int| 0 <= j < diffs.len() && ((#[trigger] diffs[j]) matches ResourceDiff::Added { id, geometry_type }
                && id == b.resources.objects()[kb].id.0
                && geometry_type@ == geometry_type_name(b.resources.objects()[kb].geometry)),
{
    let oa = a.resources.objects();
    let ob = b.resources.objects();
    let f1 = |i: int| old_object_diffs(oa[i], b.resources);
    let f2 = |i: int| new_object_diffs(ob[i], a.resources);
    let c1 = concat_views(oa.len(), f1);
    let c2 = concat_views(ob.len(), f2);
    assert(resource_diff_views(a, b) == c1 + c2);
    if 0 <= k < oa.len() && !has_id(ob, oa[k].id.0) {
        lemma_first_with(ob, oa[k].id.0);
        let x: DiffView = (1u8, oa[k].id.0, seq![geometry_type_name(oa[k].geometry)]);
        assert(f1(k)[0] == x);
        lemma_concat_views_contains(oa.len(), f1, k, x);
        let i = choose|i: int| 0 <= i < c1.len() && c1[i] == x;
        assert((c1 + c2)[i] == x);
        lemma_resource_views_has(diffs, a, b, x);
        let j = choose|j: int| 0 <= j < diffs.len() && resource_diff_view(#[trigger] diffs[j]) == x;
        let d = diffs[j];
        assert(resource_diff_view(d).0 == 1u8);
        match d {
            ResourceDiff::Removed { id, geometry_type } => {
                assert(resource_diff_view(d).2[0] == geometry_type@);
                assert(x.2[0] == geometry_type_name(oa[k].geometry));
            },
            _ => {},
        }
        assert(d is Removed);
    }
    if 0 <= kb < ob.len() && !a.resources.spec_exists(ob[kb].id.0) {
        let x: DiffView = (0u8, ob[kb].id.0, seq![geometry_type_name(ob[kb].geometry)]);
        assert(f2(kb)[0] == x);
        lemma_concat_views_contains(ob.len(), f2, kb, x);
        let i = choose|i: int| 0 <= i < c2.len() && c2[i] == x;
        assert((c1 + c2)[c1.len() + i] == x);
        lemma_resource_views_has(diffs, a, b, x);
        let j = choose|j: int| 0 <= j < diffs.len() && resource_diff_view(#[trigger] diffs[j]) == x;
        let d = diffs[j];
        assert(resource_diff_view(d).0 == 0u8);
        match d {
            ResourceDiff::Added { id, geometry_type } => {
                assert(resource_diff_view(d).2[0] == geometry_type@);
                assert(x.2[0] == geometry_type_name(ob[kb].geometry));
            },
            _ => {},
        }
        assert(d is Added);
    }
}

} // verus!
