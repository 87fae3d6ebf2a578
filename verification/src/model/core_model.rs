//! The root of a 3MF document.

use vstd::prelude::*;
use crate::archive::opc::Relationship;
use crate::model::build_section::Build;
use crate::model::resources::ResourceCollection;
use crate::model::units::Unit;
use crate::model::mesh::Geometry;
use crate::text::decimal;
use crate::validation::displacement::{displacement_findings, lemma_displacement_levels, lengths_fit, validate_displacement};
use crate::validation::geometry::{geometry_inputs_ok, mesh_object_findings, validate_geometry, MeshMeasures};
use crate::validation::report::{
    appended, findings_within, is_finding, lemma_appended_has, lemma_concat_upto_contains, ValidationItem, ValidationSeverity, lemma_appended_none, lemma_appended_trans, lemma_within_gate, lemma_within_join, Finding,
    ValidationReport,
};
use crate::validation::schema::validate_schema;
use crate::validation::semantic::{
    build_reference_findings, cycle_findings_ok, geometry_findings, object_findings, triangle_findings, has_boolean_cycle, component_cycle_findings_ok, has_component_cycle, material_findings, metadata_findings,
    objects_findings, validate_semantic,
};
use crate::validation::{level_rank, ValidationLevel};

verus! {

/// Root element of a 3MF document: resources, build, metadata and attachments.
#[derive(Debug, Clone)]
pub struct Model {
    /// Unit of the coordinates.
    pub unit: Unit,
    /// Language of the content.
    pub language: Option<String>,
    /// Metadata entries (name, value); names are kept unique by `insert_metadata`.
    pub metadata: Vec<(String, String)>,
    /// All resources.
    pub resources: ResourceCollection,
    /// The build section.
    pub build: Build,
    /// Binary attachments by package path.
    pub attachments: Vec<(String, Vec<u8>)>,
    /// OPC relationships read from the archive, by relationship file path.
    pub existing_relationships: Vec<(String, Vec<Relationship>)>,
}

/// The value stored under `key` in a list of (name, value) pairs: the first match.
pub open spec fn lookup_value(s: Seq<(String, String)>, key: Seq<char>) -> Option<String>
    decreases s.len(),
{
    if s.len() == 0 {
        None
    } else if s[0].0@ == key {
        Some(s[0].1)
    } else {
        lookup_value(s.drop_first(), key)
    }
}

/// The metadata names, in order.
pub open spec fn metadata_names(s: Seq<(String, String)>) -> Seq<Seq<char>> {
    s.map_values(|p: (String, String)| p.0@)
}

/// Index of the first pair named `key`.
fn find_key(s: &Vec<(String, String)>, key: &String) -> (r: Option<usize>)
    ensures
        match r {
            Some(i) => i < s@.len() && s@[i as int].0@ == key@
                && lookup_value(s@, key@) == Some(s@[i as int].1)
                && forall|j: int| 0 <= j < i ==> s@[j].0@ != key@,
            None => lookup_value(s@, key@) is None && forall|j: int| 0 <= j < s@.len() ==> s@[j].0@ != key@,
        },
{
    let mut i: usize = 0;
    assert(s@.skip(0) =~= s@);
    while i < s.len()
        invariant
            i <= s@.len(),
            lookup_value(s@, key@) == lookup_value(s@.skip(i as int), key@),
            forall|j: int| 0 <= j < i ==> s@[j].0@ != key@,
        decreases s@.len() - i,
    {
        proof {
            assert(s@.skip(i as int).drop_first() =~= s@.skip(i + 1));
            assert(s@.skip(i as int)[0] == s@[i as int]);
        }
        if s[i].0 == *key {
            return Some(i);
        }
        i = i + 1;
    }
    None
}

impl Model {
    /// Sets the metadata entry `name` to `value`, replacing an existing entry of that name.
    pub fn insert_metadata(&mut self, name: String, value: String)
        ensures
            lookup_value(final(self).metadata@, name@) == Some(value),
            forall|k: Seq<char>| k != name@ ==> lookup_value(final(self).metadata@, k)
                == lookup_value(old(self).metadata@, k),
            metadata_names(old(self).metadata@).no_duplicates()
                ==> metadata_names(final(self).metadata@).no_duplicates(),
            final(self).unit == old(self).unit,
            final(self).language == old(self).language,
            final(self).resources == old(self).resources,
            final(self).build == old(self).build,
            final(self).attachments == old(self).attachments,
            final(self).existing_relationships == old(self).existing_relationships,
    {
        let ghost old_md = self.metadata@;
        match find_key(&self.metadata, &name) {
            Some(i) => {
                let key = self.metadata[i].0.clone();
                self.metadata.set(i, (key, value));
                proof {
                    lemma_lookup_update(old_md, i as int, (key, value));
                    assert(metadata_names(self.metadata@) =~= metadata_names(old_md));
                }
            },
            None => {
                self.metadata.push((name, value));
                proof {
                    lemma_lookup_push(old_md, (name, value));
                    assert(metadata_names(self.metadata@) =~= metadata_names(old_md).push(name@));
                    assert(!metadata_names(old_md).contains(name@)) by {
                        if metadata_names(old_md).contains(name@) {
                            let j = choose|j: int| 0 <= j < metadata_names(old_md).len() && metadata_names(old_md)[j] == name@;
                            assert(old_md[j].0@ == name@);
                        }
                    }
                }
            },
        }
    }

    /// The metadata value named `name`, if any.
    pub fn get_metadata(&self, name: &String) -> (r: Option<&String>)
        ensures
            match r {
                Some(v) => lookup_value(self.metadata@, name@) == Some(*v),
                None => lookup_value(self.metadata@, name@) is None,
            },
    {
        match find_key(&self.metadata, name) {
            Some(i) => Some(&self.metadata[i].1),
            None => None,
        }
    }
}

/// Replacing the value of the first pair with a given name changes only that name's value.
proof fn lemma_lookup_update(s: Seq<(String, String)>, i: int, p: (String, String))
    requires
        0 <= i < s.len(),
        p.0@ == s[i].0@,
        forall|j: int| 0 <= j < i ==> s[j].0@ != p.0@,
    ensures
        lookup_value(s.update(i, p), p.0@) == Some(p.1),
        forall|k: Seq<char>| k != p.0@ ==> lookup_value(s.update(i, p), k) == lookup_value(s, k),
    decreases s.len(),
{
    let t = s.update(i, p);
    assert(t[0] == (if i == 0 { p } else { s[0] }));
    if i == 0 {
        assert(t.drop_first() =~= s.drop_first());
        assert forall|k: Seq<char>| k != p.0@ implies lookup_value(t, k) == lookup_value(s, k) by {
            assert(t[0].0@ != k);
            assert(s[0].0@ != k);
        }
    } else {
        assert(t.drop_first() =~= s.drop_first().update(i - 1, p));
        lemma_lookup_update(s.drop_first(), i - 1, p);
        assert(s[0].0@ != p.0@);
        assert forall|k: Seq<char>| k != p.0@ implies lookup_value(t, k) == lookup_value(s, k) by {
            if s[0].0@ != k {
                assert(lookup_value(t.drop_first(), k) == lookup_value(s.drop_first(), k));
            }
        }
    }
}

/// Appending a pair with a new name adds exactly that name.
proof fn lemma_lookup_push(s: Seq<(String, String)>, p: (String, String))
    requires
        lookup_value(s, p.0@) is None,
    ensures
        lookup_value(s.push(p), p.0@) == Some(p.1),
        forall|k: Seq<char>| k != p.0@ ==> lookup_value(s.push(p), k) == lookup_value(s, k),
    decreases s.len(),
{
    let t = s.push(p);
    if s.len() == 0 {
        let e = t.drop_first();
        assert(e.len() == 0);
        assert(t[0] == p);
        assert forall|k: Seq<char>| k != p.0@ implies lookup_value(t, k) == lookup_value(s, k) by {
            assert(lookup_value(e, k) is None);
        }
    } else {
        assert(t.drop_first() =~= s.drop_first().push(p));
        assert(t[0] == s[0]);
        assert(s[0].0@ != p.0@);
        lemma_lookup_push(s.drop_first(), p);
        assert forall|k: Seq<char>| k != p.0@ implies lookup_value(t, k) == lookup_value(s, k) by {
            if s[0].0@ != k {
                assert(lookup_value(t.drop_first(), k) == lookup_value(s.drop_first(), k));
            }
        }
    }
}

impl Default for Model {
    fn default() -> (m: Self)
        ensures
            m.unit == Unit::Millimeter,
            m.language is None,
            m.metadata@.len() == 0,
            forall|id: u32| !m.resources.spec_exists(id),
            m.resources.unique_ids(),
            m.build.items@.len() == 0,
            m.attachments@.len() == 0,
            m.existing_relationships@.len() == 0,
    {
        Model {
            unit: Unit::Millimeter,
            language: None,
            metadata: Vec::new(),
            resources: ResourceCollection::new(),
            build: Build::default(),
            attachments: Vec::new(),
            existing_relationships: Vec::new(),
        }
    }
}

/// The findings of a validation run at a level of the given rank, given the findings `cf` of
/// the boolean cycle search and `cc` of the component cycle search.
pub open spec fn validation_findings(m: Model, rank: nat, cf: Seq<Finding>, cc: Seq<Finding>, measures: Seq<MeshMeasures>, lengths: Seq<Vec<Option<String>>>) -> Seq<Finding> {
    (if rank >= 1 {
        build_reference_findings(m) + cf + cc + material_findings(m) + metadata_findings(m) + objects_findings(m.resources)
    } else {
        Seq::empty()
    }) + displacement_findings(m, rank, lengths) + (if rank >= 3 {
        mesh_object_findings(m.resources.objects(), true, measures)
    } else {
        Seq::empty()
    })
}

impl Model {
    /// Validates the model at the given level: reference integrity (boolean and component
    /// references free of cycles among them) from Standard on,
    /// displacement checks at every level, geometry at Paranoid. Strict runs the checks of
    /// Standard and adds none of its own. Floating-point results
    /// come from the caller: `measures` per object for meshes, `lengths` per object for
    /// the normals of displacement meshes.
    pub fn validate(&self, level: ValidationLevel, measures: &Vec<MeshMeasures>, lengths: &Vec<Vec<Option<String>>>) -> (report: ValidationReport)
        requires
            level_rank(level) >= 3 ==> geometry_inputs_ok(self.resources.objects(), true, measures@),
            lengths_fit(self.resources.objects(), level_rank(level), lengths@),
        ensures
            exists|cf: Seq<Finding>, cc: Seq<Finding>| #[trigger] appended(Seq::empty(), report.items@,
                validation_findings(*self, level_rank(level), cf, cc, measures@, lengths@))
                && cycle_findings_ok(self.resources.objects(), cf)
                && (level_rank(level) >= 1 && cf.len() > 0 <==> level_rank(level) >= 1 && has_boolean_cycle(self.resources.objects()))
                && component_cycle_findings_ok(self.resources.objects(), cc)
                && (level_rank(level) >= 1 && cc.len() > 0 <==> level_rank(level) >= 1 && has_component_cycle(self.resources.objects())),
    {
        let mut report = ValidationReport::new();
        let ghost s0 = report.items@;
        validate_schema(self, &mut report);
        let ghost mut cf: Seq<Finding> = Seq::empty();
        let ghost mut cc: Seq<Finding> = Seq::empty();
        if level.includes(ValidationLevel::Standard) {
            validate_semantic(self, &mut report);
            proof {
                let (c1, c2) = choose|c1: Seq<Finding>, c2: Seq<Finding>| #[trigger] appended(s0, report.items@,
                    build_reference_findings(*self) + c1 + c2 + material_findings(*self) + metadata_findings(*self)
                        + objects_findings(self.resources))
                    && cycle_findings_ok(self.resources.objects(), c1)
                    && (c1.len() > 0 <==> has_boolean_cycle(self.resources.objects()))
                    && component_cycle_findings_ok(self.resources.objects(), c2)
                    && (c2.len() > 0 <==> has_component_cycle(self.resources.objects()));
                cf = c1;
                cc = c2;
            }
        } else {
            proof {
                lemma_appended_none(s0);
                assert(cycle_findings_ok(self.resources.objects(), cf));
                assert(component_cycle_findings_ok(self.resources.objects(), cc));
            }
        }
        let ghost s1 = report.items@;
        let ghost g0: Seq<Finding> = if level_rank(level) >= 1 {
            build_reference_findings(*self) + cf + cc + material_findings(*self) + metadata_findings(*self) + objects_findings(self.resources)
        } else {
            Seq::empty()
        };
        validate_displacement(self, level, lengths, &mut report);
        let ghost s2 = report.items@;
        if level.includes(ValidationLevel::Paranoid) {
            validate_geometry(self, level, measures, &mut report);
        } else {
            proof { lemma_appended_none(s2); }
        }
        proof {
            let g1 = displacement_findings(*self, level_rank(level), lengths@);
            let g2: Seq<Finding> = if level_rank(level) >= 3 {
                mesh_object_findings(self.resources.objects(), true, measures@)
            } else {
                Seq::empty()
            };
            lemma_appended_trans(s0, s1, s2, g0, g1);
            lemma_appended_trans(s0, s2, report.items@, g0 + g1, g2);
            assert(appended(Seq::empty(), report.items@, validation_findings(*self, level_rank(level), cf, cc, measures@, lengths@)));
        }
        report
    }
}

/// Each level includes the checks of the lower ones: every finding of a validation run at a
/// lower level occurs, at least as many times, in a run at a higher level (with the same
/// results of the cycle searches and of the floating-point measures).
pub proof fn law_levels_nest(
    m: Model,
    r1: nat,
    r2: nat,
    cf: Seq<Finding>,
    cc: Seq<Finding>,
    measures: Seq<MeshMeasures>,
    lengths: Seq<Vec<Option<String>>>,
)
    requires
        r1 <= r2,
    ensures
        findings_within(validation_findings(m, r1, cf, cc, measures, lengths), validation_findings(m, r2, cf, cc, measures, lengths)),
{
    let x0 = build_reference_findings(m) + cf + cc + material_findings(m) + metadata_findings(m) + objects_findings(m.resources);
    let x2 = mesh_object_findings(m.resources.objects(), true, measures);
    lemma_within_gate(r1 >= 1, r2 >= 1, x0);
    lemma_displacement_levels(m, r1, r2, lengths);
    lemma_within_gate(r1 >= 3, r2 >= 3, x2);
    let a0 = if r1 >= 1 { x0 } else { Seq::empty() };
    let b0 = if r2 >= 1 { x0 } else { Seq::empty() };
    let a2 = if r1 >= 3 { x2 } else { Seq::empty() };
    let b2 = if r2 >= 3 { x2 } else { Seq::empty() };
    lemma_within_join(a0, b0, displacement_findings(m, r1, lengths), displacement_findings(m, r2, lengths));
    lemma_within_join(a0 + displacement_findings(m, r1, lengths), b0 + displacement_findings(m, r2, lengths), a2, b2);
}

/// A triangle of a mesh object that names a vertex index at or past the mesh's vertex count
/// is an error of every validation from Standard on: the report holds error 3001 "Triangle
/// `t` in Object `id` references out-of-bounds vertex" (whatever the cycle searches found).
pub proof fn law_out_of_bounds_vertex_reported(
    m: Model,
    rank: nat,
    cf: Seq<Finding>,
    cc: Seq<Finding>,
    measures: Seq<MeshMeasures>,
    lengths: Seq<Vec<Option<String>>>,
    items: Seq<ValidationItem>,
    k: int,
    t: int,
)
    requires
        rank >= 1,
        appended(Seq::empty(), items, validation_findings(m, rank, cf, cc, measures, lengths)),
        0 <= k < m.resources.objects().len(),
        m.resources.objects()[k].geometry matches Geometry::Mesh(mesh) && 0 <= t < mesh.triangles@.len() && ({
            let tri = mesh.triangles@[t];
            let n = mesh.vertices@.len();
            tri.v1 >= n || tri.v2 >= n || tri.v3 >= n
        }),
    ensures
        exists|j: int| 0 <= j < items.len() && is_finding(#[trigger] items[j], ValidationSeverity::Error, 3001,
            "Triangle "@ + decimal(t as nat) + " in Object "@ + decimal(m.resources.objects()[k].id.0 as nat)
                + " references out-of-bounds vertex"@),
{
    let rc = m.resources;
    let o = rc.objects()[k];
    let oid = o.id.0;
    let x: Finding = (ValidationSeverity::Error, 3001u32,
        "Triangle "@ + decimal(t as nat) + " in Object "@ + decimal(oid as nat) + " references out-of-bounds vertex"@);
    if let Geometry::Mesh(mesh) = o.geometry {
        let tf = |i: int| triangle_findings(rc, oid, mesh.vertices@.len(), mesh.triangles@[i], i);
        let own = triangle_findings(rc, oid, mesh.vertices@.len(), mesh.triangles@[t], t);
        assert(own[0] == x);
        assert(tf(t).contains(x));
        lemma_concat_upto_contains(mesh.triangles@.len(), tf, t, x);
        let g = geometry_findings(rc, oid, o.geometry);
        assert(g.contains(x));
        let gi = choose|i: int| 0 <= i < g.len() && g[i] == x;
        let of = object_findings(rc, o);
        assert(of.contains(x)) by {
            let p = of.len() - g.len();
            assert(of[p + gi] == x);
        }
        let ofs = |i: int| object_findings(rc, rc.objects()[i]);
        assert(ofs(k).contains(x));
        lemma_concat_upto_contains(rc.objects().len(), ofs, k, x);
        let objs_f = objects_findings(rc);
        assert(objs_f.contains(x));
        let a = build_reference_findings(m) + cf + cc + material_findings(m) + metadata_findings(m);
        let x0 = a + objs_f;
        let oi = choose|i: int| 0 <= i < objs_f.len() && objs_f[i] == x;
        assert(x0[a.len() + oi] == x);
        let all = validation_findings(m, rank, cf, cc, measures, lengths);
        let rest = displacement_findings(m, rank, lengths) + (if rank >= 3 {
            mesh_object_findings(m.resources.objects(), true, measures)
        } else {
            Seq::empty()
        });
        assert(all == x0 + displacement_findings(m, rank, lengths) + (if rank >= 3 {
            mesh_object_findings(m.resources.objects(), true, measures)
        } else {
            Seq::empty()
        }));
        assert(all[a.len() + oi] == x);
        assert(all.contains(x));
        lemma_appended_has(Seq::empty(), items, all, x);
    }
}

} // verus!
