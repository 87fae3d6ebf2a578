//! Reference integrity and material rules (Standard level).

use vstd::prelude::*;
use crate::model::core_model::Model;
use crate::model::mesh::{
    is_transform_valid, object_type_name, spec_can_be_in_build, transform_finite, Geometry,
    Object, ObjectType,
};
use crate::model::resources::{first_with, lemma_first_with, ResourceCollection, ResourceId};
use crate::text::{append_num, decimal};
use crate::topology::has_node;
use crate::validation::dag::{lists, has_cycle, has_cycle_dfs, is_edge, is_walk, lemma_all_finished_acyclic, search_ok, step, well_formed};
use crate::validation::report::{
    appended, concat_upto, lemma_appended_none, lemma_appended_step, lemma_appended_trans,
    Finding, ValidationReport, ValidationSeverity, is_finding,
};

verus! {

/// An error finding.
pub open spec fn err(code: u32, msg: Seq<char>) -> Finding {
    (ValidationSeverity::Error, code, msg)
}

// ---------------------------------------------------------------- build references

/// The findings for build item `idx` referencing object `id`.
pub open spec fn build_item_findings(rc: ResourceCollection, idx: int, id: u32) -> Seq<Finding> {
    match first_with(rc.objects(), id) {
        Some(obj) => if !spec_can_be_in_build(obj.object_type) {
            seq![err(3010, "Build item "@ + decimal(idx as nat) + " references object "@ + decimal(id as nat)
                + " with type '"@ + object_type_name(obj.object_type) + "' which cannot be in build"@)]
        } else {
            Seq::empty()
        },
        None => seq![err(3002, "Build item "@ + decimal(idx as nat) + " references non-existent object "@
            + decimal(id as nat))],
    }
}

/// The findings of the build reference checks: each item must reference an existing
/// object whose type may be in the build.
pub open spec fn build_reference_findings(m: Model) -> Seq<Finding> {
    concat_upto(m.build.items@.len(), |k: int| build_item_findings(m.resources, k, m.build.items@[k].object_id.0))
}

/// Checks that build items reference existing objects of a type allowed in the build.
pub fn validate_build_references(model: &Model, report: &mut ValidationReport)
    ensures
        appended(old(report).items@, final(report).items@, build_reference_findings(*model)),
{
    let ghost f = |k: int| build_item_findings(model.resources, k, model.build.items@[k].object_id.0);
    let ghost start = report.items@;
    proof { lemma_appended_none(start); }
    let mut idx: usize = 0;
    while idx < model.build.items.len()
        invariant
            idx <= model.build.items@.len(),
            f == (|k: int| build_item_findings(model.resources, k, model.build.items@[k].object_id.0)),
            appended(start, report.items@, concat_upto(idx as nat, f)),
        decreases model.build.items@.len() - idx,
    {
        let ghost mid = report.items@;
        let item = &model.build.items[idx];
        match model.resources.get_object(item.object_id) {
            Some(obj) => {
                if !obj.object_type.can_be_in_build() {
                    let mut m = String::new();
                    append_num(&mut m, "Build item ", idx as u64);
                    append_num(&mut m, " references object ", item.object_id.0 as u64);
                    m.append(" with type '");
                    let tn = obj.object_type.to_string();
                    m.append(tn.as_str());
                    m.append("' which cannot be in build");
                    report.add_error(3010, m);
                } else {
                    proof { lemma_appended_none(mid); }
                }
            },
            None => {
                let mut m = String::new();
                append_num(&mut m, "Build item ", idx as u64);
                append_num(&mut m, " references non-existent object ", item.object_id.0 as u64);
                report.add_error(3002, m);
            },
        }
        proof {
            assert(f(idx as int) =~= build_item_findings(model.resources, idx as int, model.build.items@[idx as int].object_id.0));
            assert(appended(mid, report.items@, f(idx as int)));
            lemma_appended_step(start, mid, report.items@, idx as nat, f);
        }
        idx = idx + 1;
    }
}

// ---------------------------------------------------------------- material constraints

/// The findings for an object's `pindex` without `pid`.
pub open spec fn pindex_findings(o: Object) -> Seq<Finding> {
    if o.pindex is Some && o.pid is None {
        seq![err(2010, "Object "@ + decimal(o.id.0 as nat)
            + " has pindex but no pid (pindex requires pid to be specified)"@)]
    } else {
        Seq::empty()
    }
}

/// The findings for a composite materials group whose `matid` is not a base materials group.
pub open spec fn composite_findings(rc: ResourceCollection, id: u32, matid: u32) -> Seq<Finding> {
    if first_with(rc.base_materials(), matid) is Some {
        Seq::empty()
    } else if rc.spec_exists(matid) {
        seq![err(2030, "CompositeMaterials "@ + decimal(id as nat) + " matid "@ + decimal(matid as nat)
            + " must reference basematerials, not another resource type"@)]
    } else {
        seq![err(2030, "CompositeMaterials "@ + decimal(id as nat) + " matid "@ + decimal(matid as nat)
            + " references non-existent basematerials"@)]
    }
}

/// The kind of resource a property ID names, tried in the order base materials (0),
/// color group (1), texture group (2), composite materials (3), multi-properties (4);
/// 5 when none of these.
pub open spec fn property_class(rc: ResourceCollection, pid: u32) -> nat {
    if first_with(rc.base_materials(), pid) is Some {
        0
    } else if first_with(rc.color_groups(), pid) is Some {
        1
    } else if first_with(rc.texture_2d_groups(), pid) is Some {
        2
    } else if first_with(rc.composite_materials(), pid) is Some {
        3
    } else if first_with(rc.multi_properties(), pid) is Some {
        4
    } else {
        5
    }
}

/// How many of the first `n` property IDs are of class `c`.
pub open spec fn class_count(rc: ResourceCollection, pids: Seq<ResourceId>, n: nat, c: nat) -> nat
    decreases n,
{
    if n == 0 {
        0
    } else {
        class_count(rc, pids, (n - 1) as nat, c) + (if property_class(rc, pids[n - 1].0) == c { 1nat } else { 0nat })
    }
}

/// The findings for one multi-properties group: at most one reference to each material
/// kind, not both base and composite materials, and no reference to another
/// multi-properties group.
pub open spec fn multi_findings(rc: ResourceCollection, id: u32, pids: Seq<ResourceId>) -> Seq<Finding> {
    let n = pids.len();
    let bm = class_count(rc, pids, n, 0);
    let cg = class_count(rc, pids, n, 1);
    let tx = class_count(rc, pids, n, 2);
    let cm = class_count(rc, pids, n, 3);
    let head = "MultiProperties "@ + decimal(id as nat);
    (if bm > 1 { seq![err(2020, head + " references basematerials "@ + decimal(bm) + " times (maximum 1 allowed)"@)] } else { Seq::empty() })
    + (if cg > 1 { seq![err(2021, head + " references colorgroup "@ + decimal(cg) + " times (maximum 1 allowed)"@)] } else { Seq::empty() })
    + (if tx > 1 { seq![err(2022, head + " references texture2dgroup "@ + decimal(tx) + " times (maximum 1 allowed)"@)] } else { Seq::empty() })
    + (if cm > 1 { seq![err(2023, head + " references compositematerials "@ + decimal(cm) + " times (maximum 1 allowed)"@)] } else { Seq::empty() })
    + (if bm > 0 && cm > 0 { seq![err(2025, head + " references both basematerials and compositematerials (only one material type allowed)"@)] } else { Seq::empty() })
    + concat_upto(n, |k: int| if property_class(rc, pids[k].0) == 4 {
        seq![err(2024, head + " references another multiproperties "@ + decimal(pids[k].0 as nat) + " (not allowed)"@)]
    } else {
        Seq::empty()
    })
}

/// The findings of the material checks.
pub open spec fn material_findings(m: Model) -> Seq<Finding> {
    let rc = m.resources;
    concat_upto(rc.objects().len(), |k: int| pindex_findings(rc.objects()[k]))
        + concat_upto(rc.composite_materials().len(), |k: int| composite_findings(rc, rc.composite_materials()[k].id.0, rc.composite_materials()[k].base_material_id.0))
        + concat_upto(rc.multi_properties().len(), |k: int| multi_findings(rc, rc.multi_properties()[k].id.0, rc.multi_properties()[k].pids@))
}

/// The kind of resource a property ID names (see `property_class`).
fn classify(rc: &ResourceCollection, pid: ResourceId) -> (c: u8)
    ensures
        c == property_class(*rc, pid.0),
{
    if rc.get_base_materials(pid).is_some() {
        0
    } else if rc.get_color_group(pid).is_some() {
        1
    } else if rc.get_texture_2d_group(pid).is_some() {
        2
    } else if rc.get_composite_materials(pid).is_some() {
        3
    } else if rc.get_multi_properties(pid).is_some() {
        4
    } else {
        5
    }
}

/// Checks one multi-properties group.
fn check_multi(rc: &ResourceCollection, id: ResourceId, pids: &Vec<ResourceId>, report: &mut ValidationReport)
    ensures
        appended(old(report).items@, final(report).items@, multi_findings(*rc, id.0, pids@)),
{
    let ghost start = report.items@;
    let ghost n = pids@.len();
    let mut bm: u64 = 0;
    let mut cg: u64 = 0;
    let mut tx: u64 = 0;
    let mut cm: u64 = 0;
    let mut i: usize = 0;
    while i < pids.len()
        invariant
            i <= pids@.len(),
            bm == class_count(*rc, pids@, i as nat, 0),
            cg == class_count(*rc, pids@, i as nat, 1),
            tx == class_count(*rc, pids@, i as nat, 2),
            cm == class_count(*rc, pids@, i as nat, 3),
            bm <= i && cg <= i && tx <= i && cm <= i,
        decreases pids@.len() - i,
    {
        let c = classify(rc, pids[i]);
        if c == 0 {
            bm = bm + 1;
        } else if c == 1 {
            cg = cg + 1;
        } else if c == 2 {
            tx = tx + 1;
        } else if c == 3 {
            cm = cm + 1;
        }
        i = i + 1;
    }
    let ghost head = "MultiProperties "@ + decimal(id.0 as nat);
    let ghost f1: Seq<Finding> = if bm > 1 { seq![err(2020, head + " references basematerials "@ + decimal(bm as nat) + " times (maximum 1 allowed)"@)] } else { Seq::empty() };
    let ghost f2: Seq<Finding> = if cg > 1 { seq![err(2021, head + " references colorgroup "@ + decimal(cg as nat) + " times (maximum 1 allowed)"@)] } else { Seq::empty() };
    let ghost f3: Seq<Finding> = if tx > 1 { seq![err(2022, head + " references texture2dgroup "@ + decimal(tx as nat) + " times (maximum 1 allowed)"@)] } else { Seq::empty() };
    let ghost f4: Seq<Finding> = if cm > 1 { seq![err(2023, head + " references compositematerials "@ + decimal(cm as nat) + " times (maximum 1 allowed)"@)] } else { Seq::empty() };
    let ghost f5: Seq<Finding> = if bm > 0 && cm > 0 { seq![err(2025, head + " references both basematerials and compositematerials (only one material type allowed)"@)] } else { Seq::empty() };
    let ghost s0 = report.items@;
    proof { lemma_appended_none(s0); }
    if bm > 1 {
        let mut m = String::new();
        append_num(&mut m, "MultiProperties ", id.0 as u64);
        append_num(&mut m, " references basematerials ", bm);
        m.append(" times (maximum 1 allowed)");
        report.add_error(2020, m);
    }
    let ghost s1 = report.items@;
    assert(appended(s0, s1, f1)) by { if bm > 1 { assert(f1 =~= seq![(ValidationSeverity::Error, 2020u32, head + " references basematerials "@ + decimal(bm as nat) + " times (maximum 1 allowed)"@)]); } }
    if cg > 1 {
        let mut m = String::new();
        append_num(&mut m, "MultiProperties ", id.0 as u64);
        append_num(&mut m, " references colorgroup ", cg);
        m.append(" times (maximum 1 allowed)");
        report.add_error(2021, m);
    }
    let ghost s2 = report.items@;
    assert(appended(s1, s2, f2)) by { if cg > 1 { assert(f2 =~= seq![(ValidationSeverity::Error, 2021u32, head + " references colorgroup "@ + decimal(cg as nat) + " times (maximum 1 allowed)"@)]); } }
    if tx > 1 {
        let mut m = String::new();
        append_num(&mut m, "MultiProperties ", id.0 as u64);
        append_num(&mut m, " references texture2dgroup ", tx);
        m.append(" times (maximum 1 allowed)");
        report.add_error(2022, m);
    }
    let ghost s3 = report.items@;
    assert(appended(s2, s3, f3)) by { if tx > 1 { assert(f3 =~= seq![(ValidationSeverity::Error, 2022u32, head + " references texture2dgroup "@ + decimal(tx as nat) + " times (maximum 1 allowed)"@)]); } }
    if cm > 1 {
        let mut m = String::new();
        append_num(&mut m, "MultiProperties ", id.0 as u64);
        append_num(&mut m, " references compositematerials ", cm);
        m.append(" times (maximum 1 allowed)");
        report.add_error(2023, m);
    }
    let ghost s4 = report.items@;
    assert(appended(s3, s4, f4)) by { if cm > 1 { assert(f4 =~= seq![(ValidationSeverity::Error, 2023u32, head + " references compositematerials "@ + decimal(cm as nat) + " times (maximum 1 allowed)"@)]); } }
    if bm > 0 && cm > 0 {
        let mut m = String::new();
        append_num(&mut m, "MultiProperties ", id.0 as u64);
        m.append(" references both basematerials and compositematerials (only one material type allowed)");
        report.add_error(2025, m);
    }
    let ghost s5 = report.items@;
    assert(appended(s4, s5, f5)) by { if bm > 0 && cm > 0 { assert(f5 =~= seq![(ValidationSeverity::Error, 2025u32, head + " references both basematerials and compositematerials (only one material type allowed)"@)]); } }
    let ghost g = |k: int| if property_class(*rc, pids@[k].0) == 4 {
        seq![err(2024, head + " references another multiproperties "@ + decimal(pids@[k].0 as nat) + " (not allowed)"@)]
    } else {
        Seq::<Finding>::empty()
    };
    proof { lemma_appended_none(s5); }
    let mut j: usize = 0;
    while j < pids.len()
        invariant
            j <= pids@.len(),
            head == "MultiProperties "@ + decimal(id.0 as nat),
            g == (|k: int| if property_class(*rc, pids@[k].0) == 4 {
                seq![err(2024, head + " references another multiproperties "@ + decimal(pids@[k].0 as nat) + " (not allowed)"@)]
            } else {
                Seq::<Finding>::empty()
            }),
            appended(s5, report.items@, concat_upto(j as nat, g)),
        decreases pids@.len() - j,
    {
        let ghost mid = report.items@;
        if classify(rc, pids[j]) == 4 {
            let mut m = String::new();
            append_num(&mut m, "MultiProperties ", id.0 as u64);
            append_num(&mut m, " references another multiproperties ", pids[j].0 as u64);
            m.append(" (not allowed)");
            report.add_error(2024, m);
            proof { assert(g(j as int) =~= seq![(ValidationSeverity::Error, 2024u32, head + " references another multiproperties "@ + decimal(pids@[j as int].0 as nat) + " (not allowed)"@)]); }
        } else {
            proof { lemma_appended_none(mid); }
        }
        proof { lemma_appended_step(s5, mid, report.items@, j as nat, g); }
        j = j + 1;
    }
    proof {
        lemma_appended_trans(s0, s1, s2, f1, f2);
        lemma_appended_trans(s0, s2, s3, f1 + f2, f3);
        lemma_appended_trans(s0, s3, s4, f1 + f2 + f3, f4);
        lemma_appended_trans(s0, s4, s5, f1 + f2 + f3 + f4, f5);
        lemma_appended_trans(s0, s5, report.items@, f1 + f2 + f3 + f4 + f5, concat_upto(n, g));
        assert(multi_findings(*rc, id.0, pids@) =~= f1 + f2 + f3 + f4 + f5 + concat_upto(n, g));
    }
}

/// Checks material reference rules: pindex needs pid, composite materials reference base
/// materials, and multi-properties combine at most one group of each kind.
pub fn validate_material_constraints(model: &Model, report: &mut ValidationReport)
    ensures
        appended(old(report).items@, final(report).items@, material_findings(*model)),
{
    let rc = &model.resources;
    let ghost start = report.items@;
    let objects = rc.iter_objects();
    let ghost f1 = |k: int| pindex_findings(rc.objects()[k]);
    proof { lemma_appended_none(start); }
    let mut i: usize = 0;
    while i < objects.len()
        invariant
            i <= objects@.len(),
            objects@ == rc.objects(),
            f1 == (|k: int| pindex_findings(rc.objects()[k])),
            appended(start, report.items@, concat_upto(i as nat, f1)),
        decreases objects@.len() - i,
    {
        let ghost mid = report.items@;
        let o = &objects[i];
        if o.pindex.is_some() && o.pid.is_none() {
            let mut m = String::new();
            append_num(&mut m, "Object ", o.id.0 as u64);
            m.append(" has pindex but no pid (pindex requires pid to be specified)");
            report.add_error(2010, m);
        } else {
            proof { lemma_appended_none(mid); }
        }
        proof { lemma_appended_step(start, mid, report.items@, i as nat, f1); }
        i = i + 1;
    }
    let ghost after1 = report.items@;
    let composites = rc.iter_composite_materials();
    let ghost f2 = |k: int| composite_findings(*rc, rc.composite_materials()[k].id.0, rc.composite_materials()[k].base_material_id.0);
    proof { lemma_appended_none(after1); }
    let mut i: usize = 0;
    while i < composites.len()
        invariant
            i <= composites@.len(),
            composites@ == rc.composite_materials(),
            f2 == (|k: int| composite_findings(*rc, rc.composite_materials()[k].id.0, rc.composite_materials()[k].base_material_id.0)),
            appended(after1, report.items@, concat_upto(i as nat, f2)),
        decreases composites@.len() - i,
    {
        let ghost mid = report.items@;
        let c = &composites[i];
        if rc.get_base_materials(c.base_material_id).is_some() {
            proof { lemma_appended_none(mid); }
        } else if rc.id_exists(c.base_material_id) {
            let mut m = String::new();
            append_num(&mut m, "CompositeMaterials ", c.id.0 as u64);
            append_num(&mut m, " matid ", c.base_material_id.0 as u64);
            m.append(" must reference basematerials, not another resource type");
            report.add_error(2030, m);
        } else {
            let mut m = String::new();
            append_num(&mut m, "CompositeMaterials ", c.id.0 as u64);
            append_num(&mut m, " matid ", c.base_material_id.0 as u64);
            m.append(" references non-existent basematerials");
            report.add_error(2030, m);
        }
        proof { lemma_appended_step(after1, mid, report.items@, i as nat, f2); }
        i = i + 1;
    }
    let ghost after2 = report.items@;
    let multis = rc.iter_multi_properties();
    let ghost f3 = |k: int| multi_findings(*rc, rc.multi_properties()[k].id.0, rc.multi_properties()[k].pids@);
    proof { lemma_appended_none(after2); }
    let mut i: usize = 0;
    while i < multis.len()
        invariant
            i <= multis@.len(),
            multis@ == rc.multi_properties(),
            f3 == (|k: int| multi_findings(*rc, rc.multi_properties()[k].id.0, rc.multi_properties()[k].pids@)),
            appended(after2, report.items@, concat_upto(i as nat, f3)),
        decreases multis@.len() - i,
    {
        let ghost mid = report.items@;
        check_multi(rc, multis[i].id, &multis[i].pids, report);
        proof { lemma_appended_step(after2, mid, report.items@, i as nat, f3); }
        i = i + 1;
    }
    proof {
        lemma_appended_trans(start, after1, after2, concat_upto(rc.objects().len(), f1), concat_upto(rc.composite_materials().len(), f2));
        lemma_appended_trans(start, after2, report.items@, concat_upto(rc.objects().len(), f1) + concat_upto(rc.composite_materials().len(), f2), concat_upto(rc.multi_properties().len(), f3));
    }
}


// ---------------------------------------------------------------- metadata

/// The findings for metadata entry `k`: empty names and repeated names.
pub open spec fn metadata_entry_findings(md: Seq<(String, String)>, k: int) -> Seq<Finding> {
    (if md[k].0@.len() == 0 {
        seq![err(2040, "Metadata entry has empty name (name attribute is required)"@)]
    } else {
        Seq::empty()
    }) + (if exists|j: int| 0 <= j < k && md[j].0@ == md[k].0@ {
        seq![err(2041, "Metadata name '"@ + md[k].0@ + "' is duplicated (names must be unique)"@)]
    } else {
        Seq::empty()
    })
}

/// The findings of the metadata checks.
pub open spec fn metadata_findings(m: Model) -> Seq<Finding> {
    concat_upto(m.metadata@.len(), |k: int| metadata_entry_findings(m.metadata@, k))
}

/// Checks that metadata names are non-empty and unique.
pub fn validate_metadata(model: &Model, report: &mut ValidationReport)
    ensures
        appended(old(report).items@, final(report).items@, metadata_findings(*model)),
{
    let md = &model.metadata;
    let ghost start = report.items@;
    let ghost f = |k: int| metadata_entry_findings(md@, k);
    proof { lemma_appended_none(start); }
    let mut i: usize = 0;
    while i < md.len()
        invariant
            i <= md@.len(),
            f == (|k: int| metadata_entry_findings(md@, k)),
            appended(start, report.items@, concat_upto(i as nat, f)),
        decreases md@.len() - i,
    {
        let ghost s0 = report.items@;
        let name = &md[i].0;
        let empty = name.as_str().unicode_len() == 0;
        if empty {
            report.add_error(2040, String::from_str("Metadata entry has empty name (name attribute is required)"));
        } else {
            proof { lemma_appended_none(s0); }
        }
        let ghost s1 = report.items@;
        let mut j: usize = 0;
        let mut seen = false;
        while j < i
            invariant
                j <= i < md@.len(),
                seen == exists|q: int| 0 <= q < j && md@[q].0@ == md@[i as int].0@,
            decreases i - j,
        {
            if md[j].0 == md[i].0 {
                seen = true;
            }
            j = j + 1;
        }
        if seen {
            let mut m = String::from_str("Metadata name '");
            m.append(md[i].0.as_str());
            m.append("' is duplicated (names must be unique)");
            report.add_error(2041, m);
        } else {
            proof { lemma_appended_none(s1); }
        }
        proof {
            let g1: Seq<Finding> = if md@[i as int].0@.len() == 0 { seq![err(2040, "Metadata entry has empty name (name attribute is required)"@)] } else { Seq::empty() };
            let g2: Seq<Finding> = if seen { seq![err(2041, "Metadata name '"@ + md@[i as int].0@ + "' is duplicated (names must be unique)"@)] } else { Seq::empty() };
            assert(appended(s0, s1, g1));
            assert(appended(s1, report.items@, g2));
            lemma_appended_trans(s0, s1, report.items@, g1, g2);
            assert(f(i as int) =~= g1 + g2);
            lemma_appended_step(start, s0, report.items@, i as nat, f);
        }
        i = i + 1;
    }
}

// ---------------------------------------------------------------- per-object references

/// The findings for triangle `k` of a mesh of object `oid`: vertex bounds and property group.
pub open spec fn triangle_findings(rc: ResourceCollection, oid: u32, nverts: nat, t: crate::model::mesh::Triangle, k: int) -> Seq<Finding> {
    (if t.v1 >= nverts || t.v2 >= nverts || t.v3 >= nverts {
        seq![err(3001, "Triangle "@ + decimal(k as nat) + " in Object "@ + decimal(oid as nat) + " references out-of-bounds vertex"@)]
    } else {
        Seq::empty()
    }) + (match t.pid {
        Some(p) => if !rc.spec_exists(p) {
            seq![err(2002, "Triangle "@ + decimal(k as nat) + " in Object "@ + decimal(oid as nat) + " references non-existent property group "@ + decimal(p as nat))]
        } else {
            Seq::empty()
        },
        None => Seq::empty(),
    })
}

/// The findings for a component of object `oid`: internal references must exist.
pub open spec fn component_findings(rc: ResourceCollection, oid: u32, c: crate::model::mesh::Component) -> Seq<Finding> {
    if c.path is None && first_with(rc.objects(), c.object_id.0) is None {
        seq![err(2003, "Component in Object "@ + decimal(oid as nat) + " references non-existent object "@ + decimal(c.object_id.0 as nat))]
    } else {
        Seq::empty()
    }
}

/// The findings for the base of boolean shape `oid`.
pub open spec fn boolean_base_findings(rc: ResourceCollection, oid: u32, base: u32) -> Seq<Finding> {
    match first_with(rc.objects(), base) {
        Some(bo) => match bo.geometry {
            Geometry::Components(_) => seq![err(2101, "BooleanShape "@ + decimal(oid as nat) + " base object "@ + decimal(base as nat) + " cannot be Components type"@)],
            _ => Seq::empty(),
        },
        None => seq![err(2102, "BooleanShape "@ + decimal(oid as nat) + " references non-existent base object "@ + decimal(base as nat))],
    }
}

/// The findings for operation `k` of boolean shape `oid` applying object `opid`.
pub open spec fn boolean_op_findings(rc: ResourceCollection, oid: u32, k: int, opid: u32) -> Seq<Finding> {
    match first_with(rc.objects(), opid) {
        Some(oo) => match oo.geometry {
            Geometry::Mesh(_) => Seq::empty(),
            _ => seq![err(2103, "BooleanShape "@ + decimal(oid as nat) + " operation "@ + decimal(k as nat) + " references non-mesh object "@ + decimal(opid as nat) + " (type must be mesh)"@)],
        },
        None => seq![err(2104, "BooleanShape "@ + decimal(oid as nat) + " operation "@ + decimal(k as nat) + " references non-existent object "@ + decimal(opid as nat))],
    }
}

/// The findings for a boolean shape: base, operation objects and finite matrices.
pub open spec fn boolean_findings(rc: ResourceCollection, oid: u32, bs: crate::model::mesh::BooleanShape) -> Seq<Finding> {
    boolean_base_findings(rc, oid, bs.base_object_id.0)
        + concat_upto(bs.operations@.len(), |k: int| boolean_op_findings(rc, oid, k, bs.operations@[k].object_id.0))
        + (if !transform_finite(bs.base_transform) {
            seq![err(2106, "BooleanShape "@ + decimal(oid as nat) + " has invalid base transformation matrix (contains NaN or Infinity)"@)]
        } else {
            Seq::empty()
        })
        + concat_upto(bs.operations@.len(), |k: int| if !transform_finite(bs.operations@[k].transform) {
            seq![err(2105, "BooleanShape "@ + decimal(oid as nat) + " operation "@ + decimal(k as nat) + " has invalid transformation matrix (contains NaN or Infinity)"@)]
        } else {
            Seq::empty()
        })
}

/// The reference findings of one object.
pub open spec fn object_findings(rc: ResourceCollection, o: Object) -> Seq<Finding> {
    let oid = o.id.0;
    (match o.pid {
        Some(p) => if !rc.spec_exists(p.0) {
            seq![err(2001, "Object "@ + decimal(oid as nat) + " references non-existent property group "@ + decimal(p.0 as nat))]
        } else {
            Seq::empty()
        },
        None => Seq::empty(),
    }) + geometry_findings(rc, oid, o.geometry)
}

/// The reference findings of the geometry of object `oid`.
pub open spec fn geometry_findings(rc: ResourceCollection, oid: u32, g: Geometry) -> Seq<Finding> {
    match g {
        Geometry::Mesh(mesh) => concat_upto(mesh.triangles@.len(), |k: int| triangle_findings(rc, oid, mesh.vertices@.len(), mesh.triangles@[k], k)),
        Geometry::Components(c) => concat_upto(c.components@.len(), |k: int| component_findings(rc, oid, c.components@[k])),
        Geometry::SliceStack(sid) => if first_with(rc.slice_stacks(), sid.0) is None {
            seq![err(2004, "Object "@ + decimal(oid as nat) + " references non-existent slicestack "@ + decimal(sid.0 as nat))]
        } else {
            Seq::empty()
        },
        Geometry::VolumetricStack(vid) => if first_with(rc.volumetric_stacks(), vid.0) is None {
            seq![err(2005, "Object "@ + decimal(oid as nat) + " references non-existent volumetricstack "@ + decimal(vid.0 as nat))]
        } else {
            Seq::empty()
        },
        Geometry::BooleanShape(bs) => boolean_findings(rc, oid, bs),
        Geometry::DisplacementMesh(_) => Seq::empty(),
    }
}


/// Checks one triangle of a mesh of object `oid`.
fn check_triangle(rc: &ResourceCollection, oid: u32, nverts: usize, t: &crate::model::mesh::Triangle, k: usize, report: &mut ValidationReport)
    ensures
        appended(old(report).items@, final(report).items@, triangle_findings(*rc, oid, nverts as nat, *t, k as int)),
{
    let ghost s0 = report.items@;
    if t.v1 as usize >= nverts || t.v2 as usize >= nverts || t.v3 as usize >= nverts {
        let mut m = String::new();
        append_num(&mut m, "Triangle ", k as u64);
        append_num(&mut m, " in Object ", oid as u64);
        m.append(" references out-of-bounds vertex");
        report.add_error(3001, m);
    } else {
        proof { lemma_appended_none(s0); }
    }
    let ghost s1 = report.items@;
    let mut missing = false;
    match t.pid {
        Some(p) => {
            if !rc.id_exists(ResourceId(p)) {
                missing = true;
                let mut m = String::new();
                append_num(&mut m, "Triangle ", k as u64);
                append_num(&mut m, " in Object ", oid as u64);
                append_num(&mut m, " references non-existent property group ", p as u64);
                report.add_error(2002, m);
            } else {
                proof { lemma_appended_none(s1); }
            }
        },
        None => {
            proof { lemma_appended_none(s1); }
        },
    }
    proof {
        let nv = nverts as nat;
        let g1: Seq<Finding> = if t.v1 >= nv || t.v2 >= nv || t.v3 >= nv {
            seq![err(3001, "Triangle "@ + decimal(k as nat) + " in Object "@ + decimal(oid as nat) + " references out-of-bounds vertex"@)]
        } else {
            Seq::empty()
        };
        let g2: Seq<Finding> = match t.pid {
            Some(p) => if !rc.spec_exists(p) {
                seq![err(2002, "Triangle "@ + decimal(k as nat) + " in Object "@ + decimal(oid as nat) + " references non-existent property group "@ + decimal(p as nat))]
            } else {
                Seq::empty()
            },
            None => Seq::empty(),
        };
        assert(appended(s0, s1, g1)) by {
            if t.v1 >= nv || t.v2 >= nv || t.v3 >= nv {
                assert(g1 =~= seq![(ValidationSeverity::Error, 3001u32, Seq::<char>::empty() + "Triangle "@ + decimal(k as nat) + " in Object "@ + decimal(oid as nat) + " references out-of-bounds vertex"@)]);
            }
        }
        assert(appended(s1, report.items@, g2)) by {
            if let Some(p) = t.pid {
                if !rc.spec_exists(p) {
                    assert(g2 =~= seq![(ValidationSeverity::Error, 2002u32, Seq::<char>::empty() + "Triangle "@ + decimal(k as nat) + " in Object "@ + decimal(oid as nat) + " references non-existent property group "@ + decimal(p as nat))]);
                }
            }
        }
        lemma_appended_trans(s0, s1, report.items@, g1, g2);
        assert(triangle_findings(*rc, oid, nv, *t, k as int) =~= g1 + g2);
    }
}

/// Checks a boolean shape object.
fn check_boolean_shape(rc: &ResourceCollection, oid: u32, bs: &crate::model::mesh::BooleanShape, report: &mut ValidationReport)
    ensures
        appended(old(report).items@, final(report).items@, boolean_findings(*rc, oid, *bs)),
{
    let ghost s0 = report.items@;
    match rc.get_object(bs.base_object_id) {
        Some(bo) => {
            match &bo.geometry {
                Geometry::Components(_) => {
                    let mut m = String::new();
                    append_num(&mut m, "BooleanShape ", oid as u64);
                    append_num(&mut m, " base object ", bs.base_object_id.0 as u64);
                    m.append(" cannot be Components type");
                    report.add_error(2101, m);
                },
                _ => {
                    proof { lemma_appended_none(s0); }
                },
            }
        },
        None => {
            let mut m = String::new();
            append_num(&mut m, "BooleanShape ", oid as u64);
            append_num(&mut m, " references non-existent base object ", bs.base_object_id.0 as u64);
            report.add_error(2102, m);
        },
    }
    let ghost s1 = report.items@;
    proof {
        let g = boolean_base_findings(*rc, oid, bs.base_object_id.0);
        assert(appended(s0, s1, g)) by {
            match first_with(rc.objects(), bs.base_object_id.0) {
                Some(bo) => {
                    if let Geometry::Components(_) = bo.geometry {
                        assert(g =~= seq![(ValidationSeverity::Error, 2101u32, Seq::<char>::empty() + "BooleanShape "@ + decimal(oid as nat) + " base object "@ + decimal(bs.base_object_id.0 as nat) + " cannot be Components type"@)]);
                    }
                },
                None => {
                    assert(g =~= seq![(ValidationSeverity::Error, 2102u32, Seq::<char>::empty() + "BooleanShape "@ + decimal(oid as nat) + " references non-existent base object "@ + decimal(bs.base_object_id.0 as nat))]);
                },
            }
        }
    }
    let ghost f1 = |k: int| boolean_op_findings(*rc, oid, k, bs.operations@[k].object_id.0);
    proof { lemma_appended_none(s1); }
    let mut i: usize = 0;
    while i < bs.operations.len()
        invariant
            i <= bs.operations@.len(),
            f1 == (|k: int| boolean_op_findings(*rc, oid, k, bs.operations@[k].object_id.0)),
            appended(s1, report.items@, concat_upto(i as nat, f1)),
        decreases bs.operations@.len() - i,
    {
        let ghost mid = report.items@;
        let opid = bs.operations[i].object_id;
        match rc.get_object(opid) {
            Some(oo) => {
                match &oo.geometry {
                    Geometry::Mesh(_) => {
                        proof { lemma_appended_none(mid); }
                    },
                    _ => {
                        let mut m = String::new();
                        append_num(&mut m, "BooleanShape ", oid as u64);
                        append_num(&mut m, " operation ", i as u64);
                        append_num(&mut m, " references non-mesh object ", opid.0 as u64);
                        m.append(" (type must be mesh)");
                        report.add_error(2103, m);
                    },
                }
            },
            None => {
                let mut m = String::new();
                append_num(&mut m, "BooleanShape ", oid as u64);
                append_num(&mut m, " operation ", i as u64);
                append_num(&mut m, " references non-existent object ", opid.0 as u64);
                report.add_error(2104, m);
            },
        }
        proof {
            let g = f1(i as int);
            assert(appended(mid, report.items@, g)) by {
                match first_with(rc.objects(), opid.0) {
                    Some(oo) => {
                        match oo.geometry {
                            Geometry::Mesh(_) => {},
                            _ => {
                                assert(g =~= seq![(ValidationSeverity::Error, 2103u32, Seq::<char>::empty() + "BooleanShape "@ + decimal(oid as nat) + " operation "@ + decimal(i as nat) + " references non-mesh object "@ + decimal(opid.0 as nat) + " (type must be mesh)"@)]);
                            },
                        }
                    },
                    None => {
                        assert(g =~= seq![(ValidationSeverity::Error, 2104u32, Seq::<char>::empty() + "BooleanShape "@ + decimal(oid as nat) + " operation "@ + decimal(i as nat) + " references non-existent object "@ + decimal(opid.0 as nat))]);
                    },
                }
            }
            lemma_appended_step(s1, mid, report.items@, i as nat, f1);
        }
        i = i + 1;
    }
    let ghost s2 = report.items@;
    if !is_transform_valid(&bs.base_transform) {
        let mut m = String::new();
        append_num(&mut m, "BooleanShape ", oid as u64);
        m.append(" has invalid base transformation matrix (contains NaN or Infinity)");
        report.add_error(2106, m);
    } else {
        proof { lemma_appended_none(s2); }
    }
    let ghost s3 = report.items@;
    let ghost g3: Seq<Finding> = if !transform_finite(bs.base_transform) {
        seq![err(2106, "BooleanShape "@ + decimal(oid as nat) + " has invalid base transformation matrix (contains NaN or Infinity)"@)]
    } else {
        Seq::empty()
    };
    proof {
        assert(appended(s2, s3, g3)) by {
            if !transform_finite(bs.base_transform) {
                assert(g3 =~= seq![(ValidationSeverity::Error, 2106u32, Seq::<char>::empty() + "BooleanShape "@ + decimal(oid as nat) + " has invalid base transformation matrix (contains NaN or Infinity)"@)]);
            }
        }
    }
    let ghost f2 = |k: int| if !transform_finite(bs.operations@[k].transform) {
        seq![err(2105, "BooleanShape "@ + decimal(oid as nat) + " operation "@ + decimal(k as nat) + " has invalid transformation matrix (contains NaN or Infinity)"@)]
    } else {
        Seq::<Finding>::empty()
    };
    proof { lemma_appended_none(s3); }
    let mut i: usize = 0;
    while i < bs.operations.len()
        invariant
            i <= bs.operations@.len(),
            f2 == (|k: int| if !transform_finite(bs.operations@[k].transform) {
                seq![err(2105, "BooleanShape "@ + decimal(oid as nat) + " operation "@ + decimal(k as nat) + " has invalid transformation matrix (contains NaN or Infinity)"@)]
            } else {
                Seq::<Finding>::empty()
            }),
            appended(s3, report.items@, concat_upto(i as nat, f2)),
        decreases bs.operations@.len() - i,
    {
        let ghost mid = report.items@;
        if !is_transform_valid(&bs.operations[i].transform) {
            let mut m = String::new();
            append_num(&mut m, "BooleanShape ", oid as u64);
            append_num(&mut m, " operation ", i as u64);
            m.append(" has invalid transformation matrix (contains NaN or Infinity)");
            report.add_error(2105, m);
            proof {
                assert(f2(i as int) =~= seq![(ValidationSeverity::Error, 2105u32, Seq::<char>::empty() + "BooleanShape "@ + decimal(oid as nat) + " operation "@ + decimal(i as nat) + " has invalid transformation matrix (contains NaN or Infinity)"@)]);
            }
        } else {
            proof { lemma_appended_none(mid); }
        }
        proof { lemma_appended_step(s3, mid, report.items@, i as nat, f2); }
        i = i + 1;
    }
    proof {
        let n = bs.operations@.len();
        lemma_appended_trans(s0, s1, s2, boolean_base_findings(*rc, oid, bs.base_object_id.0), concat_upto(n, f1));
        lemma_appended_trans(s0, s2, s3, boolean_base_findings(*rc, oid, bs.base_object_id.0) + concat_upto(n, f1), g3);
        lemma_appended_trans(s0, s3, report.items@, boolean_base_findings(*rc, oid, bs.base_object_id.0) + concat_upto(n, f1) + g3, concat_upto(n, f2));
    }
}


/// Checks the references of one object.
pub fn check_object_references(rc: &ResourceCollection, o: &Object, report: &mut ValidationReport)
    ensures
        appended(old(report).items@, final(report).items@, object_findings(*rc, *o)),
{
    let oid = o.id.0;
    let ghost s0 = report.items@;
    let ghost g0: Seq<Finding> = match o.pid {
        Some(p) => if !rc.spec_exists(p.0) {
            seq![err(2001, "Object "@ + decimal(oid as nat) + " references non-existent property group "@ + decimal(p.0 as nat))]
        } else {
            Seq::empty()
        },
        None => Seq::empty(),
    };
    match o.pid {
        Some(p) => {
            if !rc.id_exists(p) {
                let mut m = String::new();
                append_num(&mut m, "Object ", oid as u64);
                append_num(&mut m, " references non-existent property group ", p.0 as u64);
                report.add_error(2001, m);
                proof {
                    assert(g0 =~= seq![(ValidationSeverity::Error, 2001u32, Seq::<char>::empty() + "Object "@ + decimal(oid as nat) + " references non-existent property group "@ + decimal(p.0 as nat))]);
                }
            } else {
                proof { lemma_appended_none(s0); }
            }
        },
        None => {
            proof { lemma_appended_none(s0); }
        },
    }
    let ghost s1 = report.items@;
    match &o.geometry {
        Geometry::Mesh(mesh) => {
            let ghost f = |k: int| triangle_findings(*rc, oid, mesh.vertices@.len(), mesh.triangles@[k], k);
            proof { lemma_appended_none(s1); }
            let mut i: usize = 0;
            while i < mesh.triangles.len()
                invariant
                    i <= mesh.triangles@.len(),
                    f == (|k: int| triangle_findings(*rc, oid, mesh.vertices@.len(), mesh.triangles@[k], k)),
                    appended(s1, report.items@, concat_upto(i as nat, f)),
                decreases mesh.triangles@.len() - i,
            {
                let ghost mid = report.items@;
                check_triangle(rc, oid, mesh.vertices.len(), &mesh.triangles[i], i, report);
                proof { lemma_appended_step(s1, mid, report.items@, i as nat, f); }
                i = i + 1;
            }
        },
        Geometry::Components(comps) => {
            let ghost f = |k: int| component_findings(*rc, oid, comps.components@[k]);
            proof { lemma_appended_none(s1); }
            let mut i: usize = 0;
            while i < comps.components.len()
                invariant
                    i <= comps.components@.len(),
                    f == (|k: int| component_findings(*rc, oid, comps.components@[k])),
                    appended(s1, report.items@, concat_upto(i as nat, f)),
                decreases comps.components@.len() - i,
            {
                let ghost mid = report.items@;
                let c = &comps.components[i];
                if c.path.is_none() && rc.get_object(c.object_id).is_none() {
                    let mut m = String::new();
                    append_num(&mut m, "Component in Object ", oid as u64);
                    append_num(&mut m, " references non-existent object ", c.object_id.0 as u64);
                    report.add_error(2003, m);
                    proof {
                        assert(f(i as int) =~= seq![(ValidationSeverity::Error, 2003u32, Seq::<char>::empty() + "Component in Object "@ + decimal(oid as nat) + " references non-existent object "@ + decimal(c.object_id.0 as nat))]);
                    }
                } else {
                    proof { lemma_appended_none(mid); }
                }
                proof { lemma_appended_step(s1, mid, report.items@, i as nat, f); }
                i = i + 1;
            }
        },
        Geometry::SliceStack(sid) => {
            if rc.get_slice_stack(*sid).is_none() {
                let mut m = String::new();
                append_num(&mut m, "Object ", oid as u64);
                append_num(&mut m, " references non-existent slicestack ", sid.0 as u64);
                report.add_error(2004, m);
            } else {
                proof { lemma_appended_none(s1); }
            }
        },
        Geometry::VolumetricStack(vid) => {
            if rc.get_volumetric_stack(*vid).is_none() {
                let mut m = String::new();
                append_num(&mut m, "Object ", oid as u64);
                append_num(&mut m, " references non-existent volumetricstack ", vid.0 as u64);
                report.add_error(2005, m);
            } else {
                proof { lemma_appended_none(s1); }
            }
        },
        Geometry::BooleanShape(bs) => {
            check_boolean_shape(rc, oid, bs, report);
        },
        Geometry::DisplacementMesh(_) => {
            proof { lemma_appended_none(s1); }
        },
    }
    proof {
        let g1: Seq<Finding> = geometry_findings(*rc, oid, o.geometry);
        assert(appended(s1, report.items@, g1)) by {
            match &o.geometry {
                Geometry::SliceStack(sid) => {
                    if first_with(rc.slice_stacks(), sid.0) is None {
                        assert(g1 =~= seq![(ValidationSeverity::Error, 2004u32, Seq::<char>::empty() + "Object "@ + decimal(oid as nat) + " references non-existent slicestack "@ + decimal(sid.0 as nat))]);
                    }
                },
                Geometry::VolumetricStack(vid) => {
                    if first_with(rc.volumetric_stacks(), vid.0) is None {
                        assert(g1 =~= seq![(ValidationSeverity::Error, 2005u32, Seq::<char>::empty() + "Object "@ + decimal(oid as nat) + " references non-existent volumetricstack "@ + decimal(vid.0 as nat))]);
                    }
                },
                _ => {},
            }
        }
        lemma_appended_trans(s0, s1, report.items@, g0, g1);
        assert(object_findings(*rc, *o) =~= g0 + g1);
    }
}


// ---------------------------------------------------------------- reference cycles

/// The reference graphs that must not have cycles: boolean shapes referring to boolean
/// shapes, and component objects referring to component objects.
#[derive(Debug, Clone, Copy)]
pub enum RefGraph {
    /// Boolean shapes and the objects their base and operations name.
    Boolean,
    /// Component objects and the objects their components name in the same part.
    Component,
}

/// Whether an object is a node of the reference graph `kind`.
pub open spec fn is_node(kind: RefGraph, o: Object) -> bool {
    match kind {
        RefGraph::Boolean => o.geometry is BooleanShape,
        RefGraph::Component => o.geometry is Components,
    }
}

/// Whether an object is a boolean shape.
pub open spec fn is_boolean(o: Object) -> bool {
    is_node(RefGraph::Boolean, o)
}

/// The references of a node, in order: the base and each operation of a boolean shape, each
/// component of a component object (`None` for a component in another model part).
pub open spec fn node_refs(kind: RefGraph, o: Object) -> Seq<Option<u32>> {
    match (kind, o.geometry) {
        (RefGraph::Boolean, Geometry::BooleanShape(bs)) =>
            seq![Some(bs.base_object_id.0)] + bs.operations@.map_values(|op: crate::model::mesh::BooleanOperation| Some(op.object_id.0)),
        (RefGraph::Component, Geometry::Components(cs)) =>
            cs.components@.map_values(|c: crate::model::mesh::Component| if c.path is None { Some(c.object_id.0) } else { None }),
        _ => Seq::empty(),
    }
}

/// Whether `k` is the first index of an object with ID `id`.
pub open spec fn is_first_index(objs: Seq<Object>, id: u32, k: int) -> bool {
    0 <= k < objs.len() && objs[k].id.0 == id && forall|j: int| 0 <= j < k ==> objs[j].id.0 != id
}

/// Whether reference `k` of `refs` names object index `j` (the first object with its ID).
pub open spec fn names(objs: Seq<Object>, refs: Seq<Option<u32>>, k: int, j: int) -> bool {
    refs[k] matches Some(r) && is_first_index(objs, r, j)
}

/// Whether node `i` refers to node `j` in the graph `kind`.
pub open spec fn ref_edge(kind: RefGraph, objs: Seq<Object>, i: int, j: int) -> bool {
    &&& 0 <= i < objs.len()
    &&& 0 <= j < objs.len()
    &&& is_node(kind, objs[i])
    &&& is_node(kind, objs[j])
    &&& exists|k: int| 0 <= k < node_refs(kind, objs[i]).len() && #[trigger] names(objs, node_refs(kind, objs[i]), k, j)
}

/// Whether the `i`-th step of `p` is a reference of the graph `kind`.
pub open spec fn ref_step(kind: RefGraph, objs: Seq<Object>, p: Seq<int>, i: int) -> bool {
    ref_edge(kind, objs, p[i], p[i + 1])
}

/// Whether the nodes of graph `kind` refer to each other in a cycle (by object index).
pub open spec fn has_ref_cycle(kind: RefGraph, objs: Seq<Object>) -> bool {
    exists|p: Seq<int>| p.len() >= 2 && p[0] == p.last()
        && forall|i: int| 0 <= i < p.len() - 1 ==> #[trigger] ref_step(kind, objs, p, i)
}

/// Whether boolean shapes refer to each other in a cycle.
pub open spec fn has_boolean_cycle(objs: Seq<Object>) -> bool {
    has_ref_cycle(RefGraph::Boolean, objs)
}

/// Whether component objects refer to each other in a cycle (within the part).
pub open spec fn has_component_cycle(objs: Seq<Object>) -> bool {
    has_ref_cycle(RefGraph::Component, objs)
}

/// The code of a cycle finding.
pub open spec fn cycle_code(kind: RefGraph) -> u32 {
    match kind {
        RefGraph::Boolean => 2100,
        RefGraph::Component => 2107,
    }
}

/// The message of a cycle finding.
pub open spec fn ref_cycle_message(kind: RefGraph, id: u32) -> Seq<char> {
    match kind {
        RefGraph::Boolean => "Cycle detected in boolean operation graph involving object "@ + decimal(id as nat),
        RefGraph::Component => "Cycle detected in component graph involving object "@ + decimal(id as nat),
    }
}

/// The message of a boolean cycle finding.
pub open spec fn cycle_message(id: u32) -> Seq<char> {
    ref_cycle_message(RefGraph::Boolean, id)
}

/// Each finding reports a cycle of graph `kind` involving some node.
pub open spec fn ref_findings_ok(kind: RefGraph, objs: Seq<Object>, fs: Seq<Finding>) -> bool {
    forall|k: int| 0 <= k < fs.len() ==> exists|i: int| 0 <= i < objs.len() && is_node(kind, objs[i])
        && #[trigger] fs[k] == err(cycle_code(kind), ref_cycle_message(kind, objs[i].id.0))
}

/// Each finding reports a cycle involving some boolean shape.
pub open spec fn cycle_findings_ok(objs: Seq<Object>, fs: Seq<Finding>) -> bool {
    ref_findings_ok(RefGraph::Boolean, objs, fs)
}

/// Each finding reports a cycle involving some component object.
pub open spec fn component_cycle_findings_ok(objs: Seq<Object>, fs: Seq<Finding>) -> bool {
    ref_findings_ok(RefGraph::Component, objs, fs)
}

/// First index of an object with ID `id`.
fn first_index(objs: &[Object], id: u32) -> (r: Option<usize>)
    ensures
        match r {
            Some(k) => is_first_index(objs@, id, k as int),
            None => forall|j: int| 0 <= j < objs@.len() ==> objs@[j].id.0 != id,
        },
{
    let mut k: usize = 0;
    while k < objs.len()
        invariant
            k <= objs@.len(),
            forall|j: int| 0 <= j < k ==> objs@[j].id.0 != id,
        decreases objs@.len() - k,
    {
        if objs[k].id.0 == id {
            return Some(k);
        }
        k = k + 1;
    }
    None
}

/// Two first indices of one ID are the same index.
proof fn lemma_first_index_unique(objs: Seq<Object>, id: u32, a: int, b: int)
    requires
        is_first_index(objs, id, a),
        is_first_index(objs, id, b),
    ensures
        a == b,
{
    if a < b {
        assert(objs[a].id.0 != id);
    }
    if b < a {
        assert(objs[b].id.0 != id);
    }
}

/// Whether object `o` is a node of graph `kind`.
fn node_kind(kind: RefGraph, o: &Object) -> (r: bool)
    ensures
        r == is_node(kind, *o),
{
    match (kind, &o.geometry) {
        (RefGraph::Boolean, Geometry::BooleanShape(_)) => true,
        (RefGraph::Component, Geometry::Components(_)) => true,
        _ => false,
    }
}

/// Index of the node of graph `kind` that the reference `r` names, if it names one.
fn node_target(objs: &[Object], kind: RefGraph, r: u32) -> (res: Option<usize>)
    ensures
        match res {
            Some(j) => j < objs@.len() && is_first_index(objs@, r, j as int) && is_node(kind, objs@[j as int]),
            None => forall|j: int| #[trigger] is_first_index(objs@, r, j) ==> !is_node(kind, objs@[j]),
        },
{
    match first_index(objs, r) {
        Some(j) => {
            if node_kind(kind, &objs[j]) {
                Some(j)
            } else {
                proof {
                    assert forall|jj: int| #[trigger] is_first_index(objs@, r, jj) implies !is_node(kind, objs@[jj]) by {
                        lemma_first_index_unique(objs@, r, jj, j as int);
                    }
                }
                None
            }
        },
        None => None,
    }
}

/// Whether one of the first `n` references of `refs` names node `j`.
pub open spec fn named_within(objs: Seq<Object>, refs: Seq<Option<u32>>, n: int, j: int) -> bool {
    exists|k: int| 0 <= k < n && #[trigger] names(objs, refs, k, j)
}

/// Appends the target of `refs[k]` to `row`, keeping `row` equal to the targets of the
/// first `k + 1` references.
fn push_target(objs: &[Object], kind: RefGraph, refs: Ghost<Seq<Option<u32>>>, k: Ghost<int>, r: Option<u32>, row: &mut Vec<usize>)
    requires
        0 <= k@ < refs@.len(),
        refs@[k@] == r,
        forall|q: int| 0 <= q < old(row)@.len() ==> #[trigger] old(row)@[q] < objs@.len(),
        forall|j: int| 0 <= j < objs@.len() ==> (#[trigger] has_node(old(row)@, j) <==> (named_within(objs@, refs@, k@, j) && is_node(kind, objs@[j]))),
    ensures
        forall|q: int| 0 <= q < final(row)@.len() ==> #[trigger] final(row)@[q] < objs@.len(),
        forall|j: int| 0 <= j < objs@.len() ==> (#[trigger] has_node(final(row)@, j) <==> (named_within(objs@, refs@, k@ + 1, j) && is_node(kind, objs@[j]))),
{
    let n = objs.len();
    let ghost before = row@;
    let t = match r {
        Some(x) => node_target(objs, kind, x),
        None => None,
    };
    match t {
        Some(j) => {
            row.push(j);
            proof {
                let x = r->Some_0;
                assert forall|jj: int| 0 <= jj < objs@.len() implies (#[trigger] has_node(row@, jj) <==> (named_within(objs@, refs@, k@ + 1, jj) && is_node(kind, objs@[jj]))) by {
                    if has_node(row@, jj) {
                        let q = choose|q: int| 0 <= q < row@.len() && row@[q] == jj as usize;
                        if q < before.len() {
                            assert(before[q] == jj as usize);
                            assert(has_node(before, jj));
                            let kk = choose|kk: int| 0 <= kk < k@ && #[trigger] names(objs@, refs@, kk, jj);
                            assert(0 <= kk < k@ + 1 && names(objs@, refs@, kk, jj));
                        } else {
                            assert(row@[q] == j);
                            assert(jj < n);
                            assert(jj == j as int);
                            assert(names(objs@, refs@, k@, jj));
                        }
                    }
                    if named_within(objs@, refs@, k@ + 1, jj) && is_node(kind, objs@[jj]) {
                        let kk = choose|kk: int| 0 <= kk < k@ + 1 && #[trigger] names(objs@, refs@, kk, jj);
                        if kk < k@ {
                            assert(named_within(objs@, refs@, k@, jj));
                            assert(has_node(before, jj));
                            let q = choose|q: int| 0 <= q < before.len() && before[q] == jj as usize;
                            assert(row@[q] == jj as usize);
                        } else {
                            lemma_first_index_unique(objs@, x, jj, j as int);
                            assert(row@[row@.len() - 1] == jj as usize);
                        }
                    }
                }
                assert forall|q: int| 0 <= q < row@.len() implies #[trigger] row@[q] < objs@.len() by {
                    if q < before.len() {
                        assert(before[q] == row@[q]);
                    }
                }
            }
        },
        None => {
            proof {
                assert forall|jj: int| 0 <= jj < objs@.len() implies (#[trigger] has_node(row@, jj) <==> (named_within(objs@, refs@, k@ + 1, jj) && is_node(kind, objs@[jj]))) by {
                    if named_within(objs@, refs@, k@ + 1, jj) && is_node(kind, objs@[jj]) {
                        let kk = choose|kk: int| 0 <= kk < k@ + 1 && #[trigger] names(objs@, refs@, kk, jj);
                        if kk == k@ {
                            assert(is_first_index(objs@, r->Some_0, jj));
                        } else {
                            assert(named_within(objs@, refs@, k@, jj));
                        }
                    }
                    if has_node(row@, jj) {
                        let kk = choose|kk: int| 0 <= kk < k@ && #[trigger] names(objs@, refs@, kk, jj);
                        assert(0 <= kk < k@ + 1 && names(objs@, refs@, kk, jj));
                    }
                }
            }
        },
    }
}

/// The references of a node of graph `kind`, as [`node_refs`] lists them.
fn refs_of(kind: RefGraph, o: &Object) -> (v: Vec<Option<u32>>)
    ensures
        v@ == node_refs(kind, *o),
{
    let mut v: Vec<Option<u32>> = Vec::new();
    match (kind, &o.geometry) {
        (RefGraph::Boolean, Geometry::BooleanShape(bs)) => {
            v.push(Some(bs.base_object_id.0));
            let mut k: usize = 0;
            while k < bs.operations.len()
                invariant
                    k <= bs.operations@.len(),
                    v@ == seq![Some(bs.base_object_id.0)] + bs.operations@.take(k as int).map_values(|op: crate::model::mesh::BooleanOperation| Some(op.object_id.0)),
                decreases bs.operations@.len() - k,
            {
                v.push(Some(bs.operations[k].object_id.0));
                k = k + 1;
                proof {
                    assert(bs.operations@.take(k as int).drop_last() =~= bs.operations@.take(k - 1));
                    assert(v@ =~= seq![Some(bs.base_object_id.0)] + bs.operations@.take(k as int).map_values(|op: crate::model::mesh::BooleanOperation| Some(op.object_id.0)));
                }
            }
            proof {
                assert(bs.operations@.take(k as int) =~= bs.operations@);
            }
        },
        (RefGraph::Component, Geometry::Components(cs)) => {
            let mut k: usize = 0;
            while k < cs.components.len()
                invariant
                    k <= cs.components@.len(),
                    v@ == cs.components@.take(k as int).map_values(|c: crate::model::mesh::Component| if c.path is None { Some(c.object_id.0) } else { None }),
                decreases cs.components@.len() - k,
            {
                let c = &cs.components[k];
                let x = if c.path.is_none() { Some(c.object_id.0) } else { None };
                v.push(x);
                k = k + 1;
                proof {
                    assert(cs.components@.take(k as int).drop_last() =~= cs.components@.take(k - 1));
                    assert(v@ =~= cs.components@.take(k as int).map_values(|c: crate::model::mesh::Component| if c.path is None { Some(c.object_id.0) } else { None }));
                }
            }
            proof {
                assert(cs.components@.take(k as int) =~= cs.components@);
            }
        },
        _ => {
            proof {
                assert(v@ =~= node_refs(kind, *o));
            }
        },
    }
    v
}

/// The nodes of graph `kind` that object `i` refers to, by index.
fn node_neighbours(objs: &[Object], kind: RefGraph, i: usize) -> (row: Vec<usize>)
    requires
        i < objs@.len(),
    ensures
        forall|q: int| 0 <= q < row@.len() ==> #[trigger] row@[q] < objs@.len(),
        forall|j: int| 0 <= j < objs@.len() ==> (#[trigger] has_node(row@, j) <==> ref_edge(kind, objs@, i as int, j)),
{
    let mut row: Vec<usize> = Vec::new();
    if !node_kind(kind, &objs[i]) {
        proof {
            assert forall|j: int| 0 <= j < objs@.len() implies (#[trigger] has_node(row@, j) <==> ref_edge(kind, objs@, i as int, j)) by {
                if has_node(row@, j) {
                    assert(row@[0] == j as usize);
                }
            }
        }
        return row;
    }
    let refs = refs_of(kind, &objs[i]);
    let ghost rs = refs@;
    proof {
        assert forall|j: int| 0 <= j < objs@.len() implies (#[trigger] has_node(row@, j) <==> (named_within(objs@, rs, 0, j) && is_node(kind, objs@[j]))) by {
            if has_node(row@, j) {
                assert(row@[0] == j as usize);
            }
        }
    }
    let mut k: usize = 0;
    while k < refs.len()
        invariant
            i < objs@.len(),
            rs == refs@,
            rs == node_refs(kind, objs@[i as int]),
            k <= rs.len(),
            forall|q: int| 0 <= q < row@.len() ==> #[trigger] row@[q] < objs@.len(),
            forall|j: int| 0 <= j < objs@.len() ==> (#[trigger] has_node(row@, j) <==> (named_within(objs@, rs, k as int, j) && is_node(kind, objs@[j]))),
        decreases rs.len() - k,
    {
        push_target(objs, kind, Ghost(rs), Ghost(k as int), refs[k], &mut row);
        k = k + 1;
    }
    proof {
        assert forall|j: int| 0 <= j < objs@.len() implies (#[trigger] has_node(row@, j) <==> ref_edge(kind, objs@, i as int, j)) by {
            if ref_edge(kind, objs@, i as int, j) {
                let kk = choose|kk: int| 0 <= kk < node_refs(kind, objs@[i as int]).len() && #[trigger] names(objs@, node_refs(kind, objs@[i as int]), kk, j);
                assert(named_within(objs@, rs, k as int, j));
            }
            if has_node(row@, j) {
                let kk = choose|kk: int| 0 <= kk < k && #[trigger] names(objs@, rs, kk, j);
                assert(0 <= kk < node_refs(kind, objs@[i as int]).len() && names(objs@, node_refs(kind, objs@[i as int]), kk, j));
            }
        }
    }
    row
}

/// The reference graph `kind`, by object index.
fn reference_graph(objs: &[Object], kind: RefGraph) -> (adj: Vec<Vec<usize>>)
    ensures
        adj@.len() == objs@.len(),
        well_formed(lists(adj@)),
        forall|a: int, b: int| #[trigger] is_edge(lists(adj@), a, b) <==> ref_edge(kind, objs@, a, b),
{
    let mut adj: Vec<Vec<usize>> = Vec::new();
    let mut i: usize = 0;
    while i < objs.len()
        invariant
            i <= objs@.len(),
            adj@.len() == i,
            forall|a: int, q: int| 0 <= a < i && 0 <= q < adj@[a]@.len() ==> #[trigger] adj@[a]@[q] < objs@.len(),
            forall|a: int, j: int| 0 <= a < i && 0 <= j < objs@.len() ==> (#[trigger] has_node(adj@[a]@, j) <==> ref_edge(kind, objs@, a, j)),
        decreases objs@.len() - i,
    {
        let row = node_neighbours(objs, kind, i);
        adj.push(row);
        i = i + 1;
    }
    proof {
        let g = lists(adj@);
        assert forall|a: int, b: int| #[trigger] is_edge(g, a, b) <==> ref_edge(kind, objs@, a, b) by {
            if 0 <= a < g.len() && 0 <= b < g.len() {
                assert(g[a] == adj@[a]@);
                assert(has_node(adj@[a]@, b) == g[a].contains(b as usize));
            }
        }
        assert forall|a: int, k: int| 0 <= a < g.len() && 0 <= k < g[a].len() implies (#[trigger] g[a][k]) < g.len() by {
            assert(g[a] == adj@[a]@);
        }
    }
    adj
}

/// With the same edges, the reference graph has a cycle exactly when the adjacency graph
/// has one.
proof fn lemma_cycle_equiv(g: Seq<Seq<usize>>, kind: RefGraph, objs: Seq<Object>)
    requires
        forall|a: int, b: int| #[trigger] is_edge(g, a, b) <==> ref_edge(kind, objs, a, b),
    ensures
        has_cycle(g) <==> has_ref_cycle(kind, objs),
{
    if has_cycle(g) {
        let p = choose|p: Seq<int>| #[trigger] is_walk(g, p) && p.len() >= 2 && p[0] == p.last();
        assert forall|i: int| 0 <= i < p.len() - 1 implies #[trigger] ref_step(kind, objs, p, i) by {
            assert(step(g, p, i));
        }
    }
    if has_ref_cycle(kind, objs) {
        let p = choose|p: Seq<int>| p.len() >= 2 && p[0] == p.last()
            && forall|i: int| 0 <= i < p.len() - 1 ==> #[trigger] ref_step(kind, objs, p, i);
        assert forall|i: int| 0 <= i < p.len() - 1 implies #[trigger] step(g, p, i) by {
            assert(ref_step(kind, objs, p, i));
        }
        assert(is_walk(g, p));
    }
}

/// A vector of `n` copies of `false`.
fn falses(n: usize) -> (v: Vec<bool>)
    ensures
        v@.len() == n,
        forall|i: int| 0 <= i < n ==> !v@[i],
{
    let mut v: Vec<bool> = Vec::new();
    let mut i: usize = 0;
    while i < n
        invariant
            i <= n,
            v@.len() == i,
            forall|k: int| 0 <= k < i ==> !v@[k],
        decreases n - i,
    {
        v.push(false);
        i = i + 1;
    }
    v
}

/// The message of a cycle finding for the node with ID `id`.
fn cycle_text(kind: RefGraph, id: u32) -> (m: String)
    ensures
        m@ == ref_cycle_message(kind, id),
{
    let mut m = String::new();
    match kind {
        RefGraph::Boolean => append_num(&mut m, "Cycle detected in boolean operation graph involving object ", id as u64),
        RefGraph::Component => append_num(&mut m, "Cycle detected in component graph involving object ", id as u64),
    }
    proof {
        assert(m@ =~= ref_cycle_message(kind, id));
    }
    m
}

/// Reports cycles of the reference graph `kind`: one finding per search that found a cycle,
/// naming the node the search started from. Findings appear exactly when the nodes refer
/// to each other in a cycle.
pub fn validate_reference_cycles(kind: RefGraph, rc: &ResourceCollection, report: &mut ValidationReport)
    ensures
        exists|fs: Seq<Finding>| #[trigger] appended(old(report).items@, final(report).items@, fs)
            && ref_findings_ok(kind, rc.objects(), fs)
            && (fs.len() > 0 <==> has_ref_cycle(kind, rc.objects())),
{
    let objs = rc.iter_objects();
    let adj = reference_graph(objs, kind);
    let ghost g = lists(adj@);
    let n = objs.len();
    let mut visited = falses(n);
    let mut rec = falses(n);
    let mut finish: Ghost<Seq<int>> = Ghost(Seq::new(n as nat, |i: int| 0int));
    let mut clock: Ghost<int> = Ghost(0int);
    let ghost s0 = report.items@;
    let ghost mut fs: Seq<Finding> = Seq::empty();
    proof {
        lemma_appended_none(s0);
        assert(search_ok(g, visited@, rec@, finish@, clock@, Seq::empty()));
    }
    let mut i: usize = 0;
    while i < n
        invariant
            n == objs@.len(),
            objs@ == rc.objects(),
            g == lists(adj@),
            adj@.len() == n,
            well_formed(g),
            forall|a: int, b: int| #[trigger] is_edge(g, a, b) <==> ref_edge(kind, objs@, a, b),
            i <= n,
            visited@.len() == n,
            rec@.len() == n,
            finish@.len() == n,
            clock@ >= 0,
            forall|w: int| 0 <= w < n && rec@[w] ==> visited@[w],
            appended(s0, report.items@, fs),
            ref_findings_ok(kind, objs@, fs),
            fs.len() > 0 ==> has_cycle(g),
            fs.len() == 0 ==> search_ok(g, visited@, rec@, finish@, clock@, Seq::empty()),
            fs.len() == 0 ==> forall|w: int| 0 <= w < i && is_node(kind, objs@[w]) ==> visited@[w],
        decreases n - i,
    {
        let is_n = node_kind(kind, &objs[i]);
        if is_n && !visited[i] {
            let ghost vis_before = visited@;
            let found = has_cycle_dfs(&adj, i, &mut visited, &mut rec, &mut finish, &mut clock, Ghost(Seq::empty()));
            if found {
                let ghost mid = report.items@;
                let id = objs[i].id.0;
                let m = cycle_text(kind, id);
                let code: u32 = match kind {
                    RefGraph::Boolean => 2100,
                    RefGraph::Component => 2107,
                };
                report.add_error(code, m);
                proof {
                    let e = err(cycle_code(kind), ref_cycle_message(kind, id));
                    assert(appended(mid, report.items@, seq![e]));
                    lemma_appended_trans(s0, mid, report.items@, fs, seq![e]);
                    let nfs = fs + seq![e];
                    assert forall|k: int| 0 <= k < nfs.len() implies exists|w: int| 0 <= w < objs@.len() && is_node(kind, objs@[w])
                        && #[trigger] nfs[k] == err(cycle_code(kind), ref_cycle_message(kind, objs@[w].id.0)) by {
                        if k < fs.len() {
                            assert(nfs[k] == fs[k]);
                        } else {
                            assert(nfs[k] == err(cycle_code(kind), ref_cycle_message(kind, objs@[i as int].id.0)));
                        }
                    }
                    fs = nfs;
                }
            } else {
                proof {
                    if fs.len() == 0 {
                        assert forall|w: int| 0 <= w < i + 1 && is_node(kind, objs@[w]) implies visited@[w] by {
                            if w < i {
                                assert(vis_before[w]);
                            }
                        }
                    }
                }
            }
        }
        i = i + 1;
    }
    proof {
        lemma_cycle_equiv(g, kind, objs@);
        if fs.len() == 0 {
            assert forall|w: int| 0 <= w < g.len() && g[w].len() > 0 implies visited@[w] && !rec@[w] by {
                let v = g[w][0] as int;
                assert(g[w].contains(v as usize));
                assert(is_edge(g, w, v));
                assert(is_node(kind, objs@[w]));
            }
            lemma_all_finished_acyclic(g, visited@, rec@, finish@, clock@);
        }
        assert(appended(old(report).items@, report.items@, fs));
    }
}

/// Reports cycles among boolean shapes (see [`validate_reference_cycles`]).
pub fn validate_boolean_cycles(rc: &ResourceCollection, report: &mut ValidationReport)
    ensures
        exists|fs: Seq<Finding>| #[trigger] appended(old(report).items@, final(report).items@, fs)
            && cycle_findings_ok(rc.objects(), fs)
            && (fs.len() > 0 <==> has_boolean_cycle(rc.objects())),
{
    validate_reference_cycles(RefGraph::Boolean, rc, report);
}

/// Reports cycles among component objects of the part (see [`validate_reference_cycles`]).
pub fn validate_component_cycles(rc: &ResourceCollection, report: &mut ValidationReport)
    ensures
        exists|fs: Seq<Finding>| #[trigger] appended(old(report).items@, final(report).items@, fs)
            && component_cycle_findings_ok(rc.objects(), fs)
            && (fs.len() > 0 <==> has_component_cycle(rc.objects())),
{
    validate_reference_cycles(RefGraph::Component, rc, report);
}

/// Findings of the per-object reference checks, object by object.
pub open spec fn objects_findings(rc: ResourceCollection) -> Seq<Finding> {
    concat_upto(rc.objects().len(), |k: int| object_findings(rc, rc.objects()[k]))
}

/// Runs the reference and material checks: build references, boolean cycles, component
/// cycles, material rules, metadata, then each object's references, appending the findings
/// in that order.
pub fn validate_semantic(model: &Model, report: &mut ValidationReport)
    ensures
        exists|cf: Seq<Finding>, cc: Seq<Finding>| #[trigger] appended(old(report).items@, final(report).items@,
            build_reference_findings(*model) + cf + cc + material_findings(*model) + metadata_findings(*model)
                + objects_findings(model.resources))
            && cycle_findings_ok(model.resources.objects(), cf)
            && (cf.len() > 0 <==> has_boolean_cycle(model.resources.objects()))
            && component_cycle_findings_ok(model.resources.objects(), cc)
            && (cc.len() > 0 <==> has_component_cycle(model.resources.objects())),
        forall|k: int| old(report).items@.len() <= k < final(report).items@.len()
            ==> (#[trigger] final(report).items@[k]).severity == ValidationSeverity::Error,
{
    let ghost s0 = report.items@;
    validate_build_references(model, report);
    let ghost s1 = report.items@;
    validate_boolean_cycles(&model.resources, report);
    let ghost s2a = report.items@;
    let ghost cf = choose|fs: Seq<Finding>| #[trigger] appended(s1, s2a, fs)
        && cycle_findings_ok(model.resources.objects(), fs)
        && (fs.len() > 0 <==> has_boolean_cycle(model.resources.objects()));
    validate_component_cycles(&model.resources, report);
    let ghost s2 = report.items@;
    let ghost cc = choose|fs: Seq<Finding>| #[trigger] appended(s2a, s2, fs)
        && component_cycle_findings_ok(model.resources.objects(), fs)
        && (fs.len() > 0 <==> has_component_cycle(model.resources.objects()));
    validate_material_constraints(model, report);
    let ghost s3 = report.items@;
    validate_metadata(model, report);
    let ghost s4 = report.items@;
    let rc = &model.resources;
    let objs = rc.iter_objects();
    let ghost f = |k: int| object_findings(*rc, rc.objects()[k]);
    proof { lemma_appended_none(s4); }
    let mut i: usize = 0;
    while i < objs.len()
        invariant
            objs@ == rc.objects(),
            i <= objs@.len(),
            f == (|k: int| object_findings(*rc, rc.objects()[k])),
            appended(s4, report.items@, concat_upto(i as nat, f)),
        decreases objs@.len() - i,
    {
        let ghost mid = report.items@;
        check_object_references(rc, &objs[i], report);
        proof { lemma_appended_step(s4, mid, report.items@, i as nat, f); }
        i = i + 1;
    }
    proof {
        let b = build_reference_findings(*model);
        let m = material_findings(*model);
        let d = metadata_findings(*model);
        let o = objects_findings(model.resources);
        lemma_appended_trans(s0, s1, s2a, b, cf);
        lemma_appended_trans(s0, s2a, s2, b + cf, cc);
        lemma_appended_trans(s0, s2, s3, b + cf + cc, m);
        lemma_appended_trans(s0, s3, s4, b + cf + cc + m, d);
        lemma_appended_trans(s0, s4, report.items@, b + cf + cc + m + d, o);
        lemma_semantic_findings_are_errors(*model, cf, cc);
        let all = b + cf + cc + m + d + o;
        assert forall|k: int| s0.len() <= k < report.items@.len() implies (#[trigger] report.items@[k]).severity == ValidationSeverity::Error by {
            let j = k - s0.len();
            assert(is_finding(report.items@[s0.len() + j], all[j].0, all[j].1, all[j].2));
            assert(all[j].0 == ValidationSeverity::Error);
        }
    }
}

// ---------------------------------------------------------------- severity

/// Whether every finding of `fs` is an error.
pub open spec fn all_errors(fs: Seq<Finding>) -> bool {
    forall|k: int| 0 <= k < fs.len() ==> (#[trigger] fs[k]).0 == ValidationSeverity::Error
}

proof fn lemma_join_errors(a: Seq<Finding>, b: Seq<Finding>)
    requires
        all_errors(a),
        all_errors(b),
    ensures
        all_errors(a + b),
{
    assert forall|k: int| 0 <= k < (a + b).len() implies (#[trigger] (a + b)[k]).0 == ValidationSeverity::Error by {
        if k < a.len() {
            assert((a + b)[k] == a[k]);
        } else {
            assert((a + b)[k] == b[k - a.len()]);
        }
    }
}

proof fn lemma_concat_errors(n: nat, f: spec_fn(int) -> Seq<Finding>)
    requires
        forall|k: int| 0 <= k < n ==> all_errors(#[trigger] f(k)),
    ensures
        all_errors(concat_upto(n, f)),
    decreases n,
{
    if n > 0 {
        lemma_concat_errors((n - 1) as nat, f);
        assert(all_errors(f(n - 1)));
        lemma_join_errors(concat_upto((n - 1) as nat, f), f(n - 1));
    }
}

proof fn lemma_one_error(code: u32, msg: Seq<char>)
    ensures
        all_errors(seq![err(code, msg)]),
        all_errors(Seq::<Finding>::empty()),
{
}

proof fn lemma_geometry_errors(rc: ResourceCollection, oid: u32, g: Geometry)
    ensures
        all_errors(geometry_findings(rc, oid, g)),
{
    match g {
        Geometry::Mesh(mesh) => {
            let f = |k: int| triangle_findings(rc, oid, mesh.vertices@.len(), mesh.triangles@[k], k);
            assert forall|k: int| 0 <= k < mesh.triangles@.len() implies all_errors(#[trigger] f(k)) by {
                let t = mesh.triangles@[k];
                let a: Seq<Finding> = if t.v1 >= mesh.vertices@.len() || t.v2 >= mesh.vertices@.len() || t.v3 >= mesh.vertices@.len() {
                    seq![err(3001, "Triangle "@ + decimal(k as nat) + " in Object "@ + decimal(oid as nat) + " references out-of-bounds vertex"@)]
                } else {
                    Seq::empty()
                };
                let b: Seq<Finding> = match t.pid {
                    Some(p) => if !rc.spec_exists(p) {
                        seq![err(2002, "Triangle "@ + decimal(k as nat) + " in Object "@ + decimal(oid as nat) + " references non-existent property group "@ + decimal(p as nat))]
                    } else {
                        Seq::empty()
                    },
                    None => Seq::empty(),
                };
                assert(all_errors(a));
                assert(all_errors(b));
                lemma_join_errors(a, b);
            }
            lemma_concat_errors(mesh.triangles@.len(), f);
        },
        Geometry::Components(c) => {
            let f = |k: int| component_findings(rc, oid, c.components@[k]);
            assert forall|k: int| 0 <= k < c.components@.len() implies all_errors(#[trigger] f(k)) by {}
            lemma_concat_errors(c.components@.len(), f);
        },
        Geometry::BooleanShape(bs) => {
            let f1 = |k: int| boolean_op_findings(rc, oid, k, bs.operations@[k].object_id.0);
            let f2 = |k: int| if !transform_finite(bs.operations@[k].transform) {
                seq![err(2105, "BooleanShape "@ + decimal(oid as nat) + " operation "@ + decimal(k as nat) + " has invalid transformation matrix (contains NaN or Infinity)"@)]
            } else {
                Seq::empty()
            };
            assert forall|k: int| 0 <= k < bs.operations@.len() implies all_errors(#[trigger] f1(k)) by {}
            assert forall|k: int| 0 <= k < bs.operations@.len() implies all_errors(#[trigger] f2(k)) by {}
            lemma_concat_errors(bs.operations@.len(), f1);
            lemma_concat_errors(bs.operations@.len(), f2);
            let base = boolean_base_findings(rc, oid, bs.base_object_id.0);
            let mid: Seq<Finding> = if !transform_finite(bs.base_transform) {
                seq![err(2106, "BooleanShape "@ + decimal(oid as nat) + " has invalid base transformation matrix (contains NaN or Infinity)"@)]
            } else {
                Seq::empty()
            };
            assert(all_errors(base));
            assert(all_errors(mid));
            lemma_join_errors(base, concat_upto(bs.operations@.len(), f1));
            lemma_join_errors(base + concat_upto(bs.operations@.len(), f1), mid);
            lemma_join_errors(base + concat_upto(bs.operations@.len(), f1) + mid, concat_upto(bs.operations@.len(), f2));
        },
        _ => {},
    }
}

proof fn lemma_multi_errors(rc: ResourceCollection, id: u32, pids: Seq<ResourceId>)
    ensures
        all_errors(multi_findings(rc, id, pids)),
{
    let n = pids.len();
    let head = "MultiProperties "@ + decimal(id as nat);
    let f = |k: int| if property_class(rc, pids[k].0) == 4 {
        seq![err(2024, head + " references another multiproperties "@ + decimal(pids[k].0 as nat) + " (not allowed)"@)]
    } else {
        Seq::empty()
    };
    assert forall|k: int| 0 <= k < n implies all_errors(#[trigger] f(k)) by {}
    lemma_concat_errors(n, f);
    let m = multi_findings(rc, id, pids);
    assert forall|k: int| 0 <= k < m.len() implies (#[trigger] m[k]).0 == ValidationSeverity::Error by {
        let bm = class_count(rc, pids, n, 0);
        let cg = class_count(rc, pids, n, 1);
        let tx = class_count(rc, pids, n, 2);
        let cm = class_count(rc, pids, n, 3);
        let a: Seq<Finding> = if bm > 1 { seq![err(2020, head + " references basematerials "@ + decimal(bm) + " times (maximum 1 allowed)"@)] } else { Seq::empty() };
        let b: Seq<Finding> = if cg > 1 { seq![err(2021, head + " references colorgroup "@ + decimal(cg) + " times (maximum 1 allowed)"@)] } else { Seq::empty() };
        let c: Seq<Finding> = if tx > 1 { seq![err(2022, head + " references texture2dgroup "@ + decimal(tx) + " times (maximum 1 allowed)"@)] } else { Seq::empty() };
        let d: Seq<Finding> = if cm > 1 { seq![err(2023, head + " references compositematerials "@ + decimal(cm) + " times (maximum 1 allowed)"@)] } else { Seq::empty() };
        let e: Seq<Finding> = if bm > 0 && cm > 0 { seq![err(2025, head + " references both basematerials and compositematerials (only one material type allowed)"@)] } else { Seq::empty() };
        assert(all_errors(a) && all_errors(b) && all_errors(c) && all_errors(d) && all_errors(e));
        lemma_join_errors(a, b);
        lemma_join_errors(a + b, c);
        lemma_join_errors(a + b + c, d);
        lemma_join_errors(a + b + c + d, e);
        lemma_join_errors(a + b + c + d + e, concat_upto(n, f));
        assert(m == a + b + c + d + e + concat_upto(n, f));
    }
}

/// Every finding of the reference and material checks (given the findings of the cycle
/// searches) is an error.
pub proof fn lemma_semantic_findings_are_errors(m: Model, cf: Seq<Finding>, cc: Seq<Finding>)
    requires
        cycle_findings_ok(m.resources.objects(), cf),
        component_cycle_findings_ok(m.resources.objects(), cc),
    ensures
        all_errors(build_reference_findings(m) + cf + cc + material_findings(m) + metadata_findings(m) + objects_findings(m.resources)),
{
    let rc = m.resources;
    let fb = |k: int| build_item_findings(m.resources, k, m.build.items@[k].object_id.0);
    assert forall|k: int| 0 <= k < m.build.items@.len() implies all_errors(#[trigger] fb(k)) by {}
    lemma_concat_errors(m.build.items@.len(), fb);
    assert forall|k: int| 0 <= k < cf.len() implies (#[trigger] cf[k]).0 == ValidationSeverity::Error by {
        let i = choose|i: int| 0 <= i < rc.objects().len() && is_node(RefGraph::Boolean, rc.objects()[i])
            && cf[k] == err(cycle_code(RefGraph::Boolean), ref_cycle_message(RefGraph::Boolean, rc.objects()[i].id.0));
    }
    assert forall|k: int| 0 <= k < cc.len() implies (#[trigger] cc[k]).0 == ValidationSeverity::Error by {
        let i = choose|i: int| 0 <= i < rc.objects().len() && is_node(RefGraph::Component, rc.objects()[i])
            && cc[k] == err(cycle_code(RefGraph::Component), ref_cycle_message(RefGraph::Component, rc.objects()[i].id.0));
    }
    let f1 = |k: int| pindex_findings(rc.objects()[k]);
    let f2 = |k: int| composite_findings(rc, rc.composite_materials()[k].id.0, rc.composite_materials()[k].base_material_id.0);
    let f3 = |k: int| multi_findings(rc, rc.multi_properties()[k].id.0, rc.multi_properties()[k].pids@);
    assert forall|k: int| 0 <= k < rc.objects().len() implies all_errors(#[trigger] f1(k)) by {}
    assert forall|k: int| 0 <= k < rc.composite_materials().len() implies all_errors(#[trigger] f2(k)) by {}
    assert forall|k: int| 0 <= k < rc.multi_properties().len() implies all_errors(#[trigger] f3(k)) by {
        lemma_multi_errors(rc, rc.multi_properties()[k].id.0, rc.multi_properties()[k].pids@);
    }
    lemma_concat_errors(rc.objects().len(), f1);
    lemma_concat_errors(rc.composite_materials().len(), f2);
    lemma_concat_errors(rc.multi_properties().len(), f3);
    lemma_join_errors(concat_upto(rc.objects().len(), f1), concat_upto(rc.composite_materials().len(), f2));
    lemma_join_errors(concat_upto(rc.objects().len(), f1) + concat_upto(rc.composite_materials().len(), f2), concat_upto(rc.multi_properties().len(), f3));
    let fm = |k: int| metadata_entry_findings(m.metadata@, k);
    assert forall|k: int| 0 <= k < m.metadata@.len() implies all_errors(#[trigger] fm(k)) by {
        let md = m.metadata@;
        let a: Seq<Finding> = if md[k].0@.len() == 0 {
            seq![err(2040, "Metadata entry has empty name (name attribute is required)"@)]
        } else {
            Seq::empty()
        };
        let b: Seq<Finding> = if exists|j: int| 0 <= j < k && md[j].0@ == md[k].0@ {
            seq![err(2041, "Metadata name '"@ + md[k].0@ + "' is duplicated (names must be unique)"@)]
        } else {
            Seq::empty()
        };
        assert(all_errors(a) && all_errors(b));
        lemma_join_errors(a, b);
    }
    lemma_concat_errors(m.metadata@.len(), fm);
    let fo = |k: int| object_findings(rc, rc.objects()[k]);
    assert forall|k: int| 0 <= k < rc.objects().len() implies all_errors(#[trigger] fo(k)) by {
        let o = rc.objects()[k];
        let a: Seq<Finding> = match o.pid {
            Some(p) => if !rc.spec_exists(p.0) {
                seq![err(2001, "Object "@ + decimal(o.id.0 as nat) + " references non-existent property group "@ + decimal(p.0 as nat))]
            } else {
                Seq::empty()
            },
            None => Seq::empty(),
        };
        assert(all_errors(a));
        lemma_geometry_errors(rc, o.id.0, o.geometry);
        lemma_join_errors(a, geometry_findings(rc, o.id.0, o.geometry));
    }
    lemma_concat_errors(rc.objects().len(), fo);
    let b = build_reference_findings(m);
    let mt = material_findings(m);
    let d = metadata_findings(m);
    let o = objects_findings(rc);
    lemma_join_errors(b, cf);
    lemma_join_errors(b + cf, cc);
    lemma_join_errors(b + cf + cc, mt);
    lemma_join_errors(b + cf + cc + mt, d);
    lemma_join_errors(b + cf + cc + mt + d, o);
}

} // verus!
