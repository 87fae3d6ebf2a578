//! Displacement extension checks: texture resources and displacement meshes.

use vstd::prelude::*;
use crate::model::core_model::Model;
use crate::model::materials::Displacement2D;
use crate::model::mesh::{bits_finite, is_finite_bits, DisplacementMesh, DisplacementTriangle, Geometry, GradientVector, NormalVector, Object};
use crate::model::resources::{first_with, ResourceCollection, ResourceId};
use crate::text::{append_num, decimal};
use crate::validation::geometry::{note, warn};
use crate::validation::report::{
    appended, concat_upto, findings_within, lemma_appended_none, lemma_appended_step, lemma_appended_trans,
    lemma_within_concat_upto, lemma_within_empty, lemma_within_gate, lemma_within_join, lemma_within_refl,
    Finding, ValidationReport, ValidationSeverity,
};
use crate::validation::semantic::err;
use crate::validation::{level_rank, ValidationLevel};

verus! {

/// How a non-finite single-precision value prints: `NaN`, `inf` or `-inf`.
pub open spec fn nonfinite_text(b: u32) -> Seq<char> {
    if b % 0x80_0000 != 0 {
        "NaN"@
    } else if b >= 0x8000_0000 {
        "-inf"@
    } else {
        "inf"@
    }
}

/// The printed form of a non-finite single-precision value.
pub fn nonfinite_string(b: u32) -> (s: String)
    ensures
        s@ == nonfinite_text(b),
{
    if b % 0x80_0000 != 0 {
        String::from_str("NaN")
    } else if b >= 0x8000_0000 {
        String::from_str("-inf")
    } else {
        String::from_str("inf")
    }
}

/// Whether some attachment is stored under `path`.
pub open spec fn has_attachment(atts: Seq<(String, Vec<u8>)>, path: Seq<char>) -> bool {
    exists|k: int| 0 <= k < atts.len() && (#[trigger] atts[k]).0@ == path
}

fn find_attachment(atts: &Vec<(String, Vec<u8>)>, path: &String) -> (r: bool)
    ensures
        r == has_attachment(atts@, path@),
{
    let mut k: usize = 0;
    while k < atts.len()
        invariant
            k <= atts@.len(),
            forall|j: int| 0 <= j < k ==> (#[trigger] atts@[j]).0@ != path@,
        decreases atts@.len() - k,
    {
        if atts[k].0 == *path {
            proof { assert(atts@[k as int].0@ == path@); }
            return true;
        }
        k = k + 1;
    }
    false
}

/// Findings for one displacement texture.
pub open spec fn texture_findings(atts: Seq<(String, Vec<u8>)>, res: Displacement2D, rank: nat) -> Seq<Finding> {
    let id = decimal(res.id.0 as nat);
    (if rank >= 1 && res.path@.len() == 0 {
        seq![err(5001, "Displacement2D resource "@ + id + " has empty path"@)]
    } else {
        Seq::empty()
    }) + (if rank >= 1 && res.path@.len() > 0 && !has_attachment(atts, res.path@) {
        seq![warn(5002, "Displacement2D resource "@ + id + " references non-existent attachment '"@ + res.path@ + "'"@)]
    } else {
        Seq::empty()
    }) + (if rank >= 3 && !bits_finite(res.height) {
        seq![err(5003, "Displacement2D resource "@ + id + " has non-finite height: "@ + nonfinite_text(res.height))]
    } else {
        Seq::empty()
    }) + (if rank >= 3 && !bits_finite(res.offset) {
        seq![err(5004, "Displacement2D resource "@ + id + " has non-finite offset: "@ + nonfinite_text(res.offset))]
    } else {
        Seq::empty()
    })
}

/// Findings for all displacement textures, in insertion order.
pub open spec fn textures_findings(m: Model, rank: nat) -> Seq<Finding> {
    concat_upto(m.resources.displacement_2d().len(), |k: int| texture_findings(m.attachments@, m.resources.displacement_2d()[k], rank))
}

fn check_texture(atts: &Vec<(String, Vec<u8>)>, res: &Displacement2D, rank: u8, report: &mut ValidationReport)
    ensures
        appended(old(report).items@, final(report).items@, texture_findings(atts@, *res, rank as nat)),
{
    let ghost s0 = report.items@;
    let ghost id = decimal(res.id.0 as nat);
    let empty = res.path.as_str().unicode_len() == 0;
    if rank >= 1 && empty {
        let mut m = String::new();
        append_num(&mut m, "Displacement2D resource ", res.id.0 as u64);
        m.append(" has empty path");
        report.add_error(5001, m);
    } else {
        proof { lemma_appended_none(s0); }
    }
    let ghost s1 = report.items@;
    let ghost g0: Seq<Finding> = if rank >= 1 && res.path@.len() == 0 {
        seq![err(5001, "Displacement2D resource "@ + id + " has empty path"@)]
    } else {
        Seq::empty()
    };
    proof {
        if rank >= 1 && res.path@.len() == 0 {
            assert(g0 =~= seq![(ValidationSeverity::Error, 5001u32, Seq::<char>::empty() + "Displacement2D resource "@ + id + " has empty path"@)]);
        }
    }
    if rank >= 1 && !empty && !find_attachment(atts, &res.path) {
        let mut m = String::new();
        append_num(&mut m, "Displacement2D resource ", res.id.0 as u64);
        m.append(" references non-existent attachment '");
        m.append(res.path.as_str());
        m.append("'");
        report.add_warning(5002, m);
        proof {
            assert(m@ =~= "Displacement2D resource "@ + id + " references non-existent attachment '"@ + res.path@ + "'"@);
        }
    } else {
        proof { lemma_appended_none(s1); }
    }
    let ghost s2 = report.items@;
    let ghost g1: Seq<Finding> = if rank >= 1 && res.path@.len() > 0 && !has_attachment(atts@, res.path@) {
        seq![warn(5002, "Displacement2D resource "@ + id + " references non-existent attachment '"@ + res.path@ + "'"@)]
    } else {
        Seq::empty()
    };
    if rank >= 3 && !is_finite_bits(res.height) {
        let mut m = String::new();
        append_num(&mut m, "Displacement2D resource ", res.id.0 as u64);
        m.append(" has non-finite height: ");
        let t = nonfinite_string(res.height);
        m.append(t.as_str());
        report.add_error(5003, m);
        proof {
            assert(m@ =~= "Displacement2D resource "@ + id + " has non-finite height: "@ + nonfinite_text(res.height));
        }
    } else {
        proof { lemma_appended_none(s2); }
    }
    let ghost s3 = report.items@;
    let ghost g2: Seq<Finding> = if rank >= 3 && !bits_finite(res.height) {
        seq![err(5003, "Displacement2D resource "@ + id + " has non-finite height: "@ + nonfinite_text(res.height))]
    } else {
        Seq::empty()
    };
    if rank >= 3 && !is_finite_bits(res.offset) {
        let mut m = String::new();
        append_num(&mut m, "Displacement2D resource ", res.id.0 as u64);
        m.append(" has non-finite offset: ");
        let t = nonfinite_string(res.offset);
        m.append(t.as_str());
        report.add_error(5004, m);
        proof {
            assert(m@ =~= "Displacement2D resource "@ + id + " has non-finite offset: "@ + nonfinite_text(res.offset));
        }
    } else {
        proof { lemma_appended_none(s3); }
    }
    let ghost g3: Seq<Finding> = if rank >= 3 && !bits_finite(res.offset) {
        seq![err(5004, "Displacement2D resource "@ + id + " has non-finite offset: "@ + nonfinite_text(res.offset))]
    } else {
        Seq::empty()
    };
    proof {
        lemma_appended_trans(s0, s1, s2, g0, g1);
        lemma_appended_trans(s0, s2, s3, g0 + g1, g2);
        lemma_appended_trans(s0, s3, report.items@, g0 + g1 + g2, g3);
    }
}

/// Checks the displacement textures: paths at the Standard level, finite parameters at the
/// Paranoid level.
fn validate_displacement_resources(model: &Model, rank: u8, report: &mut ValidationReport)
    ensures
        appended(old(report).items@, final(report).items@, textures_findings(*model, rank as nat)),
{
    let ts = model.resources.iter_displacement_2d();
    let ghost s0 = report.items@;
    let ghost f = |k: int| texture_findings(model.attachments@, model.resources.displacement_2d()[k], rank as nat);
    proof { lemma_appended_none(s0); }
    let mut i: usize = 0;
    while i < ts.len()
        invariant
            ts@ == model.resources.displacement_2d(),
            i <= ts@.len(),
            f == (|k: int| texture_findings(model.attachments@, model.resources.displacement_2d()[k], rank as nat)),
            appended(s0, report.items@, concat_upto(i as nat, f)),
        decreases ts@.len() - i,
    {
        let ghost mid = report.items@;
        check_texture(&model.attachments, &ts[i], rank, report);
        proof { lemma_appended_step(s0, mid, report.items@, i as nat, f); }
        i = i + 1;
    }
}

/// Whether a displacement triangle names a vertex at or past `n`.
pub open spec fn out_of_bounds(t: DisplacementTriangle, n: nat) -> bool {
    t.v1 >= n || t.v2 >= n || t.v3 >= n
}

/// Findings on the shape of a displacement mesh: vertices, triangles, normal count, indices.
pub open spec fn dm_structure_findings(mesh: DisplacementMesh, oid: u32) -> Seq<Finding> {
    let o = decimal(oid as nat);
    let nv = mesh.vertices@.len();
    (if nv == 0 { seq![err(5010, "DisplacementMesh object "@ + o + " has no vertices"@)] } else { Seq::empty() })
        + (if mesh.triangles@.len() == 0 { seq![err(5011, "DisplacementMesh object "@ + o + " has no triangles"@)] } else { Seq::empty() })
        + (if mesh.normals@.len() != nv {
            seq![err(5012, "Object "@ + o + " has "@ + decimal(nv) + " vertices but "@ + decimal(mesh.normals@.len()) + " normals"@)]
        } else {
            Seq::empty()
        })
        + concat_upto(mesh.triangles@.len(), |i: int| if out_of_bounds(mesh.triangles@[i], nv) {
            seq![err(5013, "Triangle "@ + decimal(i as nat) + " in object "@ + o + " has out-of-bounds vertex index"@)]
        } else {
            Seq::empty()
        })
}

/// The finding for a displacement coordinate reference that names no texture.
pub open spec fn d_index_findings(rc: ResourceCollection, oid: u32, i: int, d: Option<u32>) -> Seq<Finding> {
    match d {
        Some(x) => if first_with(rc.displacement_2d(), x) is None {
            seq![err(5014, "Triangle "@ + decimal(i as nat) + " in object "@ + decimal(oid as nat)
                + " references non-existent displacement texture "@ + decimal(x as nat))]
        } else {
            Seq::empty()
        },
        None => Seq::empty(),
    }
}

/// Findings on references: texture indices of each triangle, and the gradient count.
pub open spec fn dm_reference_findings(mesh: DisplacementMesh, oid: u32, rc: ResourceCollection) -> Seq<Finding> {
    concat_upto(mesh.triangles@.len(), |i: int| d_index_findings(rc, oid, i, mesh.triangles@[i].d1)
        + d_index_findings(rc, oid, i, mesh.triangles@[i].d2) + d_index_findings(rc, oid, i, mesh.triangles@[i].d3))
        + gradient_count_findings(mesh, oid)
}

/// The finding for a gradient count that differs from the vertex count.
pub open spec fn gradient_count_findings(mesh: DisplacementMesh, oid: u32) -> Seq<Finding> {
    match mesh.gradients {
        Some(g) => if g@.len() != mesh.vertices@.len() {
            seq![err(5015, "Object "@ + decimal(oid as nat) + " has "@ + decimal(mesh.vertices@.len()) + " vertices but "@
                + decimal(g@.len()) + " gradient vectors"@)]
        } else {
            Seq::empty()
        },
        None => Seq::empty(),
    }
}

/// Whether all components of a normal are finite.
pub open spec fn normal_finite(n: NormalVector) -> bool {
    bits_finite(n.nx) && bits_finite(n.ny) && bits_finite(n.nz)
}

/// Whether both components of a gradient are finite.
pub open spec fn gradient_finite(g: GradientVector) -> bool {
    bits_finite(g.gu) && bits_finite(g.gv)
}

/// Findings on the normals: non-finite components, else a length away from one (as measured
/// by the caller, with its printed form).
pub open spec fn normal_findings(oid: u32, normals: Seq<NormalVector>, lengths: Seq<Option<String>>) -> Seq<Finding> {
    concat_upto(normals.len(), |i: int| if !normal_finite(normals[i]) {
        seq![err(5020, "Normal "@ + decimal(i as nat) + " in object "@ + decimal(oid as nat) + " contains non-finite values"@)]
    } else {
        match lengths[i] {
            Some(t) => seq![warn(5021, "Normal "@ + decimal(i as nat) + " in object "@ + decimal(oid as nat)
                + " is not unit length (length: "@ + t@ + ")"@)],
            None => Seq::empty(),
        }
    })
}

/// Findings on gradients: non-finite components, then one note that orthogonality was not
/// checked when the first normal and gradient are finite.
pub open spec fn gradient_findings(oid: u32, normals: Seq<NormalVector>, grads: Seq<GradientVector>) -> Seq<Finding> {
    concat_upto(grads.len(), |i: int| if !gradient_finite(grads[i]) {
        seq![err(5022, "Gradient "@ + decimal(i as nat) + " in object "@ + decimal(oid as nat) + " contains non-finite values"@)]
    } else {
        Seq::empty()
    }) + (if normals.len() > 0 && grads.len() > 0 && normal_finite(normals[0]) && gradient_finite(grads[0]) {
        seq![note(5023, "Object "@ + decimal(oid as nat) + " has gradient vectors (orthogonality not verified)"@)]
    } else {
        Seq::empty()
    })
}

/// Findings on the gradients, when the mesh has them.
pub open spec fn opt_gradient_findings(oid: u32, normals: Seq<NormalVector>, g: Option<Vec<GradientVector>>) -> Seq<Finding> {
    match g {
        Some(g) => gradient_findings(oid, normals, g@),
        None => Seq::empty(),
    }
}

/// All findings for one displacement mesh at a level of the given rank.
pub open spec fn dm_findings(mesh: DisplacementMesh, oid: u32, rank: nat, rc: ResourceCollection, lengths: Seq<Option<String>>) -> Seq<Finding> {
    dm_structure_findings(mesh, oid)
        + (if rank >= 1 { dm_reference_findings(mesh, oid, rc) } else { Seq::empty() })
        + (if rank >= 3 {
            normal_findings(oid, mesh.normals@, lengths) + opt_gradient_findings(oid, mesh.normals@, mesh.gradients)
        } else {
            Seq::empty()
        })
}

fn check_dm_structure(mesh: &DisplacementMesh, oid: u32, report: &mut ValidationReport)
    ensures
        appended(old(report).items@, final(report).items@, dm_structure_findings(*mesh, oid)),
{
    let ghost s0 = report.items@;
    let ghost o = decimal(oid as nat);
    let nv = mesh.vertices.len();
    if nv == 0 {
        let mut m = String::new();
        append_num(&mut m, "DisplacementMesh object ", oid as u64);
        m.append(" has no vertices");
        report.add_error(5010, m);
    } else {
        proof { lemma_appended_none(s0); }
    }
    let ghost s1 = report.items@;
    let ghost g0: Seq<Finding> = if nv == 0 { seq![err(5010, "DisplacementMesh object "@ + o + " has no vertices"@)] } else { Seq::empty() };
    proof {
        if nv == 0 {
            assert(g0 =~= seq![(ValidationSeverity::Error, 5010u32, Seq::<char>::empty() + "DisplacementMesh object "@ + o + " has no vertices"@)]);
        }
    }
    if mesh.triangles.len() == 0 {
        let mut m = String::new();
        append_num(&mut m, "DisplacementMesh object ", oid as u64);
        m.append(" has no triangles");
        report.add_error(5011, m);
    } else {
        proof { lemma_appended_none(s1); }
    }
    let ghost s2 = report.items@;
    let ghost g1: Seq<Finding> = if mesh.triangles@.len() == 0 { seq![err(5011, "DisplacementMesh object "@ + o + " has no triangles"@)] } else { Seq::empty() };
    proof {
        if mesh.triangles@.len() == 0 {
            assert(g1 =~= seq![(ValidationSeverity::Error, 5011u32, Seq::<char>::empty() + "DisplacementMesh object "@ + o + " has no triangles"@)]);
        }
    }
    if mesh.normals.len() != nv {
        let mut m = String::new();
        append_num(&mut m, "Object ", oid as u64);
        append_num(&mut m, " has ", nv as u64);
        append_num(&mut m, " vertices but ", mesh.normals.len() as u64);
        m.append(" normals");
        report.add_error(5012, m);
    } else {
        proof { lemma_appended_none(s2); }
    }
    let ghost s3 = report.items@;
    let ghost g2: Seq<Finding> = if mesh.normals@.len() != nv {
        seq![err(5012, "Object "@ + o + " has "@ + decimal(nv as nat) + " vertices but "@ + decimal(mesh.normals@.len()) + " normals"@)]
    } else {
        Seq::empty()
    };
    proof {
        if mesh.normals@.len() != nv {
            assert(g2 =~= seq![(ValidationSeverity::Error, 5012u32, Seq::<char>::empty() + "Object "@ + o + " has "@ + decimal(nv as nat) + " vertices but "@ + decimal(mesh.normals@.len()) + " normals"@)]);
        }
    }
    let ghost f = |i: int| if out_of_bounds(mesh.triangles@[i], nv as nat) {
        seq![err(5013, "Triangle "@ + decimal(i as nat) + " in object "@ + o + " has out-of-bounds vertex index"@)]
    } else {
        Seq::<Finding>::empty()
    };
    proof { lemma_appended_none(s3); }
    let mut i: usize = 0;
    while i < mesh.triangles.len()
        invariant
            nv == mesh.vertices@.len(),
            o == decimal(oid as nat),
            i <= mesh.triangles@.len(),
            f == (|i: int| if out_of_bounds(mesh.triangles@[i], nv as nat) {
                seq![err(5013, "Triangle "@ + decimal(i as nat) + " in object "@ + o + " has out-of-bounds vertex index"@)]
            } else {
                Seq::<Finding>::empty()
            }),
            appended(s3, report.items@, concat_upto(i as nat, f)),
        decreases mesh.triangles@.len() - i,
    {
        let ghost mid = report.items@;
        let t = &mesh.triangles[i];
        if t.v1 as usize >= nv || t.v2 as usize >= nv || t.v3 as usize >= nv {
            let mut m = String::new();
            append_num(&mut m, "Triangle ", i as u64);
            append_num(&mut m, " in object ", oid as u64);
            m.append(" has out-of-bounds vertex index");
            report.add_error(5013, m);
            proof {
                assert(f(i as int) =~= seq![(ValidationSeverity::Error, 5013u32, m@)]);
            }
        } else {
            proof { lemma_appended_none(mid); }
        }
        proof { lemma_appended_step(s3, mid, report.items@, i as nat, f); }
        i = i + 1;
    }
    proof {
        lemma_appended_trans(s0, s1, s2, g0, g1);
        lemma_appended_trans(s0, s2, s3, g0 + g1, g2);
        lemma_appended_trans(s0, s3, report.items@, g0 + g1 + g2, concat_upto(mesh.triangles@.len(), f));
    }
}

/// Reports a displacement coordinate reference that names no texture.
pub fn validate_displacement_index(oid: ResourceId, tri_idx: usize, d_index: u32, resources: &ResourceCollection, report: &mut ValidationReport)
    ensures
        appended(old(report).items@, final(report).items@, d_index_findings(*resources, oid.0, tri_idx as int, Some(d_index))),
{
    if resources.get_displacement_2d(ResourceId(d_index)).is_none() {
        let mut m = String::new();
        append_num(&mut m, "Triangle ", tri_idx as u64);
        append_num(&mut m, " in object ", oid.0 as u64);
        append_num(&mut m, " references non-existent displacement texture ", d_index as u64);
        report.add_error(5014, m);
        proof {
            assert(d_index_findings(*resources, oid.0, tri_idx as int, Some(d_index)) =~= seq![(ValidationSeverity::Error, 5014u32, m@)]);
        }
    } else {
        proof { lemma_appended_none(report.items@); }
    }
}

fn check_d_index(oid: u32, i: usize, d: Option<u32>, rc: &ResourceCollection, report: &mut ValidationReport)
    ensures
        appended(old(report).items@, final(report).items@, d_index_findings(*rc, oid, i as int, d)),
{
    match d {
        Some(x) => validate_displacement_index(ResourceId(oid), i, x, rc, report),
        None => {
            proof { lemma_appended_none(report.items@); }
        },
    }
}

fn check_dm_references(mesh: &DisplacementMesh, oid: u32, rc: &ResourceCollection, report: &mut ValidationReport)
    ensures
        appended(old(report).items@, final(report).items@, dm_reference_findings(*mesh, oid, *rc)),
{
    let ghost s0 = report.items@;
    let ghost f = |i: int| d_index_findings(*rc, oid, i, mesh.triangles@[i].d1)
        + d_index_findings(*rc, oid, i, mesh.triangles@[i].d2) + d_index_findings(*rc, oid, i, mesh.triangles@[i].d3);
    proof { lemma_appended_none(s0); }
    let mut i: usize = 0;
    while i < mesh.triangles.len()
        invariant
            i <= mesh.triangles@.len(),
            f == (|i: int| d_index_findings(*rc, oid, i, mesh.triangles@[i].d1)
                + d_index_findings(*rc, oid, i, mesh.triangles@[i].d2) + d_index_findings(*rc, oid, i, mesh.triangles@[i].d3)),
            appended(s0, report.items@, concat_upto(i as nat, f)),
        decreases mesh.triangles@.len() - i,
    {
        let ghost mid = report.items@;
        let t = &mesh.triangles[i];
        check_d_index(oid, i, t.d1, rc, report);
        let ghost m1 = report.items@;
        check_d_index(oid, i, t.d2, rc, report);
        let ghost m2 = report.items@;
        check_d_index(oid, i, t.d3, rc, report);
        proof {
            lemma_appended_trans(mid, m1, m2, d_index_findings(*rc, oid, i as int, t.d1), d_index_findings(*rc, oid, i as int, t.d2));
            lemma_appended_trans(mid, m2, report.items@, d_index_findings(*rc, oid, i as int, t.d1) + d_index_findings(*rc, oid, i as int, t.d2), d_index_findings(*rc, oid, i as int, t.d3));
            lemma_appended_step(s0, mid, report.items@, i as nat, f);
        }
        i = i + 1;
    }
    let ghost s1 = report.items@;
    match &mesh.gradients {
        Some(g) => {
            if g.len() != mesh.vertices.len() {
                let mut m = String::new();
                append_num(&mut m, "Object ", oid as u64);
                append_num(&mut m, " has ", mesh.vertices.len() as u64);
                append_num(&mut m, " vertices but ", g.len() as u64);
                m.append(" gradient vectors");
                report.add_error(5015, m);
                proof {
                    assert(gradient_count_findings(*mesh, oid) =~= seq![(ValidationSeverity::Error, 5015u32, m@)]);
                }
            } else {
                proof { lemma_appended_none(s1); }
            }
        },
        None => {
            proof { lemma_appended_none(s1); }
        },
    }
    proof {
        lemma_appended_trans(s0, s1, report.items@, concat_upto(mesh.triangles@.len(), f), gradient_count_findings(*mesh, oid));
    }
}

fn normal_is_finite(n: &NormalVector) -> (r: bool)
    ensures
        r == normal_finite(*n),
{
    is_finite_bits(n.nx) && is_finite_bits(n.ny) && is_finite_bits(n.nz)
}

fn gradient_is_finite(g: &GradientVector) -> (r: bool)
    ensures
        r == gradient_finite(*g),
{
    is_finite_bits(g.gu) && is_finite_bits(g.gv)
}

fn check_normals(oid: u32, normals: &Vec<NormalVector>, lengths: &Vec<Option<String>>, report: &mut ValidationReport)
    requires
        lengths@.len() == normals@.len(),
    ensures
        appended(old(report).items@, final(report).items@, normal_findings(oid, normals@, lengths@)),
{
    let ghost s0 = report.items@;
    let ghost f = |i: int| if !normal_finite(normals@[i]) {
        seq![err(5020, "Normal "@ + decimal(i as nat) + " in object "@ + decimal(oid as nat) + " contains non-finite values"@)]
    } else {
        match lengths@[i] {
            Some(t) => seq![warn(5021, "Normal "@ + decimal(i as nat) + " in object "@ + decimal(oid as nat)
                + " is not unit length (length: "@ + t@ + ")"@)],
            None => Seq::<Finding>::empty(),
        }
    };
    proof { lemma_appended_none(s0); }
    let mut i: usize = 0;
    while i < normals.len()
        invariant
            lengths@.len() == normals@.len(),
            i <= normals@.len(),
            f == (|i: int| if !normal_finite(normals@[i]) {
                seq![err(5020, "Normal "@ + decimal(i as nat) + " in object "@ + decimal(oid as nat) + " contains non-finite values"@)]
            } else {
                match lengths@[i] {
                    Some(t) => seq![warn(5021, "Normal "@ + decimal(i as nat) + " in object "@ + decimal(oid as nat)
                        + " is not unit length (length: "@ + t@ + ")"@)],
                    None => Seq::<Finding>::empty(),
                }
            }),
            appended(s0, report.items@, concat_upto(i as nat, f)),
        decreases normals@.len() - i,
    {
        let ghost mid = report.items@;
        if !normal_is_finite(&normals[i]) {
            let mut m = String::new();
            append_num(&mut m, "Normal ", i as u64);
            append_num(&mut m, " in object ", oid as u64);
            m.append(" contains non-finite values");
            report.add_error(5020, m);
            proof {
                assert(f(i as int) =~= seq![(ValidationSeverity::Error, 5020u32, m@)]);
            }
        } else {
            match &lengths[i] {
                Some(t) => {
                    let mut m = String::new();
                    append_num(&mut m, "Normal ", i as u64);
                    append_num(&mut m, " in object ", oid as u64);
                    m.append(" is not unit length (length: ");
                    m.append(t.as_str());
                    m.append(")");
                    report.add_warning(5021, m);
                    proof {
                        assert(m@ =~= "Normal "@ + decimal(i as nat) + " in object "@ + decimal(oid as nat)
                            + " is not unit length (length: "@ + t@ + ")"@);
                        assert(f(i as int) =~= seq![(ValidationSeverity::Warning, 5021u32, m@)]);
                    }
                },
                None => {
                    proof { lemma_appended_none(mid); }
                },
            }
        }
        proof { lemma_appended_step(s0, mid, report.items@, i as nat, f); }
        i = i + 1;
    }
}

fn check_gradients(oid: u32, normals: &Vec<NormalVector>, grads: &Vec<GradientVector>, report: &mut ValidationReport)
    ensures
        appended(old(report).items@, final(report).items@, gradient_findings(oid, normals@, grads@)),
{
    let ghost s0 = report.items@;
    let ghost f = |i: int| if !gradient_finite(grads@[i]) {
        seq![err(5022, "Gradient "@ + decimal(i as nat) + " in object "@ + decimal(oid as nat) + " contains non-finite values"@)]
    } else {
        Seq::<Finding>::empty()
    };
    proof { lemma_appended_none(s0); }
    let mut i: usize = 0;
    while i < grads.len()
        invariant
            i <= grads@.len(),
            f == (|i: int| if !gradient_finite(grads@[i]) {
                seq![err(5022, "Gradient "@ + decimal(i as nat) + " in object "@ + decimal(oid as nat) + " contains non-finite values"@)]
            } else {
                Seq::<Finding>::empty()
            }),
            appended(s0, report.items@, concat_upto(i as nat, f)),
        decreases grads@.len() - i,
    {
        let ghost mid = report.items@;
        if !gradient_is_finite(&grads[i]) {
            let mut m = String::new();
            append_num(&mut m, "Gradient ", i as u64);
            append_num(&mut m, " in object ", oid as u64);
            m.append(" contains non-finite values");
            report.add_error(5022, m);
            proof {
                assert(f(i as int) =~= seq![(ValidationSeverity::Error, 5022u32, m@)]);
            }
        } else {
            proof { lemma_appended_none(mid); }
        }
        proof { lemma_appended_step(s0, mid, report.items@, i as nat, f); }
        i = i + 1;
    }
    let ghost s1 = report.items@;
    if normals.len() > 0 && grads.len() > 0 && normal_is_finite(&normals[0]) && gradient_is_finite(&grads[0]) {
        let mut m = String::new();
        append_num(&mut m, "Object ", oid as u64);
        m.append(" has gradient vectors (orthogonality not verified)");
        report.add_info(5023, m);
    } else {
        proof { lemma_appended_none(s1); }
    }
    proof {
        let g1: Seq<Finding> = if normals@.len() > 0 && grads@.len() > 0 && normal_finite(normals@[0]) && gradient_finite(grads@[0]) {
            seq![note(5023, "Object "@ + decimal(oid as nat) + " has gradient vectors (orthogonality not verified)"@)]
        } else {
            Seq::empty()
        };
        if normals@.len() > 0 && grads@.len() > 0 && normal_finite(normals@[0]) && gradient_finite(grads@[0]) {
            assert(g1 =~= seq![(ValidationSeverity::Info, 5023u32, Seq::<char>::empty() + "Object "@ + decimal(oid as nat) + " has gradient vectors (orthogonality not verified)"@)]);
        }
        lemma_appended_trans(s0, s1, report.items@, concat_upto(grads@.len(), f), g1);
    }
}

/// Checks one displacement mesh: its shape always; texture references and the gradient
/// count from the Standard level; normals and gradients at the Paranoid level, where
/// `lengths[i]` holds the printed length of normal `i` when it is away from one.
pub fn validate_displacement_mesh(mesh: &DisplacementMesh, oid: ResourceId, level: ValidationLevel, report: &mut ValidationReport, resources: &ResourceCollection, lengths: &Vec<Option<String>>)
    requires
        level_rank(level) >= 3 ==> lengths@.len() == mesh.normals@.len(),
    ensures
        appended(old(report).items@, final(report).items@, dm_findings(*mesh, oid.0, level_rank(level), *resources, lengths@)),
{
    let rank = level.rank();
    let ghost s0 = report.items@;
    check_dm_structure(mesh, oid.0, report);
    let ghost s1 = report.items@;
    if rank >= 1 {
        check_dm_references(mesh, oid.0, resources, report);
    } else {
        proof { lemma_appended_none(s1); }
    }
    let ghost s2 = report.items@;
    if rank >= 3 {
        check_normals(oid.0, &mesh.normals, lengths, report);
        let ghost s3 = report.items@;
        match &mesh.gradients {
            Some(g) => check_gradients(oid.0, &mesh.normals, g, report),
            None => {
                proof { lemma_appended_none(s3); }
            },
        }
        proof {
            lemma_appended_trans(s2, s3, report.items@, normal_findings(oid.0, mesh.normals@, lengths@), opt_gradient_findings(oid.0, mesh.normals@, mesh.gradients));
        }
    } else {
        proof { lemma_appended_none(s2); }
    }
    proof {
        let a = dm_structure_findings(*mesh, oid.0);
        let b: Seq<Finding> = if level_rank(level) >= 1 { dm_reference_findings(*mesh, oid.0, *resources) } else { Seq::empty() };
        let c: Seq<Finding> = if level_rank(level) >= 3 {
            normal_findings(oid.0, mesh.normals@, lengths@) + opt_gradient_findings(oid.0, mesh.normals@, mesh.gradients)
        } else {
            Seq::empty()
        };
        lemma_appended_trans(s0, s1, s2, a, b);
        lemma_appended_trans(s0, s2, report.items@, a + b, c);
    }
}

/// Findings for the displacement textures, then for each displacement mesh object.
pub open spec fn displacement_findings(m: Model, rank: nat, lengths: Seq<Vec<Option<String>>>) -> Seq<Finding> {
    let objs = m.resources.objects();
    textures_findings(m, rank) + concat_upto(objs.len(), |k: int| match objs[k].geometry {
        Geometry::DisplacementMesh(dm) => dm_findings(dm, objs[k].id.0, rank, m.resources, lengths[k]@),
        _ => Seq::empty(),
    })
}

/// Whether the measured normal lengths fit the displacement meshes (one entry per object).
pub open spec fn lengths_fit(objs: Seq<Object>, rank: nat, lengths: Seq<Vec<Option<String>>>) -> bool {
    &&& lengths.len() == objs.len()
    &&& forall|k: int| 0 <= k < objs.len() ==> match (#[trigger] objs[k]).geometry {
        Geometry::DisplacementMesh(dm) => rank >= 3 ==> lengths[k]@.len() == dm.normals@.len(),
        _ => true,
    }
}

/// Checks displacement textures and meshes at the given level.
pub fn validate_displacement(model: &Model, level: ValidationLevel, lengths: &Vec<Vec<Option<String>>>, report: &mut ValidationReport)
    requires
        lengths_fit(model.resources.objects(), level_rank(level), lengths@),
    ensures
        appended(old(report).items@, final(report).items@, displacement_findings(*model, level_rank(level), lengths@)),
{
    let ghost s0 = report.items@;
    let rank = level.rank();
    validate_displacement_resources(model, rank, report);
    let ghost s1 = report.items@;
    let objs = model.resources.iter_objects();
    let ghost f = |k: int| match objs@[k].geometry {
        Geometry::DisplacementMesh(dm) => dm_findings(dm, objs@[k].id.0, rank as nat, model.resources, lengths@[k]@),
        _ => Seq::<Finding>::empty(),
    };
    proof { lemma_appended_none(s1); }
    let mut i: usize = 0;
    while i < objs.len()
        invariant
            objs@ == model.resources.objects(),
            rank == level_rank(level),
            lengths_fit(objs@, rank as nat, lengths@),
            i <= objs@.len(),
            f == (|k: int| match objs@[k].geometry {
                Geometry::DisplacementMesh(dm) => dm_findings(dm, objs@[k].id.0, rank as nat, model.resources, lengths@[k]@),
                _ => Seq::<Finding>::empty(),
            }),
            appended(s1, report.items@, concat_upto(i as nat, f)),
        decreases objs@.len() - i,
    {
        let ghost mid = report.items@;
        let o = &objs[i];
        proof { assert(objs@[i as int] == *o); }
        match &o.geometry {
            Geometry::DisplacementMesh(dm) => {
                validate_displacement_mesh(dm, o.id, level, report, &model.resources, &lengths[i]);
            },
            _ => {
                proof { lemma_appended_none(mid); }
            },
        }
        proof { lemma_appended_step(s1, mid, report.items@, i as nat, f); }
        i = i + 1;
    }
    proof {
        lemma_appended_trans(s0, s1, report.items@, textures_findings(*model, rank as nat), concat_upto(objs@.len(), f));
    }
}

/// Per-normal findings of the stand-alone check: non-finite components, and a squared length
/// away from one (as measured by the caller, with its printed form).
pub open spec fn normal_square_findings(oid: u32, n: NormalVector, i: int, sq: Option<String>) -> Seq<Finding> {
    (if !normal_finite(n) {
        seq![err(5020, "Normal "@ + decimal(i as nat) + " in object "@ + decimal(oid as nat) + " contains non-finite values"@)]
    } else {
        Seq::empty()
    }) + match sq {
        Some(t) => seq![warn(5021, "Normal "@ + decimal(i as nat) + " in object "@ + decimal(oid as nat)
            + " is not unit length (length^2 = "@ + t@ + ")"@)],
        None => Seq::empty(),
    }
}

/// Findings on non-finite gradient components.
pub open spec fn grad_value_findings(oid: u32, g: Seq<GradientVector>) -> Seq<Finding> {
    concat_upto(g.len(), |i: int| if !gradient_finite(g[i]) {
        seq![err(5022, "Gradient "@ + decimal(i as nat) + " in object "@ + decimal(oid as nat) + " contains non-finite values"@)]
    } else {
        Seq::empty()
    })
}

/// Findings on non-finite gradient components, when the mesh has gradients.
pub open spec fn opt_grad_value_findings(oid: u32, g: Option<Vec<GradientVector>>) -> Seq<Finding> {
    match g {
        Some(g) => grad_value_findings(oid, g@),
        None => Seq::empty(),
    }
}

/// Findings of the stand-alone displacement mesh check.
pub open spec fn dm_geometry_findings(mesh: DisplacementMesh, oid: u32, paranoid: bool, sq: Seq<Option<String>>) -> Seq<Finding> {
    dm_structure_findings(mesh, oid) + gradient_count_findings(mesh, oid) + if paranoid {
        concat_upto(mesh.normals@.len(), |i: int| normal_square_findings(oid, mesh.normals@[i], i, sq[i]))
            + opt_grad_value_findings(oid, mesh.gradients)
    } else {
        Seq::empty()
    }
}

fn check_normal_squares(oid: u32, normals: &Vec<NormalVector>, sq: &Vec<Option<String>>, report: &mut ValidationReport)
    requires
        sq@.len() == normals@.len(),
    ensures
        appended(old(report).items@, final(report).items@, concat_upto(normals@.len(), |i: int| normal_square_findings(oid, normals@[i], i, sq@[i]))),
{
    let ghost s0 = report.items@;
    let ghost f = |i: int| normal_square_findings(oid, normals@[i], i, sq@[i]);
    proof { lemma_appended_none(s0); }
    let mut i: usize = 0;
    while i < normals.len()
        invariant
            sq@.len() == normals@.len(),
            i <= normals@.len(),
            f == (|i: int| normal_square_findings(oid, normals@[i], i, sq@[i])),
            appended(s0, report.items@, concat_upto(i as nat, f)),
        decreases normals@.len() - i,
    {
        let ghost mid = report.items@;
        if !normal_is_finite(&normals[i]) {
            let mut m = String::new();
            append_num(&mut m, "Normal ", i as u64);
            append_num(&mut m, " in object ", oid as u64);
            m.append(" contains non-finite values");
            report.add_error(5020, m);
        } else {
            proof { lemma_appended_none(mid); }
        }
        let ghost m1 = report.items@;
        let ghost g0: Seq<Finding> = if !normal_finite(normals@[i as int]) {
            seq![err(5020, "Normal "@ + decimal(i as nat) + " in object "@ + decimal(oid as nat) + " contains non-finite values"@)]
        } else {
            Seq::empty()
        };
        proof {
            if !normal_finite(normals@[i as int]) {
                assert(g0 =~= seq![(ValidationSeverity::Error, 5020u32, Seq::<char>::empty() + "Normal "@ + decimal(i as nat) + " in object "@ + decimal(oid as nat) + " contains non-finite values"@)]);
            }
        }
        match &sq[i] {
            Some(t) => {
                let mut m = String::new();
                append_num(&mut m, "Normal ", i as u64);
                append_num(&mut m, " in object ", oid as u64);
                m.append(" is not unit length (length^2 = ");
                m.append(t.as_str());
                m.append(")");
                report.add_warning(5021, m);
                proof {
                    assert(m@ =~= "Normal "@ + decimal(i as nat) + " in object "@ + decimal(oid as nat)
                        + " is not unit length (length^2 = "@ + t@ + ")"@);
                }
            },
            None => {
                proof { lemma_appended_none(m1); }
            },
        }
        proof {
            let g1: Seq<Finding> = match sq@[i as int] {
                Some(t) => seq![warn(5021, "Normal "@ + decimal(i as nat) + " in object "@ + decimal(oid as nat)
                    + " is not unit length (length^2 = "@ + t@ + ")"@)],
                None => Seq::empty(),
            };
            lemma_appended_trans(mid, m1, report.items@, g0, g1);
            assert(f(i as int) == g0 + g1);
            lemma_appended_step(s0, mid, report.items@, i as nat, f);
        }
        i = i + 1;
    }
}

/// Checks a displacement mesh on its own, without the resources: shape and gradient count
/// always; at the Paranoid level normals (with `sq[i]` holding the printed squared length of
/// normal `i` when it is away from one) and gradients.
pub fn validate_displacement_mesh_geometry(mesh: &DisplacementMesh, oid: ResourceId, _object_type: crate::model::mesh::ObjectType, level: ValidationLevel, report: &mut ValidationReport, _unit: crate::model::units::Unit, sq: &Vec<Option<String>>)
    requires
        level_rank(level) >= 3 ==> sq@.len() == mesh.normals@.len(),
    ensures
        appended(old(report).items@, final(report).items@, dm_geometry_findings(*mesh, oid.0, level_rank(level) >= 3, sq@)),
{
    let ghost s0 = report.items@;
    check_dm_structure(mesh, oid.0, report);
    let ghost s1 = report.items@;
    match &mesh.gradients {
        Some(g) => {
            if g.len() != mesh.vertices.len() {
                let mut m = String::new();
                append_num(&mut m, "Object ", oid.0 as u64);
                append_num(&mut m, " has ", mesh.vertices.len() as u64);
                append_num(&mut m, " vertices but ", g.len() as u64);
                m.append(" gradient vectors");
                report.add_error(5015, m);
                proof {
                    assert(gradient_count_findings(*mesh, oid.0) =~= seq![(ValidationSeverity::Error, 5015u32, m@)]);
                }
            } else {
                proof { lemma_appended_none(s1); }
            }
        },
        None => {
            proof { lemma_appended_none(s1); }
        },
    }
    let ghost s2 = report.items@;
    if level.rank() >= 3 {
        check_normal_squares(oid.0, &mesh.normals, sq, report);
        let ghost s3 = report.items@;
        match &mesh.gradients {
            Some(g) => {
                let ghost mid = report.items@;
                let ghost f = |i: int| if !gradient_finite(g@[i]) {
                    seq![err(5022, "Gradient "@ + decimal(i as nat) + " in object "@ + decimal(oid.0 as nat) + " contains non-finite values"@)]
                } else {
                    Seq::<Finding>::empty()
                };
                proof { lemma_appended_none(mid); }
                let mut i: usize = 0;
                while i < g.len()
                    invariant
                        i <= g@.len(),
                        f == (|i: int| if !gradient_finite(g@[i]) {
                            seq![err(5022, "Gradient "@ + decimal(i as nat) + " in object "@ + decimal(oid.0 as nat) + " contains non-finite values"@)]
                        } else {
                            Seq::<Finding>::empty()
                        }),
                        appended(mid, report.items@, concat_upto(i as nat, f)),
                    decreases g@.len() - i,
                {
                    let ghost m0 = report.items@;
                    if !gradient_is_finite(&g[i]) {
                        let mut m = String::new();
                        append_num(&mut m, "Gradient ", i as u64);
                        append_num(&mut m, " in object ", oid.0 as u64);
                        m.append(" contains non-finite values");
                        report.add_error(5022, m);
                        proof {
                            assert(f(i as int) =~= seq![(ValidationSeverity::Error, 5022u32, m@)]);
                        }
                    } else {
                        proof { lemma_appended_none(m0); }
                    }
                    proof { lemma_appended_step(mid, m0, report.items@, i as nat, f); }
                    i = i + 1;
                }
                proof {
                    assert(concat_upto(g@.len(), f) == grad_value_findings(oid.0, g@));
                    lemma_appended_trans(s2, s3, report.items@, concat_upto(mesh.normals@.len(), |i: int| normal_square_findings(oid.0, mesh.normals@[i], i, sq@[i])), grad_value_findings(oid.0, g@));
                }
            },
            None => {
                proof {
                    lemma_appended_none(s3);
                    lemma_appended_trans(s2, s3, report.items@, concat_upto(mesh.normals@.len(), |i: int| normal_square_findings(oid.0, mesh.normals@[i], i, sq@[i])), Seq::empty());
                }
            },
        }
    } else {
        proof { lemma_appended_none(s2); }
    }
    proof {
        lemma_appended_trans(s0, s1, s2, dm_structure_findings(*mesh, oid.0), gradient_count_findings(*mesh, oid.0));
        lemma_appended_trans(s0, s2, report.items@, dm_structure_findings(*mesh, oid.0) + gradient_count_findings(*mesh, oid.0),
            if level_rank(level) >= 3 {
                concat_upto(mesh.normals@.len(), |i: int| normal_square_findings(oid.0, mesh.normals@[i], i, sq@[i]))
                    + opt_grad_value_findings(oid.0, mesh.gradients)
            } else {
                Seq::empty()
            });
    }
}


/// The findings on a displacement texture at a lower level occur at every higher level.
proof fn lemma_texture_levels(atts: Seq<(String, Vec<u8>)>, res: Displacement2D, r1: nat, r2: nat)
    requires
        r1 <= r2,
    ensures
        findings_within(texture_findings(atts, res, r1), texture_findings(atts, res, r2)),
{
    let id = decimal(res.id.0 as nat);
    let x0: Seq<Finding> = seq![err(5001, "Displacement2D resource "@ + id + " has empty path"@)];
    let x1: Seq<Finding> = seq![warn(5002, "Displacement2D resource "@ + id + " references non-existent attachment '"@ + res.path@ + "'"@)];
    let x2: Seq<Finding> = seq![err(5003, "Displacement2D resource "@ + id + " has non-finite height: "@ + nonfinite_text(res.height))];
    let x3: Seq<Finding> = seq![err(5004, "Displacement2D resource "@ + id + " has non-finite offset: "@ + nonfinite_text(res.offset))];
    let p0 = res.path@.len() == 0;
    let p1 = res.path@.len() > 0 && !has_attachment(atts, res.path@);
    let p2 = !bits_finite(res.height);
    let p3 = !bits_finite(res.offset);
    let a0 = if r1 >= 1 && p0 { x0 } else { Seq::empty() };
    let b0 = if r2 >= 1 && p0 { x0 } else { Seq::empty() };
    let a1 = if r1 >= 1 && p1 { x1 } else { Seq::empty() };
    let b1 = if r2 >= 1 && p1 { x1 } else { Seq::empty() };
    let a2 = if r1 >= 3 && p2 { x2 } else { Seq::empty() };
    let b2 = if r2 >= 3 && p2 { x2 } else { Seq::empty() };
    let a3 = if r1 >= 3 && p3 { x3 } else { Seq::empty() };
    let b3 = if r2 >= 3 && p3 { x3 } else { Seq::empty() };
    lemma_within_gate(r1 >= 1 && p0, r2 >= 1 && p0, x0);
    lemma_within_gate(r1 >= 1 && p1, r2 >= 1 && p1, x1);
    lemma_within_gate(r1 >= 3 && p2, r2 >= 3 && p2, x2);
    lemma_within_gate(r1 >= 3 && p3, r2 >= 3 && p3, x3);
    lemma_within_join(a0, b0, a1, b1);
    lemma_within_join(a0 + a1, b0 + b1, a2, b2);
    lemma_within_join(a0 + a1 + a2, b0 + b1 + b2, a3, b3);
    assert(texture_findings(atts, res, r1) == a0 + a1 + a2 + a3);
    assert(texture_findings(atts, res, r2) == b0 + b1 + b2 + b3);
}

/// The findings on a displacement mesh at a lower level occur at every higher level.
proof fn lemma_dm_levels(mesh: DisplacementMesh, oid: u32, r1: nat, r2: nat, rc: ResourceCollection, lengths: Seq<Option<String>>)
    requires
        r1 <= r2,
    ensures
        findings_within(dm_findings(mesh, oid, r1, rc, lengths), dm_findings(mesh, oid, r2, rc, lengths)),
{
    let s = dm_structure_findings(mesh, oid);
    let x1 = dm_reference_findings(mesh, oid, rc);
    let x2 = normal_findings(oid, mesh.normals@, lengths) + opt_gradient_findings(oid, mesh.normals@, mesh.gradients);
    lemma_within_refl(s);
    lemma_within_gate(r1 >= 1, r2 >= 1, x1);
    lemma_within_gate(r1 >= 3, r2 >= 3, x2);
    let a1 = if r1 >= 1 { x1 } else { Seq::empty() };
    let b1 = if r2 >= 1 { x1 } else { Seq::empty() };
    let a2 = if r1 >= 3 { x2 } else { Seq::empty() };
    let b2 = if r2 >= 3 { x2 } else { Seq::empty() };
    lemma_within_join(s, s, a1, b1);
    lemma_within_join(s + a1, s + b1, a2, b2);
}

/// The displacement findings at a lower level occur at every higher level.
pub proof fn lemma_displacement_levels(m: Model, r1: nat, r2: nat, lengths: Seq<Vec<Option<String>>>)
    requires
        r1 <= r2,
    ensures
        findings_within(displacement_findings(m, r1, lengths), displacement_findings(m, r2, lengths)),
{
    let ts = m.resources.displacement_2d();
    let tf1 = |k: int| texture_findings(m.attachments@, ts[k], r1);
    let tf2 = |k: int| texture_findings(m.attachments@, ts[k], r2);
    assert forall|k: int| 0 <= k < ts.len() implies findings_within(#[trigger] tf1(k), tf2(k)) by {
        lemma_texture_levels(m.attachments@, ts[k], r1, r2);
    }
    lemma_within_concat_upto(ts.len(), tf1, tf2);
    let objs = m.resources.objects();
    let f1 = |k: int| match objs[k].geometry {
        Geometry::DisplacementMesh(dm) => dm_findings(dm, objs[k].id.0, r1, m.resources, lengths[k]@),
        _ => Seq::empty(),
    };
    let f2 = |k: int| match objs[k].geometry {
        Geometry::DisplacementMesh(dm) => dm_findings(dm, objs[k].id.0, r2, m.resources, lengths[k]@),
        _ => Seq::empty(),
    };
    assert forall|k: int| 0 <= k < objs.len() implies findings_within(#[trigger] f1(k), f2(k)) by {
        match objs[k].geometry {
            Geometry::DisplacementMesh(dm) => lemma_dm_levels(dm, objs[k].id.0, r1, r2, m.resources, lengths[k]@),
            _ => lemma_within_empty(Seq::empty()),
        }
    }
    lemma_within_concat_upto(objs.len(), f1, f2);
    lemma_within_join(concat_upto(ts.len(), tf1), concat_upto(ts.len(), tf2), concat_upto(objs.len(), f1), concat_upto(objs.len(), f2));
    assert(displacement_findings(m, r1, lengths) == concat_upto(ts.len(), tf1) + concat_upto(objs.len(), f1));
    assert(displacement_findings(m, r2, lengths) == concat_upto(ts.len(), tf2) + concat_upto(objs.len(), f2));
}

} // verus!
