//! Geometry checks: degenerate triangles, and at the Paranoid level manifoldness,
//! orientation, islands and vertex manifoldness.

use vstd::prelude::*;
use crate::model::core_model::Model;
use crate::model::mesh::{object_type_name, spec_requires_manifold, Geometry, Mesh, Object, ObjectType, Triangle};
use crate::validation::{level_rank, ValidationLevel};
use crate::text::{append_num, decimal};
use crate::topology::{
    adj_rel, components, edge_slots, has_node, edge_tally, first_occurrences, lemma_edge_slots_len,
    occurrences, start_count, tri_rel, triangle_adjacency,
};
use crate::validation::dag::{lists, well_formed};
use crate::validation::report::{
    appended, concat_upto, lemma_appended_none, lemma_appended_step, lemma_appended_trans,
    Finding, ValidationReport, ValidationSeverity,
};

verus! {

/// A warning finding.
pub open spec fn warn(code: u32, msg: Seq<char>) -> Finding {
    (ValidationSeverity::Warning, code, msg)
}

/// An informational finding.
pub open spec fn note(code: u32, msg: Seq<char>) -> Finding {
    (ValidationSeverity::Info, code, msg)
}

/// An edge as text, `(a, b)`.
pub open spec fn edge_text(e: (u32, u32)) -> Seq<char> {
    "("@ + decimal(e.0 as nat) + ", "@ + decimal(e.1 as nat) + ")"@
}

/// Whether a triangle names one vertex twice.
pub open spec fn repeats_vertex(t: Triangle) -> bool {
    t.v1 == t.v2 || t.v2 == t.v3 || t.v1 == t.v3
}

/// Warnings for triangles that name a vertex twice.
pub open spec fn degenerate_findings(oid: u32, ty: ObjectType, tris: Seq<Triangle>) -> Seq<Finding> {
    concat_upto(tris.len(), |k: int| if repeats_vertex(tris[k]) {
        seq![warn(4001, "Triangle "@ + decimal(k as nat) + " in Object "@ + decimal(oid as nat) + " ("@
            + object_type_name(ty) + ") is degenerate (duplicate vertices)"@)]
    } else {
        Seq::empty()
    })
}

/// The finding for an undirected edge used `c` times.
pub open spec fn edge_use_findings(oid: u32, e: (u32, u32), c: nat) -> Seq<Finding> {
    if c == 1 {
        seq![warn(4002, "Object "@ + decimal(oid as nat) + " has boundary edge "@ + edge_text(e) + " (not watertight)"@)]
    } else if c > 2 {
        seq![warn(4003, "Object "@ + decimal(oid as nat) + " has non-manifold edge "@ + edge_text(e) + " (shared by "@
            + decimal(c) + " triangles)"@)]
    } else {
        Seq::empty()
    }
}

/// Warnings for boundary and non-manifold edges, in order of each edge's first appearance.
pub open spec fn manifold_findings(oid: u32, tris: Seq<Triangle>) -> Seq<Finding> {
    let slots = edge_slots(tris, false);
    let d = first_occurrences(slots);
    concat_upto(d.len(), |q: int| edge_use_findings(oid, d[q], occurrences(slots, d[q])))
}

/// The finding for a directed edge used `c` times.
pub open spec fn direction_findings(oid: u32, e: (u32, u32), c: nat) -> Seq<Finding> {
    if c > 1 {
        seq![warn(4004, "Object "@ + decimal(oid as nat) + " has orientation mismatch or duplicate faces at edge "@ + edge_text(e))]
    } else {
        Seq::empty()
    }
}

/// Warnings for directed edges used more than once, in order of first appearance.
pub open spec fn orientation_findings(oid: u32, tris: Seq<Triangle>) -> Seq<Finding> {
    let slots = edge_slots(tris, true);
    let d = first_occurrences(slots);
    concat_upto(d.len(), |q: int| direction_findings(oid, d[q], occurrences(slots, d[q])))
}

/// How many of the first `n` distinct undirected edges are not used exactly twice.
pub open spec fn irregular_upto(slots: Seq<(u32, u32)>, d: Seq<(u32, u32)>, n: nat) -> nat
    decreases n,
{
    if n == 0 {
        0
    } else {
        irregular_upto(slots, d, (n - 1) as nat) + (if occurrences(slots, d[n - 1]) != 2 { 1nat } else { 0nat })
    }
}

/// The number of distinct undirected edges not used exactly twice.
pub open spec fn non_manifold_edge_count(tris: Seq<Triangle>) -> nat {
    let slots = edge_slots(tris, false);
    irregular_upto(slots, first_occurrences(slots), first_occurrences(slots).len())
}

/// The number of connected pieces of a mesh: triangles are connected when they share an edge.
pub open spec fn island_count(tris: Seq<Triangle>) -> nat {
    start_count(tri_rel(tris), tris.len() as int)
}

/// The warning for a mesh in more than one piece.
pub open spec fn island_findings(oid: u32, tris: Seq<Triangle>) -> Seq<Finding> {
    if tris.len() > 0 && island_count(tris) > 1 {
        seq![warn(4007, "Object "@ + decimal(oid as nat) + " contains "@ + decimal(island_count(tris))
            + " disconnected components (islands)"@)]
    } else {
        Seq::empty()
    }
}

/// Warns about triangles that name a vertex twice.
fn check_degenerate_triangles(tris: &[Triangle], oid: u32, ty: ObjectType, report: &mut ValidationReport)
    ensures
        appended(old(report).items@, final(report).items@, degenerate_findings(oid, ty, tris@)),
{
    let ghost s0 = report.items@;
    let ghost f = |k: int| if repeats_vertex(tris@[k]) {
        seq![warn(4001, "Triangle "@ + decimal(k as nat) + " in Object "@ + decimal(oid as nat) + " ("@
            + object_type_name(ty) + ") is degenerate (duplicate vertices)"@)]
    } else {
        Seq::<Finding>::empty()
    };
    proof { lemma_appended_none(s0); }
    let mut i: usize = 0;
    while i < tris.len()
        invariant
            i <= tris@.len(),
            f == (|k: int| if repeats_vertex(tris@[k]) {
                seq![warn(4001, "Triangle "@ + decimal(k as nat) + " in Object "@ + decimal(oid as nat) + " ("@
                    + object_type_name(ty) + ") is degenerate (duplicate vertices)"@)]
            } else {
                Seq::<Finding>::empty()
            }),
            appended(s0, report.items@, concat_upto(i as nat, f)),
        decreases tris@.len() - i,
    {
        let ghost mid = report.items@;
        let t = &tris[i];
        if t.v1 == t.v2 || t.v2 == t.v3 || t.v1 == t.v3 {
            let mut m = String::new();
            append_num(&mut m, "Triangle ", i as u64);
            append_num(&mut m, " in Object ", oid as u64);
            m.append(" (");
            let tn = ty.to_string();
            m.append(tn.as_str());
            m.append(") is degenerate (duplicate vertices)");
            report.add_warning(4001, m);
            proof {
                assert(f(i as int) =~= seq![(ValidationSeverity::Warning, 4001u32, m@)]);
            }
        } else {
            proof { lemma_appended_none(mid); }
        }
        proof { lemma_appended_step(s0, mid, report.items@, i as nat, f); }
        i = i + 1;
    }
}

/// Warns about boundary edges (used once) and non-manifold edges (used more than twice).
fn check_manifoldness(tris: &[Triangle], oid: u32, report: &mut ValidationReport)
    requires
        3 * tris@.len() < usize::MAX,
    ensures
        appended(old(report).items@, final(report).items@, manifold_findings(oid, tris@)),
{
    let (edges, counts) = edge_tally(tris, false);
    let ghost slots = edge_slots(tris@, false);
    let ghost s0 = report.items@;
    let ghost f = |q: int| edge_use_findings(oid, first_occurrences(slots)[q], occurrences(slots, first_occurrences(slots)[q]));
    proof { lemma_appended_none(s0); }
    let mut q: usize = 0;
    while q < edges.len()
        invariant
            slots == edge_slots(tris@, false),
            edges@ == first_occurrences(slots),
            counts@.len() == edges@.len(),
            forall|p: int| 0 <= p < counts@.len() ==> #[trigger] counts@[p] == occurrences(slots, edges@[p]),
            q <= edges@.len(),
            f == (|p: int| edge_use_findings(oid, first_occurrences(slots)[p], occurrences(slots, first_occurrences(slots)[p]))),
            appended(s0, report.items@, concat_upto(q as nat, f)),
        decreases edges@.len() - q,
    {
        let ghost mid = report.items@;
        let e = edges[q];
        let c = counts[q];
        proof { assert(c == occurrences(slots, edges@[q as int])); }
        if c == 1 {
            let mut m = String::new();
            append_num(&mut m, "Object ", oid as u64);
            m.append(" has boundary edge ");
            append_num(&mut m, "(", e.0 as u64);
            append_num(&mut m, ", ", e.1 as u64);
            m.append(")");
            m.append(" (not watertight)");
            report.add_warning(4002, m);
            proof {
                assert(m@ =~= "Object "@ + decimal(oid as nat) + " has boundary edge "@ + edge_text(e) + " (not watertight)"@);
                assert(f(q as int) =~= seq![(ValidationSeverity::Warning, 4002u32, m@)]);
            }
        } else if c > 2 {
            let mut m = String::new();
            append_num(&mut m, "Object ", oid as u64);
            m.append(" has non-manifold edge ");
            append_num(&mut m, "(", e.0 as u64);
            append_num(&mut m, ", ", e.1 as u64);
            m.append(")");
            append_num(&mut m, " (shared by ", c as u64);
            m.append(" triangles)");
            report.add_warning(4003, m);
            proof {
                assert(m@ =~= "Object "@ + decimal(oid as nat) + " has non-manifold edge "@ + edge_text(e) + " (shared by "@
                    + decimal(c as nat) + " triangles)"@);
                assert(f(q as int) =~= seq![(ValidationSeverity::Warning, 4003u32, m@)]);
            }
        } else {
            proof { lemma_appended_none(mid); }
        }
        proof { lemma_appended_step(s0, mid, report.items@, q as nat, f); }
        q = q + 1;
    }
}

/// Warns about directed edges used more than once (faces wound inconsistently or repeated).
fn check_orientation(tris: &[Triangle], oid: u32, report: &mut ValidationReport)
    requires
        3 * tris@.len() < usize::MAX,
    ensures
        appended(old(report).items@, final(report).items@, orientation_findings(oid, tris@)),
{
    let (edges, counts) = edge_tally(tris, true);
    let ghost slots = edge_slots(tris@, true);
    let ghost s0 = report.items@;
    let ghost f = |q: int| direction_findings(oid, first_occurrences(slots)[q], occurrences(slots, first_occurrences(slots)[q]));
    proof { lemma_appended_none(s0); }
    let mut q: usize = 0;
    while q < edges.len()
        invariant
            slots == edge_slots(tris@, true),
            edges@ == first_occurrences(slots),
            counts@.len() == edges@.len(),
            forall|p: int| 0 <= p < counts@.len() ==> #[trigger] counts@[p] == occurrences(slots, edges@[p]),
            q <= edges@.len(),
            f == (|p: int| direction_findings(oid, first_occurrences(slots)[p], occurrences(slots, first_occurrences(slots)[p]))),
            appended(s0, report.items@, concat_upto(q as nat, f)),
        decreases edges@.len() - q,
    {
        let ghost mid = report.items@;
        let e = edges[q];
        proof { assert(counts@[q as int] == occurrences(slots, edges@[q as int])); }
        if counts[q] > 1 {
            let mut m = String::new();
            append_num(&mut m, "Object ", oid as u64);
            m.append(" has orientation mismatch or duplicate faces at edge ");
            append_num(&mut m, "(", e.0 as u64);
            append_num(&mut m, ", ", e.1 as u64);
            m.append(")");
            report.add_warning(4004, m);
            proof {
                assert(m@ =~= "Object "@ + decimal(oid as nat) + " has orientation mismatch or duplicate faces at edge "@ + edge_text(e));
                assert(f(q as int) =~= seq![(ValidationSeverity::Warning, 4004u32, m@)]);
            }
        } else {
            proof { lemma_appended_none(mid); }
        }
        proof { lemma_appended_step(s0, mid, report.items@, q as nat, f); }
        q = q + 1;
    }
}

/// The number of distinct undirected edges not used by exactly two triangles.
pub fn count_non_manifold_edges(mesh: &Mesh) -> (n: usize)
    requires
        3 * mesh.triangles@.len() < usize::MAX,
    ensures
        n == non_manifold_edge_count(mesh.triangles@),
{
    let (edges, counts) = edge_tally(mesh.triangles.as_slice(), false);
    let ghost slots = edge_slots(mesh.triangles@, false);
    let mut n: usize = 0;
    let mut q: usize = 0;
    while q < edges.len()
        invariant
            slots == edge_slots(mesh.triangles@, false),
            edges@ == first_occurrences(slots),
            counts@.len() == edges@.len(),
            forall|p: int| 0 <= p < counts@.len() ==> #[trigger] counts@[p] == occurrences(slots, edges@[p]),
            q <= edges@.len(),
            n == irregular_upto(slots, edges@, q as nat),
            n <= q,
        decreases edges@.len() - q,
    {
        proof { assert(counts@[q as int] == occurrences(slots, edges@[q as int])); }
        if counts[q] != 2 {
            n = n + 1;
        }
        q = q + 1;
    }
    n
}

/// Warns when the mesh falls apart into more than one piece of edge-connected triangles.
fn check_islands(tris: &[Triangle], oid: u32, report: &mut ValidationReport)
    ensures
        appended(old(report).items@, final(report).items@, island_findings(oid, tris@)),
{
    if tris.len() == 0 {
        proof { lemma_appended_none(report.items@); }
        return;
    }
    let adj = triangle_adjacency(tris);
    let comps = components(&adj);
    proof {
        assert(adj_rel(lists(adj@)) == tri_rel(tris@));
    }
    let count = comps.len();
    if count > 1 {
        let mut m = String::new();
        append_num(&mut m, "Object ", oid as u64);
        append_num(&mut m, " contains ", count as u64);
        m.append(" disconnected components (islands)");
        report.add_warning(4007, m);
        proof {
            assert(island_findings(oid, tris@) =~= seq![(ValidationSeverity::Warning, 4007u32, m@)]);
        }
    } else {
        proof { lemma_appended_none(report.items@); }
    }
}

/// How many corner pairs of two triangles name the same vertex.
pub open spec fn shared_corners(a: Triangle, b: Triangle) -> nat {
    (if a.v1 == b.v1 { 1nat } else { 0nat }) + (if a.v1 == b.v2 { 1nat } else { 0nat }) + (if a.v1 == b.v3 { 1nat } else { 0nat })
        + (if a.v2 == b.v1 { 1nat } else { 0nat }) + (if a.v2 == b.v2 { 1nat } else { 0nat }) + (if a.v2 == b.v3 { 1nat } else { 0nat })
        + (if a.v3 == b.v1 { 1nat } else { 0nat }) + (if a.v3 == b.v2 { 1nat } else { 0nat }) + (if a.v3 == b.v3 { 1nat } else { 0nat })
}

/// Counts the corner pairs of two triangles that name the same vertex.
pub fn count_shared_vertices(t1: &Triangle, t2: &Triangle) -> (n: usize)
    ensures
        n == shared_corners(*t1, *t2),
{
    let mut n: usize = 0;
    if t1.v1 == t2.v1 { n = n + 1; }
    if t1.v1 == t2.v2 { n = n + 1; }
    if t1.v1 == t2.v3 { n = n + 1; }
    if t1.v2 == t2.v1 { n = n + 1; }
    if t1.v2 == t2.v2 { n = n + 1; }
    if t1.v2 == t2.v3 { n = n + 1; }
    if t1.v3 == t2.v1 { n = n + 1; }
    if t1.v3 == t2.v2 { n = n + 1; }
    if t1.v3 == t2.v3 { n = n + 1; }
    n
}

/// The triangles at vertex `v`, once for each corner that names it, in triangle order.
pub open spec fn corners_at(tris: Seq<Triangle>, v: int) -> Seq<usize>
    decreases tris.len(),
{
    if tris.len() == 0 {
        Seq::empty()
    } else {
        let i = (tris.len() - 1) as usize;
        let t = tris.last();
        corners_at(tris.drop_last(), v) + (if t.v1 == v { seq![i] } else { Seq::empty() })
            + (if t.v2 == v { seq![i] } else { Seq::empty() }) + (if t.v3 == v { seq![i] } else { Seq::empty() })
    }
}

/// Corners around one vertex are joined when their triangles have two corners in common,
/// that is an edge through the vertex.
pub open spec fn fan_rel(tris: Seq<Triangle>, l: Seq<usize>) -> spec_fn(int, int) -> bool {
    |a: int, b: int| 0 <= a < l.len() && 0 <= b < l.len() && shared_corners(tris[l[a] as int], tris[l[b] as int]) >= 2
}

/// The number of separate fans of triangles around vertex `v`.
pub open spec fn fan_count(tris: Seq<Triangle>, v: int) -> nat {
    start_count(fan_rel(tris, corners_at(tris, v)), corners_at(tris, v).len() as int)
}

/// The warning for a vertex where separate fans of triangles meet.
pub open spec fn vertex_fan_findings(oid: u32, tris: Seq<Triangle>, v: int) -> Seq<Finding> {
    if corners_at(tris, v).len() > 1 && fan_count(tris, v) > 1 {
        seq![warn(4006, "Object "@ + decimal(oid as nat) + " has non-manifold vertex "@ + decimal(v as nat) + " (points to "@
            + decimal(fan_count(tris, v)) + " disjoint triangle groups)"@)]
    } else {
        Seq::empty()
    }
}

/// Warnings for non-manifold vertices, in vertex order.
pub open spec fn vertex_findings(oid: u32, tris: Seq<Triangle>, nverts: nat) -> Seq<Finding> {
    if nverts == 0 || tris.len() == 0 {
        Seq::empty()
    } else {
        concat_upto(nverts, |v: int| vertex_fan_findings(oid, tris, v))
    }
}

/// Whether every triangle names vertices below `nverts`.
pub open spec fn indices_below(tris: Seq<Triangle>, nverts: nat) -> bool {
    forall|k: int| 0 <= k < tris.len() ==> (#[trigger] tris[k]).v1 < nverts && tris[k].v2 < nverts && tris[k].v3 < nverts
}

/// Joins the corners around one vertex whose triangles share an edge through it.
fn fan_adjacency(tris: &[Triangle], l: &Vec<usize>) -> (adj: Vec<Vec<usize>>)
    requires
        forall|q: int| 0 <= q < l@.len() ==> #[trigger] l@[q] < tris@.len(),
    ensures
        adj@.len() == l@.len(),
        well_formed(lists(adj@)),
        adj_rel(lists(adj@)) == fan_rel(tris@, l@),
{
    let n = l.len();
    let mut adj: Vec<Vec<usize>> = Vec::new();
    let mut a: usize = 0;
    while a < n
        invariant
            n == l@.len(),
            forall|q: int| 0 <= q < l@.len() ==> #[trigger] l@[q] < tris@.len(),
            a <= n,
            adj@.len() == a,
            forall|x: int, q: int| 0 <= x < a && 0 <= q < adj@[x]@.len() ==> #[trigger] adj@[x]@[q] < n,
            forall|x: int, y: int| 0 <= x < a && 0 <= y < n ==> (#[trigger] has_node(adj@[x]@, y) <==> fan_rel(tris@, l@)(x, y)),
        decreases n - a,
    {
        let mut row: Vec<usize> = Vec::new();
        let mut b: usize = 0;
        while b < n
            invariant
                n == l@.len(),
                forall|q: int| 0 <= q < l@.len() ==> #[trigger] l@[q] < tris@.len(),
                a < n,
                b <= n,
                forall|q: int| 0 <= q < row@.len() ==> #[trigger] row@[q] < b,
                forall|y: int| 0 <= y < n ==> (#[trigger] has_node(row@, y) <==> y < b && fan_rel(tris@, l@)(a as int, y)),
            decreases n - b,
        {
            let ghost rb = row@;
            if count_shared_vertices(&tris[l[a]], &tris[l[b]]) >= 2 {
                row.push(b);
                proof {
                    assert forall|y: int| 0 <= y < n implies (#[trigger] has_node(row@, y) <==> y < b + 1 && fan_rel(tris@, l@)(a as int, y)) by {
                        if has_node(row@, y) {
                            let q = choose|q: int| 0 <= q < row@.len() && row@[q] == y as usize;
                            if q < rb.len() {
                                assert(rb[q] == y as usize);
                                assert(has_node(rb, y));
                            } else {
                                assert(y == b as int);
                            }
                        }
                        if y < b && fan_rel(tris@, l@)(a as int, y) {
                            assert(has_node(rb, y));
                            let q = choose|q: int| 0 <= q < rb.len() && rb[q] == y as usize;
                            assert(row@[q] == y as usize);
                        }
                        if y == b as int {
                            assert(row@[row@.len() - 1] == b);
                        }
                    }
                    assert forall|q: int| 0 <= q < row@.len() implies #[trigger] row@[q] < b + 1 by {
                        if q < rb.len() {
                            assert(rb[q] == row@[q]);
                        }
                    }
                }
            } else {
                proof {
                    assert forall|y: int| 0 <= y < n implies (#[trigger] has_node(row@, y) <==> y < b + 1 && fan_rel(tris@, l@)(a as int, y)) by {
                        if has_node(row@, y) {
                            let q = choose|q: int| 0 <= q < row@.len() && row@[q] == y as usize;
                            assert(row@[q] < b);
                        }
                    }
                }
            }
            b = b + 1;
        }
        let ghost adj0 = adj@;
        adj.push(row);
        proof {
            assert forall|x: int, y: int| 0 <= x < a + 1 && 0 <= y < n implies (#[trigger] has_node(adj@[x]@, y) <==> fan_rel(tris@, l@)(x, y)) by {
                if x < a {
                    assert(adj@[x] == adj0[x]);
                }
            }
            assert forall|x: int, q: int| 0 <= x < a + 1 && 0 <= q < adj@[x]@.len() implies #[trigger] adj@[x]@[q] < n by {
                if x < a {
                    assert(adj@[x] == adj0[x]);
                }
            }
        }
        a = a + 1;
    }
    proof {
        let g = lists(adj@);
        assert forall|x: int, k: int| 0 <= x < g.len() && 0 <= k < g[x].len() implies (#[trigger] g[x][k]) < g.len() by {
            assert(g[x] == adj@[x]@);
        }
        assert forall|x: int, y: int| #[trigger] adj_rel(g)(x, y) == fan_rel(tris@, l@)(x, y) by {
            if 0 <= x < n && 0 <= y < n {
                assert(g[x] == adj@[x]@);
                assert(has_node(adj@[x]@, y) == g[x].contains(y as usize));
            }
        }
        assert(adj_rel(g) =~= fan_rel(tris@, l@));
    }
    adj
}

/// For each vertex, the triangles at it, once per corner, in triangle order.
fn corner_lists(tris: &[Triangle], nverts: usize) -> (lists_: Vec<Vec<usize>>)
    requires
        indices_below(tris@, nverts as nat),
    ensures
        lists_@.len() == nverts,
        forall|v: int| 0 <= v < nverts ==> (#[trigger] lists_@[v])@ == corners_at(tris@, v),
{
    let mut ls: Vec<Vec<usize>> = Vec::new();
    let mut v: usize = 0;
    while v < nverts
        invariant
            v <= nverts,
            ls@.len() == v,
            forall|w: int| 0 <= w < v ==> (#[trigger] ls@[w])@ == corners_at(Seq::<Triangle>::empty(), w),
        decreases nverts - v,
    {
        ls.push(Vec::new());
        proof {
            assert(ls@[v as int]@ =~= corners_at(Seq::<Triangle>::empty(), v as int));
        }
        v = v + 1;
    }
    let mut i: usize = 0;
    while i < tris.len()
        invariant
            indices_below(tris@, nverts as nat),
            i <= tris@.len(),
            ls@.len() == nverts,
            forall|w: int| 0 <= w < nverts ==> (#[trigger] ls@[w])@ == corners_at(tris@.take(i as int), w),
        decreases tris@.len() - i,
    {
        let t = &tris[i];
        proof {
            assert(t.v1 < nverts && t.v2 < nverts && t.v3 < nverts) by {
                assert(tris@[i as int] == *t);
            }
        }
        let ghost l0 = ls@;
        ls[t.v1 as usize].push(i);
        let ghost l1 = ls@;
        ls[t.v2 as usize].push(i);
        let ghost l2 = ls@;
        ls[t.v3 as usize].push(i);
        proof {
            let tk = tris@.take(i as int + 1);
            assert(tk.drop_last() =~= tris@.take(i as int));
            assert(tk.last() == *t);
            assert forall|w: int| 0 <= w < nverts implies (#[trigger] ls@[w])@ == corners_at(tk, w) by {
                let c0 = corners_at(tris@.take(i as int), w);
                let e1: Seq<usize> = if t.v1 == w { seq![i] } else { Seq::empty() };
                let e2: Seq<usize> = if t.v2 == w { seq![i] } else { Seq::empty() };
                let e3: Seq<usize> = if t.v3 == w { seq![i] } else { Seq::empty() };
                assert(l1[w]@ =~= c0 + e1);
                assert(l2[w]@ =~= c0 + e1 + e2);
                assert(ls@[w]@ =~= c0 + e1 + e2 + e3);
            }
        }
        i = i + 1;
    }
    proof {
        assert(tris@.take(tris@.len() as int) =~= tris@);
    }
    ls
}

/// Every corner lists a triangle of the mesh.
proof fn lemma_corners_in_range(tris: Seq<Triangle>, v: int)
    ensures
        forall|q: int| 0 <= q < corners_at(tris, v).len() ==> #[trigger] corners_at(tris, v)[q] < tris.len(),
    decreases tris.len(),
{
    if tris.len() > 0 {
        lemma_corners_in_range(tris.drop_last(), v);
        let c0 = corners_at(tris.drop_last(), v);
        let t = tris.last();
        let i = (tris.len() - 1) as usize;
        let e1: Seq<usize> = if t.v1 == v { seq![i] } else { Seq::empty() };
        let e2: Seq<usize> = if t.v2 == v { seq![i] } else { Seq::empty() };
        let e3: Seq<usize> = if t.v3 == v { seq![i] } else { Seq::empty() };
        assert forall|q: int| 0 <= q < corners_at(tris, v).len() implies #[trigger] corners_at(tris, v)[q] < tris.len() by {
            let all = c0 + e1 + e2 + e3;
            assert(corners_at(tris, v) == all);
            if q < c0.len() {
                assert(all[q] == c0[q]);
            }
        }
    }
}

/// Warns about vertices where separate fans of triangles meet.
fn check_vertex_manifoldness(tris: &[Triangle], nverts: usize, oid: u32, report: &mut ValidationReport)
    requires
        nverts > 0 ==> indices_below(tris@, nverts as nat),
    ensures
        appended(old(report).items@, final(report).items@, vertex_findings(oid, tris@, nverts as nat)),
{
    if nverts == 0 || tris.len() == 0 {
        proof { lemma_appended_none(report.items@); }
        return;
    }
    let ls = corner_lists(tris, nverts);
    let ghost s0 = report.items@;
    let ghost f = |v: int| vertex_fan_findings(oid, tris@, v);
    proof { lemma_appended_none(s0); }
    let mut v: usize = 0;
    while v < nverts
        invariant
            ls@.len() == nverts,
            forall|w: int| 0 <= w < nverts ==> (#[trigger] ls@[w])@ == corners_at(tris@, w),
            v <= nverts,
            f == (|w: int| vertex_fan_findings(oid, tris@, w)),
            appended(s0, report.items@, concat_upto(v as nat, f)),
        decreases nverts - v,
    {
        let ghost mid = report.items@;
        let l = &ls[v];
        proof {
            assert(l@ == corners_at(tris@, v as int));
        }
        if l.len() > 1 {
            proof { lemma_corners_in_range(tris@, v as int); }
            let adj = fan_adjacency(tris, l);
            let comps = components(&adj);
            let count = comps.len();
            proof {
                assert(count == fan_count(tris@, v as int));
            }
            if count > 1 {
                let mut m = String::new();
                append_num(&mut m, "Object ", oid as u64);
                append_num(&mut m, " has non-manifold vertex ", v as u64);
                append_num(&mut m, " (points to ", count as u64);
                m.append(" disjoint triangle groups)");
                report.add_warning(4006, m);
                proof {
                    assert(m@ =~= "Object "@ + decimal(oid as nat) + " has non-manifold vertex "@ + decimal(v as nat) + " (points to "@
                        + decimal(fan_count(tris@, v as int)) + " disjoint triangle groups)"@);
                    assert(f(v as int) =~= seq![(ValidationSeverity::Warning, 4006u32, m@)]);
                }
            } else {
                proof { lemma_appended_none(mid); }
            }
        } else {
            proof { lemma_appended_none(mid); }
        }
        proof { lemma_appended_step(s0, mid, report.items@, v as nat, f); }
        v = v + 1;
    }
}

/// What floating-point geometry found in one mesh, computed by the caller.
pub struct MeshMeasures {
    /// The number of self-intersecting triangle pairs.
    pub intersecting_pairs: usize,
    /// For each triangle, whether its area is below the unit-scaled threshold.
    pub small_area: Vec<bool>,
}

/// The warning for self-intersections.
pub open spec fn intersection_findings(oid: u32, ntris: nat, pairs: nat) -> Seq<Finding> {
    if ntris >= 2 && pairs > 0 {
        seq![warn(4008, "Object "@ + decimal(oid as nat) + " has "@ + decimal(pairs) + " self-intersecting triangle pairs"@)]
    } else {
        Seq::empty()
    }
}

/// Warnings for triangles of (near) zero area.
pub open spec fn small_area_findings(oid: u32, small: Seq<bool>) -> Seq<Finding> {
    concat_upto(small.len(), |k: int| if small[k] {
        seq![warn(4005, "Triangle "@ + decimal(k as nat) + " in Object "@ + decimal(oid as nat) + " has zero/near-zero area (unit scaled)"@)]
    } else {
        Seq::empty()
    })
}

/// The note for non-manifold edges on an object type that allows them.
pub open spec fn relaxed_findings(oid: u32, ty: ObjectType, tris: Seq<Triangle>) -> Seq<Finding> {
    if non_manifold_edge_count(tris) > 0 {
        seq![note(4100, "Object "@ + decimal(oid as nat) + " ("@ + object_type_name(ty) + ") has "@
            + decimal(non_manifold_edge_count(tris)) + " non-manifold edges (allowed for this type)"@)]
    } else {
        Seq::empty()
    }
}

/// Findings for one mesh object.
pub open spec fn mesh_findings(mesh: Mesh, oid: u32, ty: ObjectType, paranoid: bool, m: MeshMeasures) -> Seq<Finding> {
    let tris = mesh.triangles@;
    degenerate_findings(oid, ty, tris) + if !paranoid {
        Seq::empty()
    } else if spec_requires_manifold(ty) {
        manifold_findings(oid, tris) + vertex_findings(oid, tris, mesh.vertices@.len()) + island_findings(oid, tris)
            + intersection_findings(oid, tris.len(), m.intersecting_pairs as nat) + orientation_findings(oid, tris)
            + small_area_findings(oid, m.small_area@)
    } else {
        relaxed_findings(oid, ty, tris)
    }
}

/// Whether the measures fit a mesh that the strict checks run on.
pub open spec fn measures_fit(mesh: Mesh, m: MeshMeasures) -> bool {
    m.small_area@.len() == mesh.triangles@.len()
}

/// What the checks need of a mesh: edge slots that can be counted, and, where the strict
/// checks run (`strict`) and it has vertices, triangles that name only existing vertices.
pub open spec fn mesh_checkable(mesh: Mesh, strict: bool) -> bool {
    &&& 3 * mesh.triangles@.len() < usize::MAX
    &&& strict && mesh.vertices@.len() > 0 ==> indices_below(mesh.triangles@, mesh.vertices@.len())
}

/// Checks one mesh: degenerate triangles always; at the Paranoid level the strict checks
/// for object types that must be manifold, else a note on non-manifold edges.
pub fn validate_mesh(mesh: &Mesh, oid: u32, ty: ObjectType, paranoid: bool, m: &MeshMeasures, report: &mut ValidationReport)
    requires
        mesh_checkable(*mesh, paranoid && spec_requires_manifold(ty)),
        paranoid && spec_requires_manifold(ty) ==> measures_fit(*mesh, *m),
    ensures
        appended(old(report).items@, final(report).items@, mesh_findings(*mesh, oid, ty, paranoid, *m)),
{
    let tris = mesh.triangles.as_slice();
    let ghost s0 = report.items@;
    check_degenerate_triangles(tris, oid, ty, report);
    let ghost s1 = report.items@;
    if !paranoid {
        proof { lemma_appended_none(s1); lemma_appended_trans(s0, s1, s1, degenerate_findings(oid, ty, tris@), Seq::empty()); }
        return;
    }
    if ty.requires_manifold() {
        check_manifoldness(tris, oid, report);
        let ghost s2 = report.items@;
        check_vertex_manifoldness(tris, mesh.vertices.len(), oid, report);
        let ghost s3 = report.items@;
        check_islands(tris, oid, report);
        let ghost s4 = report.items@;
        if tris.len() >= 2 && m.intersecting_pairs > 0 {
            let mut msg = String::new();
            append_num(&mut msg, "Object ", oid as u64);
            append_num(&mut msg, " has ", m.intersecting_pairs as u64);
            msg.append(" self-intersecting triangle pairs");
            report.add_warning(4008, msg);
            proof {
                assert(intersection_findings(oid, tris@.len(), m.intersecting_pairs as nat) =~= seq![(ValidationSeverity::Warning, 4008u32, msg@)]);
            }
        } else {
            proof { lemma_appended_none(s4); }
        }
        let ghost s5 = report.items@;
        check_orientation(tris, oid, report);
        let ghost s6 = report.items@;
        let ghost f = |k: int| if m.small_area@[k] {
            seq![warn(4005, "Triangle "@ + decimal(k as nat) + " in Object "@ + decimal(oid as nat) + " has zero/near-zero area (unit scaled)"@)]
        } else {
            Seq::<Finding>::empty()
        };
        proof { lemma_appended_none(s6); }
        let mut i: usize = 0;
        while i < m.small_area.len()
            invariant
                i <= m.small_area@.len(),
                f == (|k: int| if m.small_area@[k] {
                    seq![warn(4005, "Triangle "@ + decimal(k as nat) + " in Object "@ + decimal(oid as nat) + " has zero/near-zero area (unit scaled)"@)]
                } else {
                    Seq::<Finding>::empty()
                }),
                appended(s6, report.items@, concat_upto(i as nat, f)),
            decreases m.small_area@.len() - i,
        {
            let ghost mid = report.items@;
            if m.small_area[i] {
                let mut msg = String::new();
                append_num(&mut msg, "Triangle ", i as u64);
                append_num(&mut msg, " in Object ", oid as u64);
                msg.append(" has zero/near-zero area (unit scaled)");
                report.add_warning(4005, msg);
                proof {
                    assert(f(i as int) =~= seq![(ValidationSeverity::Warning, 4005u32, msg@)]);
                }
            } else {
                proof { lemma_appended_none(mid); }
            }
            proof { lemma_appended_step(s6, mid, report.items@, i as nat, f); }
            i = i + 1;
        }
        proof {
            let tr = tris@;
            let g0 = degenerate_findings(oid, ty, tr);
            let g1 = manifold_findings(oid, tr);
            let g2 = vertex_findings(oid, tr, mesh.vertices@.len());
            let g3 = island_findings(oid, tr);
            let g4 = intersection_findings(oid, tr.len(), m.intersecting_pairs as nat);
            let g5 = orientation_findings(oid, tr);
            let g6 = small_area_findings(oid, m.small_area@);
            lemma_appended_trans(s0, s1, s2, g0, g1);
            lemma_appended_trans(s0, s2, s3, g0 + g1, g2);
            lemma_appended_trans(s0, s3, s4, g0 + g1 + g2, g3);
            lemma_appended_trans(s0, s4, s5, g0 + g1 + g2 + g3, g4);
            lemma_appended_trans(s0, s5, s6, g0 + g1 + g2 + g3 + g4, g5);
            lemma_appended_trans(s0, s6, report.items@, g0 + g1 + g2 + g3 + g4 + g5, g6);
            assert(mesh_findings(*mesh, oid, ty, paranoid, *m) =~= g0 + (g1 + g2 + g3 + g4 + g5 + g6));
        }
    } else {
        let count = count_non_manifold_edges(mesh);
        if count > 0 {
            let mut msg = String::new();
            append_num(&mut msg, "Object ", oid as u64);
            msg.append(" (");
            let tn = ty.to_string();
            msg.append(tn.as_str());
            append_num(&mut msg, ") has ", count as u64);
            msg.append(" non-manifold edges (allowed for this type)");
            report.add_info(4100, msg);
            proof {
                assert(relaxed_findings(oid, ty, tris@) =~= seq![(ValidationSeverity::Info, 4100u32, msg@)]);
            }
        } else {
            proof { lemma_appended_none(s1); }
        }
        proof {
            lemma_appended_trans(s0, s1, report.items@, degenerate_findings(oid, ty, tris@), relaxed_findings(oid, ty, tris@));
        }
    }
}

/// Findings of the geometry checks for every mesh object, in object order.
pub open spec fn mesh_object_findings(objs: Seq<Object>, paranoid: bool, ms: Seq<MeshMeasures>) -> Seq<Finding> {
    concat_upto(objs.len(), |k: int| match objs[k].geometry {
        Geometry::Mesh(mesh) => mesh_findings(mesh, objs[k].id.0, objs[k].object_type, paranoid, ms[k]),
        _ => Seq::empty(),
    })
}

/// Whether the meshes can be checked with these measures (one entry per object).
pub open spec fn geometry_inputs_ok(objs: Seq<Object>, paranoid: bool, ms: Seq<MeshMeasures>) -> bool {
    &&& ms.len() == objs.len()
    &&& forall|k: int| 0 <= k < objs.len() ==> match (#[trigger] objs[k]).geometry {
        Geometry::Mesh(mesh) => mesh_checkable(mesh, paranoid && spec_requires_manifold(objs[k].object_type))
            && (paranoid && spec_requires_manifold(objs[k].object_type) ==> measures_fit(mesh, ms[k])),
        _ => true,
    }
}

/// Checks the mesh of every mesh object; objects made of components are skipped, since
/// their object type does not apply.
pub fn validate_geometry(model: &Model, level: ValidationLevel, measures: &Vec<MeshMeasures>, report: &mut ValidationReport)
    requires
        geometry_inputs_ok(model.resources.objects(), level_rank(level) >= 3, measures@),
    ensures
        appended(old(report).items@, final(report).items@, mesh_object_findings(model.resources.objects(), level_rank(level) >= 3, measures@)),
{
    let paranoid = level.includes(ValidationLevel::Paranoid);
    let objs = model.resources.iter_objects();
    let ghost f = |k: int| match objs@[k].geometry {
        Geometry::Mesh(mesh) => mesh_findings(mesh, objs@[k].id.0, objs@[k].object_type, paranoid, measures@[k]),
        _ => Seq::<Finding>::empty(),
    };
    let ghost s0 = report.items@;
    proof { lemma_appended_none(s0); }
    let mut i: usize = 0;
    while i < objs.len()
        invariant
            objs@ == model.resources.objects(),
            paranoid == (level_rank(level) >= 3),
            geometry_inputs_ok(objs@, paranoid, measures@),
            i <= objs@.len(),
            f == (|k: int| match objs@[k].geometry {
                Geometry::Mesh(mesh) => mesh_findings(mesh, objs@[k].id.0, objs@[k].object_type, paranoid, measures@[k]),
                _ => Seq::<Finding>::empty(),
            }),
            appended(s0, report.items@, concat_upto(i as nat, f)),
        decreases objs@.len() - i,
    {
        let ghost mid = report.items@;
        let o = &objs[i];
        proof { assert(objs@[i as int] == *o); }
        match &o.geometry {
            Geometry::Mesh(mesh) => {
                validate_mesh(mesh, o.id.0, o.object_type, paranoid, &measures[i], report);
            },
            _ => {
                proof { lemma_appended_none(mid); }
            },
        }
        proof { lemma_appended_step(s0, mid, report.items@, i as nat, f); }
        i = i + 1;
    }
}

} // verus!
