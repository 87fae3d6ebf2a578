//! Mesh repair on triangle topology: merging vertices, removing degenerate and duplicate
//! triangles and unused vertices, keeping the largest piece, capping holes and making
//! windings consistent. Where a step needs coordinates (merging keys, triangle areas), the
//! caller supplies the measure.

use vstd::prelude::*;
use std::collections::{HashMap, HashSet};
use crate::topology::{sorted, edge_slots, edge_tally, lemma_edge_slots_len, adj_rel, components, has_node, in_component, is_component_start, start_count, tri_rel, triangle_adjacency, edge_key, sort_edge, first_occurrences, lemma_first_occurrences, lemma_occurrences_push, occurrences};
use crate::model::mesh::{Mesh, Triangle, Vertex};
use crate::validation::geometry::indices_below;
use crate::validation::dag::{count_false, lemma_count_false_flip, lists};

verus! {

broadcast use vstd::std_specs::hash::group_hash_axioms;

// ---------------------------------------------------------------- unused vertices

/// Whether some triangle names vertex `v`.
pub open spec fn vertex_used(tris: Seq<Triangle>, v: int) -> bool {
    exists|k: int| 0 <= k < tris.len() && ((#[trigger] tris[k]).v1 == v || tris[k].v2 == v || tris[k].v3 == v)
}

/// The used vertices among the first `n`, in order.
pub open spec fn used_prefix(vs: Seq<Vertex>, tris: Seq<Triangle>, n: nat) -> Seq<Vertex>
    decreases n,
{
    if n == 0 {
        Seq::empty()
    } else {
        let p = used_prefix(vs, tris, (n - 1) as nat);
        if vertex_used(tris, n - 1) { p.push(vs[n - 1]) } else { p }
    }
}

/// A triangle with its vertices renumbered to positions among the used vertices.
pub open spec fn renumbered(t: Triangle, vs: Seq<Vertex>, tris: Seq<Triangle>) -> Triangle {
    Triangle {
        v1: used_prefix(vs, tris, t.v1 as nat).len() as u32,
        v2: used_prefix(vs, tris, t.v2 as nat).len() as u32,
        v3: used_prefix(vs, tris, t.v3 as nat).len() as u32,
        ..t
    }
}

proof fn lemma_used_prefix_len(vs: Seq<Vertex>, tris: Seq<Triangle>, a: nat, b: nat)
    requires
        a <= b,
    ensures
        used_prefix(vs, tris, a).len() <= used_prefix(vs, tris, b).len() <= b,
        used_prefix(vs, tris, a).len() <= a,
    decreases b - a, a,
{
    if a < b {
        lemma_used_prefix_len(vs, tris, a, (b - 1) as nat);
    } else if a > 0 {
        lemma_used_prefix_len(vs, tris, (a - 1) as nat, (a - 1) as nat);
    }
}

/// Removes the vertices no triangle names and renumbers the triangles; returns how many were
/// removed. Nothing changes when the mesh has no vertices.
pub fn remove_unused_vertices(mesh: &mut Mesh) -> (removed: usize)
    requires
        old(mesh).vertices@.len() > 0 ==> indices_below(old(mesh).triangles@, old(mesh).vertices@.len()),
    ensures
        old(mesh).vertices@.len() == 0 ==> final(mesh).vertices@ == old(mesh).vertices@ && final(mesh).triangles@ == old(mesh).triangles@,
        old(mesh).vertices@.len() > 0 ==> {
            let vs = old(mesh).vertices@;
            let ts = old(mesh).triangles@;
            &&& final(mesh).vertices@ == used_prefix(vs, ts, vs.len())
            &&& final(mesh).triangles@ == ts.map_values(|t: Triangle| renumbered(t, vs, ts))
        },
        removed == old(mesh).vertices@.len() - final(mesh).vertices@.len(),
        final(mesh).beam_lattice == old(mesh).beam_lattice,
{
    let n = mesh.vertices.len();
    if n == 0 {
        return 0;
    }
    let ghost vs = mesh.vertices@;
    let ghost ts = mesh.triangles@;
    let mut used: Vec<bool> = Vec::new();
    let mut i: usize = 0;
    while i < n
        invariant
            i <= n,
            used@.len() == i,
            forall|v: int| 0 <= v < i ==> !used@[v],
        decreases n - i,
    {
        used.push(false);
        i = i + 1;
    }
    let mut k: usize = 0;
    while k < mesh.triangles.len()
        invariant
            n == mesh.vertices@.len(),
            ts == mesh.triangles@,
            indices_below(ts, n as nat),
            k <= ts.len(),
            used@.len() == n,
            forall|v: int| 0 <= v < n ==> (#[trigger] used@[v] <==> exists|j: int| 0 <= j < k && ((#[trigger] ts[j]).v1 == v || ts[j].v2 == v || ts[j].v3 == v)),
        decreases ts.len() - k,
    {
        let t = mesh.triangles[k];
        proof { assert(ts[k as int] == t); }
        used.set(t.v1 as usize, true);
        used.set(t.v2 as usize, true);
        used.set(t.v3 as usize, true);
        proof {
            assert forall|v: int| 0 <= v < n implies (#[trigger] used@[v] <==> exists|j: int| 0 <= j < k + 1 && ((#[trigger] ts[j]).v1 == v || ts[j].v2 == v || ts[j].v3 == v)) by {
                if used@[v] && !(t.v1 == v || t.v2 == v || t.v3 == v) {
                    let j = choose|j: int| 0 <= j < k && ((#[trigger] ts[j]).v1 == v || ts[j].v2 == v || ts[j].v3 == v);
                    assert(0 <= j < k + 1);
                }
                if exists|j: int| 0 <= j < k + 1 && ((#[trigger] ts[j]).v1 == v || ts[j].v2 == v || ts[j].v3 == v) {
                    let j = choose|j: int| 0 <= j < k + 1 && ((#[trigger] ts[j]).v1 == v || ts[j].v2 == v || ts[j].v3 == v);
                    if j < k {
                        assert(exists|j2: int| 0 <= j2 < k && ((#[trigger] ts[j2]).v1 == v || ts[j2].v2 == v || ts[j2].v3 == v));
                    }
                }
            }
        }
        k = k + 1;
    }
    let mut new_vertices: Vec<Vertex> = Vec::new();
    let mut old_to_new: Vec<u32> = Vec::new();
    let mut v: usize = 0;
    while v < n
        invariant
            n == mesh.vertices@.len(),
            vs == mesh.vertices@,
            ts == mesh.triangles@,
            indices_below(ts, n as nat),
            used@.len() == n,
            forall|w: int| 0 <= w < n ==> (#[trigger] used@[w] <==> vertex_used(ts, w)),
            v <= n,
            new_vertices@ == used_prefix(vs, ts, v as nat),
            old_to_new@.len() == v,
            forall|w: int| 0 <= w < v && vertex_used(ts, w) ==> #[trigger] old_to_new@[w] == used_prefix(vs, ts, w as nat).len(),
        decreases n - v,
    {
        if used[v] {
            proof {
                assert(vertex_used(ts, v as int));
                let j = choose|j: int| 0 <= j < ts.len() && ((#[trigger] ts[j]).v1 == v || ts[j].v2 == v || ts[j].v3 == v);
                assert(v <= u32::MAX);
                lemma_used_prefix_len(vs, ts, v as nat, v as nat);
            }
            old_to_new.push(new_vertices.len() as u32);
            new_vertices.push(mesh.vertices[v]);
        } else {
            old_to_new.push(0);
        }
        v = v + 1;
    }
    let mut new_tris: Vec<Triangle> = Vec::new();
    let mut k: usize = 0;
    while k < mesh.triangles.len()
        invariant
            n == mesh.vertices@.len(),
            vs == mesh.vertices@,
            ts == mesh.triangles@,
            indices_below(ts, n as nat),
            old_to_new@.len() == n,
            forall|w: int| 0 <= w < n && vertex_used(ts, w) ==> #[trigger] old_to_new@[w] == used_prefix(vs, ts, w as nat).len(),
            k <= ts.len(),
            new_tris@ == ts.take(k as int).map_values(|t: Triangle| renumbered(t, vs, ts)),
        decreases ts.len() - k,
    {
        let t = mesh.triangles[k];
        proof {
            assert(ts[k as int] == t);
            assert(vertex_used(ts, t.v1 as int));
            assert(vertex_used(ts, t.v2 as int));
            assert(vertex_used(ts, t.v3 as int));
        }
        let nt = Triangle { v1: old_to_new[t.v1 as usize], v2: old_to_new[t.v2 as usize], v3: old_to_new[t.v3 as usize], ..t };
        new_tris.push(nt);
        proof {
            assert(ts.take(k + 1).map_values(|t: Triangle| renumbered(t, vs, ts)) =~= ts.take(k as int).map_values(|t: Triangle| renumbered(t, vs, ts)).push(renumbered(t, vs, ts)));
        }
        k = k + 1;
    }
    proof {
        assert(ts.take(ts.len() as int) =~= ts);
        lemma_used_prefix_len(vs, ts, n as nat, n as nat);
    }
    let removed = n - new_vertices.len();
    mesh.vertices = new_vertices;
    mesh.triangles = new_tris;
    removed
}

// ---------------------------------------------------------------- degenerate and duplicate triangles

/// The vertices of a triangle in increasing order.
pub open spec fn sort3(t: Triangle) -> (u32, u32, u32) {
    let (a, b, c) = (t.v1, t.v2, t.v3);
    if a <= b {
        if b <= c { (a, b, c) } else if a <= c { (a, c, b) } else { (c, a, b) }
    } else {
        if a <= c { (b, a, c) } else if b <= c { (b, c, a) } else { (c, b, a) }
    }
}

/// A number that identifies the vertex set of a triangle.
pub open spec fn face_key(t: Triangle) -> u128 {
    let s = sort3(t);
    (s.0 as int * 0x1_0000_0000_0000_0000 + s.1 as int * 0x1_0000_0000 + s.2 as int) as u128
}

proof fn lemma_face_key(x: Triangle, y: Triangle)
    ensures
        face_key(x) == face_key(y) <==> sort3(x) == sort3(y),
{
    let a = sort3(x);
    let b = sort3(y);
    let ka = a.0 as int * 0x1_0000_0000_0000_0000 + a.1 as int * 0x1_0000_0000 + a.2 as int;
    let kb = b.0 as int * 0x1_0000_0000_0000_0000 + b.1 as int * 0x1_0000_0000 + b.2 as int;
    assert(0 <= ka < 0x1_0000_0000_0000_0000_0000_0000_0000_0000) by (nonlinear_arith)
        requires ka == a.0 as int * 0x1_0000_0000_0000_0000 + a.1 as int * 0x1_0000_0000 + a.2 as int, a.0 <= 0xffff_ffff, a.1 <= 0xffff_ffff, a.2 <= 0xffff_ffff;
    assert(0 <= kb < 0x1_0000_0000_0000_0000_0000_0000_0000_0000) by (nonlinear_arith)
        requires kb == b.0 as int * 0x1_0000_0000_0000_0000 + b.1 as int * 0x1_0000_0000 + b.2 as int, b.0 <= 0xffff_ffff, b.1 <= 0xffff_ffff, b.2 <= 0xffff_ffff;
    if ka == kb {
        assert(a.0 == b.0 && a.1 == b.1 && a.2 == b.2) by (nonlinear_arith)
            requires
                a.0 as int * 0x1_0000_0000_0000_0000 + a.1 as int * 0x1_0000_0000 + a.2 as int == b.0 as int * 0x1_0000_0000_0000_0000 + b.1 as int * 0x1_0000_0000 + b.2 as int,
                a.0 <= 0xffff_ffff, a.1 <= 0xffff_ffff, a.2 <= 0xffff_ffff,
                b.0 <= 0xffff_ffff, b.1 <= 0xffff_ffff, b.2 <= 0xffff_ffff;
    }
}

fn face_key_of(t: &Triangle) -> (k: u128)
    ensures
        k == face_key(*t),
{
    let (a, b, c) = (t.v1, t.v2, t.v3);
    let s: (u32, u32, u32) = if a <= b {
        if b <= c { (a, b, c) } else if a <= c { (a, c, b) } else { (c, a, b) }
    } else {
        if a <= c { (b, a, c) } else if b <= c { (b, c, a) } else { (c, b, a) }
    };
    assert(s.0 as u128 * 0x1_0000_0000_0000_0000u128 + s.1 as u128 * 0x1_0000_0000u128 + s.2 as u128 <= u128::MAX) by (nonlinear_arith)
        requires s.0 <= 0xffff_ffff, s.1 <= 0xffff_ffff, s.2 <= 0xffff_ffff;
    s.0 as u128 * 0x1_0000_0000_0000_0000u128 + s.1 as u128 * 0x1_0000_0000u128 + s.2 as u128
}

/// Whether a triangle names one vertex twice.
pub open spec fn names_vertex_twice(t: Triangle) -> bool {
    t.v1 == t.v2 || t.v2 == t.v3 || t.v3 == t.v1
}

/// The triangles kept from the first `n`: with `drop_degenerate`, those naming a vertex twice
/// or marked small are dropped; with `drop_duplicates`, a triangle on the same three vertices
/// as one already kept is dropped.
pub open spec fn cleaned(tris: Seq<Triangle>, small: Seq<bool>, drop_degenerate: bool, drop_duplicates: bool, n: nat) -> Seq<Triangle>
    decreases n,
{
    if n == 0 {
        Seq::empty()
    } else {
        let p = cleaned(tris, small, drop_degenerate, drop_duplicates, (n - 1) as nat);
        let t = tris[n - 1];
        if drop_degenerate && (names_vertex_twice(t) || small[n - 1]) {
            p
        } else if drop_duplicates && exists|j: int| 0 <= j < p.len() && sort3(#[trigger] p[j]) == sort3(t) {
            p
        } else {
            p.push(t)
        }
    }
}

proof fn lemma_cleaned_len(tris: Seq<Triangle>, small: Seq<bool>, rd: bool, rdup: bool, n: nat)
    ensures
        cleaned(tris, small, rd, rdup, n).len() <= n,
    decreases n,
{
    if n > 0 {
        lemma_cleaned_len(tris, small, rd, rdup, (n - 1) as nat);
    }
}

/// Removes triangles that are degenerate (naming a vertex twice, or marked in `small`, when
/// `remove_degenerate`) or that repeat the vertex set of a kept triangle (when
/// `remove_duplicates`); returns how many were removed.
pub fn clean_triangles(mesh: &mut Mesh, remove_degenerate: bool, remove_duplicates: bool, small: &Vec<bool>) -> (removed: usize)
    requires
        remove_degenerate ==> small@.len() == old(mesh).triangles@.len(),
    ensures
        final(mesh).triangles@ == cleaned(old(mesh).triangles@, small@, remove_degenerate, remove_duplicates, old(mesh).triangles@.len()),
        removed == old(mesh).triangles@.len() - final(mesh).triangles@.len(),
        final(mesh).vertices == old(mesh).vertices,
        final(mesh).beam_lattice == old(mesh).beam_lattice,
{
    let ghost ts = mesh.triangles@;
    let n = mesh.triangles.len();
    let mut kept: Vec<Triangle> = Vec::new();
    let mut seen: HashSet<u128> = HashSet::new();
    let mut i: usize = 0;
    while i < n
        invariant
            n == ts.len(),
            ts == mesh.triangles@,
            remove_degenerate ==> small@.len() == n,
            i <= n,
            kept@ == cleaned(ts, small@, remove_degenerate, remove_duplicates, i as nat),
            forall|key: u128| #[trigger] seen@.contains(key) <==> (remove_duplicates && exists|j: int| 0 <= j < kept@.len() && face_key(#[trigger] kept@[j]) == key),
        decreases n - i,
    {
        let t = mesh.triangles[i];
        proof { assert(ts[i as int] == t); }
        let degenerate = remove_degenerate && (t.v1 == t.v2 || t.v2 == t.v3 || t.v3 == t.v1 || small[i]);
        if !degenerate {
            let ghost k0 = kept@;
            if remove_duplicates {
                let key = face_key_of(&t);
                let fresh = seen.insert(key);
                proof {
                    assert((exists|j: int| 0 <= j < k0.len() && sort3(#[trigger] k0[j]) == sort3(t)) <==> !fresh) by {
                        if exists|j: int| 0 <= j < k0.len() && sort3(#[trigger] k0[j]) == sort3(t) {
                            let j = choose|j: int| 0 <= j < k0.len() && sort3(#[trigger] k0[j]) == sort3(t);
                            lemma_face_key(k0[j], t);
                        }
                        if !fresh {
                            let j = choose|j: int| 0 <= j < k0.len() && face_key(#[trigger] k0[j]) == key;
                            lemma_face_key(k0[j], t);
                        }
                    }
                }
                if fresh {
                    kept.push(t);
                    proof {
                        assert forall|key2: u128| #[trigger] seen@.contains(key2) <==> (remove_duplicates && exists|j: int| 0 <= j < kept@.len() && face_key(#[trigger] kept@[j]) == key2) by {
                            if seen@.contains(key2) && key2 != key {
                                let j = choose|j: int| 0 <= j < k0.len() && face_key(#[trigger] k0[j]) == key2;
                                assert(kept@[j] == k0[j]);
                            }
                            if key2 == key {
                                assert(kept@[k0.len() as int] == t);
                            }
                            if exists|j: int| 0 <= j < kept@.len() && face_key(#[trigger] kept@[j]) == key2 {
                                let j = choose|j: int| 0 <= j < kept@.len() && face_key(#[trigger] kept@[j]) == key2;
                                if j < k0.len() {
                                    assert(k0[j] == kept@[j]);
                                }
                            }
                        }
                    }
                }
            } else {
                kept.push(t);
                proof {
                    assert forall|key2: u128| #[trigger] seen@.contains(key2) <==> (remove_duplicates && exists|j: int| 0 <= j < kept@.len() && face_key(#[trigger] kept@[j]) == key2) by {
                    }
                }
            }
        }
        i = i + 1;
    }
    proof {
        lemma_cleaned_len(ts, small@, remove_degenerate, remove_duplicates, n as nat);
    }
    let removed = n - kept.len();
    mesh.triangles = kept;
    removed
}

// ---------------------------------------------------------------- merging vertices

/// A cell of the merging grid: coordinates divided by the merging distance, rounded.
pub type CellKey = (i64, i64, i64);

/// The vertices kept when merging: the first vertex of each cell, in order.
pub open spec fn stitched_vertices(vs: Seq<Vertex>, keys: Seq<CellKey>, n: nat) -> Seq<Vertex>
    decreases n,
{
    if n == 0 {
        Seq::empty()
    } else {
        let p = stitched_vertices(vs, keys, (n - 1) as nat);
        if first_occurrences(keys.take(n - 1)).contains(keys[n - 1]) { p } else { p.push(vs[n - 1]) }
    }
}

/// The position of cell `k` among the cells in order of first appearance.
pub open spec fn cell_position(keys: Seq<CellKey>, k: CellKey) -> int {
    choose|q: int| 0 <= q < first_occurrences(keys).len() && first_occurrences(keys)[q] == k
}

/// A triangle with each vertex replaced by the kept vertex of its cell.
pub open spec fn restitched(t: Triangle, keys: Seq<CellKey>) -> Triangle {
    Triangle {
        v1: cell_position(keys, keys[t.v1 as int]) as u32,
        v2: cell_position(keys, keys[t.v2 as int]) as u32,
        v3: cell_position(keys, keys[t.v3 as int]) as u32,
        ..t
    }
}

/// The bucket of a cell in the lookup table.
pub open spec fn cell_bucket(k: CellKey) -> u64 {
    (k.0 as u64) ^ ((k.1 as u64) << 21u64) ^ ((k.2 as u64) << 42u64)
}

fn bucket_of(k: CellKey) -> (b: u64)
    ensures
        b == cell_bucket(k),
{
    (k.0 as u64) ^ ((k.1 as u64) << 21u64) ^ ((k.2 as u64) << 42u64)
}

/// Whether the lookup table lists, under each bucket, the positions of the cells in it.
spec fn buckets_ok(m: Map<u64, Vec<u32>>, cells: Seq<CellKey>) -> bool {
    &&& forall|h: u64| #[trigger] m.contains_key(h) ==> forall|q: int| 0 <= q < m[h]@.len() ==>
        (#[trigger] m[h]@[q]) < cells.len() && cell_bucket(cells[m[h]@[q] as int]) == h
    &&& forall|q: int| 0 <= q < cells.len() ==> m.contains_key(cell_bucket(#[trigger] cells[q]))
        && m[cell_bucket(cells[q])]@.contains(q as u32)
}

proof fn lemma_stitched_len(vs: Seq<Vertex>, keys: Seq<CellKey>, n: nat)
    requires
        n <= keys.len(),
    ensures
        stitched_vertices(vs, keys, n).len() == first_occurrences(keys.take(n as int)).len(),
    decreases n,
{
    if n > 0 {
        lemma_stitched_len(vs, keys, (n - 1) as nat);
        assert(keys.take(n as int) =~= keys.take(n - 1).push(keys[n - 1]));
        lemma_occurrences_push(keys.take(n - 1), keys[n - 1]);
    }
}

/// Merges vertices that fall in the same cell of the merging grid (`keys[v]` is the cell of
/// vertex `v`), keeping the first vertex of each cell, and points the triangles at the kept
/// vertices; returns how many vertices were merged away. Nothing changes when the mesh has no
/// vertices.
pub fn stitch_vertices(mesh: &mut Mesh, keys: &Vec<CellKey>) -> (merged: usize)
    requires
        keys@.len() == old(mesh).vertices@.len(),
        old(mesh).vertices@.len() <= 0x1_0000_0000,
        old(mesh).vertices@.len() > 0 ==> indices_below(old(mesh).triangles@, old(mesh).vertices@.len()),
    ensures
        old(mesh).vertices@.len() == 0 ==> final(mesh).vertices@ == old(mesh).vertices@ && final(mesh).triangles@ == old(mesh).triangles@,
        old(mesh).vertices@.len() > 0 ==> {
            &&& final(mesh).vertices@ == stitched_vertices(old(mesh).vertices@, keys@, keys@.len())
            &&& final(mesh).triangles@ == old(mesh).triangles@.map_values(|t: Triangle| restitched(t, keys@))
        },
        merged == old(mesh).vertices@.len() - final(mesh).vertices@.len(),
        final(mesh).beam_lattice == old(mesh).beam_lattice,
{
    let n = mesh.vertices.len();
    if n == 0 {
        return 0;
    }
    let ghost vs = mesh.vertices@;
    let ghost ts = mesh.triangles@;
    let mut new_vertices: Vec<Vertex> = Vec::new();
    let mut cells: Vec<CellKey> = Vec::new();
    let mut remap: Vec<u32> = Vec::new();
    let mut table: HashMap<u64, Vec<u32>> = HashMap::new();
    let mut v: usize = 0;
    while v < n
        invariant
            n == keys@.len(),
            n == vs.len(),
            vs == mesh.vertices@,
            n <= 0x1_0000_0000,
            v <= n,
            cells@ == first_occurrences(keys@.take(v as int)),
            new_vertices@ == stitched_vertices(vs, keys@, v as nat),
            remap@.len() == v,
            forall|w: int| 0 <= w < v ==> (#[trigger] remap@[w]) < cells@.len() && cells@[remap@[w] as int] == keys@[w],
            buckets_ok(table@, cells@),
        decreases n - v,
    {
        let k = keys[v];
        let h = bucket_of(k);
        proof {
            lemma_first_occurrences(keys@.take(v as int));
            assert(keys@.take(v + 1) =~= keys@.take(v as int).push(k));
            lemma_occurrences_push(keys@.take(v as int), k);
            lemma_stitched_len(vs, keys@, v as nat);
            assert(cells@.len() <= v) by {
                assert forall|x: CellKey| #[trigger] occurrences(keys@.take(v as int), x) <= v by {}
                first_occurrences(keys@.take(v as int)).unique_seq_to_set();
                lemma_first_occ_len(keys@.take(v as int));
            }
        }
        let mut found: Option<u32> = None;
        match table.get(&h) {
            Some(list) => {
                let mut q: usize = 0;
                while q < list.len()
                    invariant
                        q <= list@.len(),
                        buckets_ok(table@, cells@),
                        table@.contains_key(h),
                        table@[h] == *list,
                        found matches Some(x) ==> x < cells@.len() && cells@[x as int] == k,
                        found is None ==> forall|j: int| 0 <= j < q ==> cells@[list@[j] as int] != k,
                    decreases list@.len() - q,
                {
                    if found.is_none() {
                        let c = list[q];
                        proof { assert(table@[h]@[q as int] == c); }
                        let ck = cells[c as usize];
                        if ck.0 == k.0 && ck.1 == k.1 && ck.2 == k.2 {
                            found = Some(c);
                        }
                    }
                    q = q + 1;
                }
            },
            None => {},
        }
        match found {
            Some(x) => {
                proof {
                    assert(cells@.contains(k)) by { assert(cells@[x as int] == k); }
                }
                remap.push(x);
            },
            None => {
                proof {
                    assert(!cells@.contains(k)) by {
                        if cells@.contains(k) {
                            let q = choose|q: int| 0 <= q < cells@.len() && cells@[q] == k;
                            assert(table@.contains_key(cell_bucket(cells@[q])));
                            assert(table@[h]@.contains(q as u32));
                            let j = choose|j: int| 0 <= j < table@[h]@.len() && table@[h]@[j] == q as u32;
                        }
                    }
                }
                let idx = cells.len() as u32;
                let ghost c0 = cells@;
                let ghost t0 = table@;
                cells.push(k);
                new_vertices.push(mesh.vertices[v]);
                remap.push(idx);
                let mut l = match table.remove(&h) {
                    Some(l) => l,
                    None => Vec::new(),
                };
                let ghost l0 = l@;
                proof {
                    if t0.contains_key(h) {
                        assert(l0 == t0[h]@);
                    }
                }
                l.push(idx);
                table.insert(h, l);
                proof {
                    assert(table@ == t0.insert(h, l));
                    assert forall|hh: u64| #[trigger] table@.contains_key(hh) implies forall|q: int| 0 <= q < table@[hh]@.len() ==>
                        (#[trigger] table@[hh]@[q]) < cells@.len() && cell_bucket(cells@[table@[hh]@[q] as int]) == hh by {
                        assert forall|q: int| 0 <= q < table@[hh]@.len() implies
                            (#[trigger] table@[hh]@[q]) < cells@.len() && cell_bucket(cells@[table@[hh]@[q] as int]) == hh by {
                            if hh == h && q == l0.len() {
                                assert(table@[hh]@[q] == idx);
                            } else if hh == h {
                                assert(table@[hh]@[q] == t0[h]@[q]);
                                assert(cells@[table@[hh]@[q] as int] == c0[table@[hh]@[q] as int]);
                            } else {
                                assert(cells@[table@[hh]@[q] as int] == c0[table@[hh]@[q] as int]);
                            }
                        }
                    }
                    assert forall|q: int| 0 <= q < cells@.len() implies table@.contains_key(cell_bucket(#[trigger] cells@[q]))
                        && table@[cell_bucket(cells@[q])]@.contains(q as u32) by {
                        if q == c0.len() {
                            assert(table@[h]@[l0.len() as int] == idx);
                        } else {
                            assert(cells@[q] == c0[q]);
                            if cell_bucket(c0[q]) == h {
                                let j = choose|j: int| 0 <= j < t0[h]@.len() && t0[h]@[j] == q as u32;
                                assert(table@[h]@[j] == q as u32);
                            }
                        }
                    }
                }
            },
        }
        proof {
            assert forall|w: int| 0 <= w < v + 1 implies (#[trigger] remap@[w]) < cells@.len() && cells@[remap@[w] as int] == keys@[w] by {
                if w < v {
                    assert(keys@.take(v as int)[w] == keys@[w]);
                }
            }
        }
        v = v + 1;
    }
    proof {
        assert(keys@.take(n as int) =~= keys@);
        lemma_first_occurrences(keys@);
        lemma_stitched_len(vs, keys@, n as nat);
        lemma_first_occ_len(keys@);
    }
    let merged = n - new_vertices.len();
    let mut new_tris: Vec<Triangle> = Vec::new();
    let mut k: usize = 0;
    while k < mesh.triangles.len()
        invariant
            n == keys@.len(),
            ts == mesh.triangles@,
            indices_below(ts, n as nat),
            cells@ == first_occurrences(keys@),
            cells@.no_duplicates(),
            remap@.len() == n,
            forall|w: int| 0 <= w < n ==> (#[trigger] remap@[w]) < cells@.len() && cells@[remap@[w] as int] == keys@[w],
            k <= ts.len(),
            new_tris@ == ts.take(k as int).map_values(|t: Triangle| restitched(t, keys@)),
        decreases ts.len() - k,
    {
        let t = mesh.triangles[k];
        proof {
            assert(ts[k as int] == t);
            assert forall|w: int| 0 <= w < n implies cell_position(keys@, keys@[w]) == remap@[w] as int by {
                let p = cell_position(keys@, keys@[w]);
                assert(cells@[remap@[w] as int] == keys@[w]);
                assert(0 <= p < cells@.len() && cells@[p] == keys@[w]);
                assert(cells@.no_duplicates());
            }
            assert(cell_position(keys@, keys@[t.v1 as int]) == remap@[t.v1 as int] as int);
            assert(cell_position(keys@, keys@[t.v2 as int]) == remap@[t.v2 as int] as int);
            assert(cell_position(keys@, keys@[t.v3 as int]) == remap@[t.v3 as int] as int);
        }
        let nt = Triangle { v1: remap[t.v1 as usize], v2: remap[t.v2 as usize], v3: remap[t.v3 as usize], ..t };
        new_tris.push(nt);
        proof {
            assert(ts.take(k + 1).map_values(|t: Triangle| restitched(t, keys@)) =~= ts.take(k as int).map_values(|t: Triangle| restitched(t, keys@)).push(restitched(t, keys@)));
        }
        k = k + 1;
    }
    proof {
        assert(ts.take(ts.len() as int) =~= ts);
    }
    mesh.vertices = new_vertices;
    mesh.triangles = new_tris;
    merged
}

/// The distinct elements number at most the elements.
proof fn lemma_first_occ_len<T>(s: Seq<T>)
    ensures
        first_occurrences(s).len() <= s.len(),
    decreases s.len(),
{
    if s.len() > 0 {
        lemma_first_occ_len(s.drop_last());
    }
}

// ---------------------------------------------------------------- winding

/// A triangle with its winding reversed: second and third vertex (and their properties) swapped.
pub open spec fn flipped(t: Triangle) -> Triangle {
    Triangle { v2: t.v3, v3: t.v2, p2: t.p3, p3: t.p2, ..t }
}

/// The number of `true` entries.
pub open spec fn count_true(s: Seq<bool>) -> nat
    decreases s.len(),
{
    if s.len() == 0 { 0 } else { count_true(s.drop_last()) + (if s.last() { 1nat } else { 0nat }) }
}

proof fn lemma_count_true_set(s: Seq<bool>, i: int)
    requires
        0 <= i < s.len(),
        !s[i],
    ensures
        count_true(s.update(i, true)) == count_true(s) + 1,
        count_true(s) < s.len(),
    decreases s.len(),
{
    let t = s.update(i, true);
    if i == s.len() - 1 {
        assert(t.drop_last() =~= s.drop_last());
        lemma_count_true_le(s.drop_last());
    } else {
        assert(t.drop_last() =~= s.drop_last().update(i, true));
        lemma_count_true_set(s.drop_last(), i);
    }
}

proof fn lemma_count_true_le(s: Seq<bool>)
    ensures
        count_true(s) <= s.len(),
    decreases s.len(),
{
    if s.len() > 0 {
        lemma_count_true_le(s.drop_last());
    }
}

proof fn lemma_count_true_none(n: nat)
    ensures
        count_true(Seq::new(n, |i: int| false)) == 0,
    decreases n,
{
    if n > 0 {
        assert(Seq::new(n, |i: int| false).drop_last() =~= Seq::new((n - 1) as nat, |i: int| false));
        lemma_count_true_none((n - 1) as nat);
    }
}

/// Whether each triangle of `now` is its counterpart in `before`, reversed where `flags` says.
pub open spec fn flipped_where(before: Seq<Triangle>, now: Seq<Triangle>, flags: Seq<bool>) -> bool {
    &&& flags.len() == before.len()
    &&& now.len() == before.len()
    &&& forall|k: int| 0 <= k < before.len() ==> #[trigger] now[k] == if flags[k] { flipped(before[k]) } else { before[k] }
}

/// Makes windings consistent: a search from each triangle not yet reached visits the
/// triangles sharing an edge with it, and reverses a neighbour that runs along the shared edge
/// in the same direction. Each triangle is reversed at most once; returns how many were.
pub fn harmonize_orientations(mesh: &mut Mesh) -> (count: usize)
    ensures
        exists|flags: Seq<bool>| flipped_where(old(mesh).triangles@, final(mesh).triangles@, flags) && count == count_true(flags),
        final(mesh).vertices == old(mesh).vertices,
        final(mesh).beam_lattice == old(mesh).beam_lattice,
{
    let n = mesh.triangles.len();
    let ghost before = mesh.triangles@;
    let ghost mut flags: Seq<bool> = Seq::new(n as nat, |i: int| false);
    proof {
        lemma_count_true_none(n as nat);
        assert(flipped_where(before, mesh.triangles@, flags));
    }
    if n == 0 {
        return 0;
    }
    // Edge index: undirected edge key to (triangle, directed edge) entries.
    let mut index: HashMap<u64, Vec<(usize, (u32, u32))>> = HashMap::new();
    let mut i: usize = 0;
    while i < n
        invariant
            n == mesh.triangles@.len(),
            i <= n,
            forall|h: u64| #[trigger] index@.contains_key(h) ==> forall|q: int| 0 <= q < index@[h]@.len() ==> (#[trigger] index@[h]@[q]).0 < n,
        decreases n - i,
    {
        let t = mesh.triangles[i];
        let es = [(t.v1, t.v2), (t.v2, t.v3), (t.v3, t.v1)];
        let mut j: usize = 0;
        while j < 3
            invariant
                n == mesh.triangles@.len(),
                i < n,
                j <= 3,
                forall|h: u64| #[trigger] index@.contains_key(h) ==> forall|q: int| 0 <= q < index@[h]@.len() ==> (#[trigger] index@[h]@[q]).0 < n,
            decreases 3 - j,
        {
            let e = es[j];
            let key = key_of_edge(sort_edge(e.0, e.1));
            let ghost m0 = index@;
            let mut l = match index.remove(&key) {
                Some(l) => l,
                None => Vec::new(),
            };
            proof {
                if m0.contains_key(key) {
                    assert(l@ == m0[key]@);
                }
            }
            let ghost l0 = l@;
            l.push((i, e));
            index.insert(key, l);
            proof {
                assert forall|h: u64| #[trigger] index@.contains_key(h) implies forall|q: int| 0 <= q < index@[h]@.len() ==> (#[trigger] index@[h]@[q]).0 < n by {
                    if h == key {
                        assert forall|q: int| 0 <= q < index@[h]@.len() implies (#[trigger] index@[h]@[q]).0 < n by {
                            if q < l0.len() {
                                assert(index@[h]@[q] == m0[key]@[q]);
                            }
                        }
                    }
                }
            }
            j = j + 1;
        }
        i = i + 1;
    }
    let mut visited: Vec<bool> = Vec::new();
    let mut z: usize = 0;
    while z < n
        invariant
            z <= n,
            visited@.len() == z,
            forall|k: int| 0 <= k < z ==> !visited@[k],
        decreases n - z,
    {
        visited.push(false);
        z = z + 1;
    }
    let mut count: usize = 0;
    let mut start: usize = 0;
    while start < n
        invariant
            n == mesh.triangles@.len(),
            start <= n,
            visited@.len() == n,
            flipped_where(before, mesh.triangles@, flags),
            count == count_true(flags),
            forall|k: int| 0 <= k < n && flags[k] ==> visited@[k],
            forall|h: u64| #[trigger] index@.contains_key(h) ==> forall|q: int| 0 <= q < index@[h]@.len() ==> (#[trigger] index@[h]@[q]).0 < n,
            mesh.vertices == old(mesh).vertices,
            mesh.beam_lattice == old(mesh).beam_lattice,
            before == old(mesh).triangles@,
        decreases n - start,
    {
        if !visited[start] {
            let mut queue: Vec<usize> = Vec::new();
            proof { lemma_count_false_flip(visited@, start as int); }
            visited.set(start, true);
            queue.push(start);
            let mut head: usize = 0;
            while head < queue.len()
                invariant
                    n == mesh.triangles@.len(),
                    visited@.len() == n,
                    head <= queue@.len(),
                    forall|q: int| 0 <= q < queue@.len() ==> #[trigger] queue@[q] < n,
                    flipped_where(before, mesh.triangles@, flags),
                    count == count_true(flags),
                    forall|k: int| 0 <= k < n && flags[k] ==> visited@[k],
                    forall|h: u64| #[trigger] index@.contains_key(h) ==> forall|q: int| 0 <= q < index@[h]@.len() ==> (#[trigger] index@[h]@[q]).0 < n,
                    mesh.vertices == old(mesh).vertices,
                    mesh.beam_lattice == old(mesh).beam_lattice,
                    before == old(mesh).triangles@,
                decreases 2 * count_false(visited@) + (queue@.len() - head),
            {
                let ghost m0 = 2 * count_false(visited@) + (queue@.len() - head);
                let curr = queue[head];
                head = head + 1;
                let ct = mesh.triangles[curr];
                let es = [(ct.v1, ct.v2), (ct.v2, ct.v3), (ct.v3, ct.v1)];
                let mut j: usize = 0;
                while j < 3
                    invariant
                        n == mesh.triangles@.len(),
                        visited@.len() == n,
                        head <= queue@.len(),
                        j <= 3,
                        forall|q: int| 0 <= q < queue@.len() ==> #[trigger] queue@[q] < n,
                        flipped_where(before, mesh.triangles@, flags),
                        count == count_true(flags),
                        forall|k: int| 0 <= k < n && flags[k] ==> visited@[k],
                        forall|h: u64| #[trigger] index@.contains_key(h) ==> forall|q: int| 0 <= q < index@[h]@.len() ==> (#[trigger] index@[h]@[q]).0 < n,
                        mesh.vertices == old(mesh).vertices,
                        mesh.beam_lattice == old(mesh).beam_lattice,
                        before == old(mesh).triangles@,
                        2 * count_false(visited@) + (queue@.len() - head) < m0,
                    decreases 3 - j,
                {
                    let e = es[j];
                    let key = key_of_edge(sort_edge(e.0, e.1));
                    match index.get(&key) {
                        Some(list) => {
                            let mut q: usize = 0;
                            while q < list.len()
                                invariant
                                    n == mesh.triangles@.len(),
                                    visited@.len() == n,
                                    head <= queue@.len(),
                                    q <= list@.len(),
                                    index@.contains_key(key),
                                    index@[key] == *list,
                                    2 * count_false(visited@) + (queue@.len() - head) < m0,
                                    forall|r: int| 0 <= r < queue@.len() ==> #[trigger] queue@[r] < n,
                                    flipped_where(before, mesh.triangles@, flags),
                                    count == count_true(flags),
                                    forall|k: int| 0 <= k < n && flags[k] ==> visited@[k],
                                    forall|h: u64| #[trigger] index@.contains_key(h) ==> forall|r: int| 0 <= r < index@[h]@.len() ==> (#[trigger] index@[h]@[r]).0 < n,
                                    mesh.vertices == old(mesh).vertices,
                                    mesh.beam_lattice == old(mesh).beam_lattice,
                                    before == old(mesh).triangles@,
                                decreases list@.len() - q,
                            {
                                let (nb, nbe) = list[q];
                                proof { assert(index@[key]@[q as int] == (nb, nbe)); }
                                if !visited[nb] {
                                    if e.0 == nbe.0 && e.1 == nbe.1 {
                                        let t = mesh.triangles[nb];
                                        proof {
                                            assert(!flags[nb as int]);
                                            lemma_count_true_set(flags, nb as int);
                                        }
                                        mesh.triangles.set(nb, Triangle { v2: t.v3, v3: t.v2, p2: t.p3, p3: t.p2, ..t });
                                        proof {
                                            flags = flags.update(nb as int, true);
                                        }
                                        count = count + 1;
                                    }
                                    proof { lemma_count_false_flip(visited@, nb as int); }
                                    visited.set(nb, true);
                                    queue.push(nb);
                                }
                                q = q + 1;
                            }
                        },
                        None => {},
                    }
                    j = j + 1;
                }
            }
        }
        start = start + 1;
    }
    count
}

fn key_of_edge(e: (u32, u32)) -> (k: u64)
    ensures
        k == edge_key(e),
{
    assert(e.0 as u64 * 0x1_0000_0000u64 + e.1 as u64 <= 0xffff_ffff_ffff_ffff) by (nonlinear_arith);
    e.0 as u64 * 0x1_0000_0000u64 + e.1 as u64
}

// ---------------------------------------------------------------- islands

/// The triangles, by index, in the piece that starts at triangle `s`.
pub open spec fn piece(tris: Seq<Triangle>, s: int) -> Set<usize> {
    Set::new(|x: usize| x < tris.len() && in_component(tri_rel(tris), s, x as int))
}

/// Whether `idx` lists the piece starting at `s`, each triangle once.
pub open spec fn lists_piece(tris: Seq<Triangle>, s: int, idx: Seq<usize>) -> bool {
    &&& idx.no_duplicates()
    &&& forall|q: int| 0 <= q < idx.len() ==> (#[trigger] idx[q]) < tris.len()
    &&& idx.to_set() == piece(tris, s)
}

/// Keeps only the largest piece of edge-connected triangles (the first found among equally
/// large ones), in the order the search took its triangles; returns how many triangles were
/// removed. Nothing changes when the mesh is empty or in one piece.
pub fn remove_islands(mesh: &mut Mesh) -> (removed: usize)
    ensures
        start_count(tri_rel(old(mesh).triangles@), old(mesh).triangles@.len() as int) <= 1 ==> {
            &&& final(mesh).triangles@ == old(mesh).triangles@
            &&& removed == 0
        },
        start_count(tri_rel(old(mesh).triangles@), old(mesh).triangles@.len() as int) > 1 ==> exists|s: int, idx: Seq<usize>| {
            &&& 0 <= s < old(mesh).triangles@.len()
            &&& is_component_start(tri_rel(old(mesh).triangles@), s)
            &&& #[trigger] lists_piece(old(mesh).triangles@, s, idx)
            &&& final(mesh).triangles@ == idx.map_values(|i: usize| old(mesh).triangles@[i as int])
            &&& forall|t: int| 0 <= t < old(mesh).triangles@.len() && is_component_start(tri_rel(old(mesh).triangles@), t) ==> piece(old(mesh).triangles@, t).len() <= idx.len()
            &&& forall|t: int| 0 <= t < s && is_component_start(tri_rel(old(mesh).triangles@), t) ==> piece(old(mesh).triangles@, t).len() < idx.len()
            &&& removed == old(mesh).triangles@.len() - idx.len()
        },
        final(mesh).vertices == old(mesh).vertices,
        final(mesh).beam_lattice == old(mesh).beam_lattice,
{
    let ghost tris = mesh.triangles@;
    let n = mesh.triangles.len();
    if n == 0 {
        proof {
            assert(start_count(tri_rel(tris), 0) == 0);
        }
        return 0;
    }
    let adj = triangle_adjacency(mesh.triangles.as_slice());
    let comps = components(&adj);
    proof {
        assert(adj_rel(lists(adj@)) == tri_rel(tris));
    }
    if comps.len() <= 1 {
        return 0;
    }
    let ghost rel = tri_rel(tris);
    // Sizes of the pieces are the lengths of their listings.
    proof {
        assert forall|c: int| 0 <= c < comps@.len() implies #[trigger] comps@[c]@.to_set() == piece(tris, comps@[c]@[0] as int) && comps@[c]@.len() == piece(tris, comps@[c]@[0] as int).len() by {
            let l = comps@[c]@;
            assert forall|x: usize| #[trigger] l.to_set().contains(x) <==> piece(tris, l[0] as int).contains(x) by {
                if l.to_set().contains(x) {
                    assert(l.contains(x));
                    let q = choose|q: int| 0 <= q < l.len() && l[q] == x;
                    assert(l[q] < n);
                    assert(has_node(l, x as int));
                }
                if piece(tris, l[0] as int).contains(x) {
                    assert(has_node(l, x as int));
                }
            }
            assert(l.to_set() =~= piece(tris, l[0] as int));
            l.unique_seq_to_set();
        }
    }
    let mut best: usize = 0;
    let mut c: usize = 1;
    while c < comps.len()
        invariant
            1 <= c <= comps@.len(),
            best < c,
            forall|d: int| 0 <= d < c ==> (#[trigger] comps@[d])@.len() <= comps@[best as int]@.len(),
            forall|d: int| 0 <= d < best ==> (#[trigger] comps@[d])@.len() < comps@[best as int]@.len(),
        decreases comps@.len() - c,
    {
        if comps[c].len() > comps[best].len() {
            best = c;
        }
        c = c + 1;
    }
    let idx = &comps[best];
    let mut kept: Vec<Triangle> = Vec::new();
    let mut q: usize = 0;
    while q < idx.len()
        invariant
            n == mesh.triangles@.len(),
            tris == mesh.triangles@,
            forall|r: int| 0 <= r < idx@.len() ==> #[trigger] idx@[r] < n,
            q <= idx@.len(),
            kept@ == idx@.take(q as int).map_values(|i: usize| tris[i as int]),
        decreases idx@.len() - q,
    {
        kept.push(mesh.triangles[idx[q]]);
        proof {
            assert(idx@.take(q + 1).map_values(|i: usize| tris[i as int]) =~= idx@.take(q as int).map_values(|i: usize| tris[i as int]).push(tris[idx@[q as int] as int]));
        }
        q = q + 1;
    }
    proof {
        assert(idx@.take(idx@.len() as int) =~= idx@);
        let s = idx@[0] as int;
        assert(idx@.to_set() == piece(tris, idx@[0] as int));
        assert(lists_piece(tris, s, idx@));
        assert forall|t: int| 0 <= t < tris.len() && is_component_start(tri_rel(tris), t) implies piece(tris, t).len() <= idx@.len() by {
            let d = choose|d: int| 0 <= d < comps@.len() && (#[trigger] comps@[d])@[0] == t;
            assert(comps@[d]@.to_set() == piece(tris, comps@[d]@[0] as int));
            assert(comps@[d]@.len() == piece(tris, t).len());
        }
        assert forall|t: int| 0 <= t < s && is_component_start(tri_rel(tris), t) implies piece(tris, t).len() < idx@.len() by {
            let d = choose|d: int| 0 <= d < comps@.len() && (#[trigger] comps@[d])@[0] == t;
            assert(comps@[d]@.to_set() == piece(tris, comps@[d]@[0] as int));
            assert(comps@[d]@.len() == piece(tris, t).len());
            if d >= best {
                if d > best {
                    assert(comps@[best as int]@[0] < comps@[d]@[0]);
                }
            }
        }
        assert(comps@[best as int]@.len() <= n) by {
            idx@.unique_seq_to_set();
            lemma_usize_range_len(n);
            assert(idx@.to_set().subset_of(Set::new(|x: usize| x < n)));
            vstd::set_lib::lemma_len_subset(idx@.to_set(), Set::new(|x: usize| x < n));
        }
    }
    let removed = n - idx.len();
    mesh.triangles = kept;
    removed
}

/// The set of indices below `n` has `n` members.
proof fn lemma_usize_range_len(n: usize)
    ensures
        Set::new(|x: usize| x < n).finite(),
        Set::new(|x: usize| x < n).len() == n,
    decreases n,
{
    if n == 0 {
        assert(Set::new(|x: usize| x < n) =~= Set::<usize>::empty());
    } else {
        let m = (n - 1) as usize;
        lemma_usize_range_len(m);
        assert(Set::new(|x: usize| x < n) =~= Set::new(|x: usize| x < m).insert(m));
    }
}

// ---------------------------------------------------------------- holes

/// Whether `v` is an end of a boundary edge (an undirected edge used by one triangle only).
pub open spec fn boundary_vertex(tris: Seq<Triangle>, v: u32) -> bool {
    exists|e: (u32, u32)| #[trigger] occurrences(edge_slots(tris, false), e) == 1 && (e.0 == v || e.1 == v)
}

/// Whether the triangle names three distinct boundary vertices and carries no properties.
pub open spec fn cap_triangle(tris: Seq<Triangle>, t: Triangle) -> bool {
    &&& boundary_vertex(tris, t.v1)
    &&& boundary_vertex(tris, t.v2)
    &&& boundary_vertex(tris, t.v3)
    &&& t.v1 != t.v2 && t.v2 != t.v3 && t.v1 != t.v3
    &&& t.p1 is None && t.p2 is None && t.p3 is None && t.pid is None
}

/// The slot of `v` once it has a slot: its slot, or the next free one.
spec fn slot_after(slot: Map<u64, usize>, n: nat, v: u32) -> usize {
    if slot.contains_key(v as u64) { slot[v as u64] } else { n as usize }
}

/// The vertices once `v` has a slot.
spec fn verts_after(slot: Map<u64, usize>, verts: Seq<u32>, v: u32) -> Seq<u32> {
    if slot.contains_key(v as u64) { verts } else { verts.push(v) }
}

/// Whether `x` and `y` are joined by a boundary edge (an edge used by one triangle only).
pub open spec fn boundary_edge(tris: Seq<Triangle>, x: u32, y: u32) -> bool {
    occurrences(edge_slots(tris, false), sorted(x, y)) == 1
}

/// Whether the mesh has a boundary and every boundary vertex has boundary edges to two
/// vertices other than itself, as when the holes are rimmed by loops of three or more.
#[verifier::opaque]
pub open spec fn open_loops(tris: Seq<Triangle>) -> bool {
    &&& exists|v: u32| boundary_vertex(tris, v)
    &&& forall|v: u32| #[trigger] boundary_vertex(tris, v) ==> exists|x: u32, y: u32|
        #![trigger boundary_edge(tris, v, x), boundary_edge(tris, v, y)]
        x != y && x != v && y != v && boundary_edge(tris, v, x) && boundary_edge(tris, v, y)
}

/// The boundary graph: vertices in order of appearance, each with its boundary neighbours.
struct BoundaryGraph {
    verts: Vec<u32>,
    nbrs: Vec<Vec<u32>>,
    slot: HashMap<u64, usize>,
}

impl BoundaryGraph {
    spec fn ok(&self, tris: Seq<Triangle>) -> bool {
        &&& self.nbrs@.len() == self.verts@.len()
        &&& forall|s: int| 0 <= s < self.verts@.len() ==> boundary_vertex(tris, #[trigger] self.verts@[s])
        &&& forall|s: int, q: int| 0 <= s < self.nbrs@.len() && 0 <= q < self.nbrs@[s]@.len() ==> {
            &&& boundary_vertex(tris, #[trigger] self.nbrs@[s]@[q])
            &&& self.slot@.contains_key(self.nbrs@[s]@[q] as u64)
        }
        &&& forall|k: u64| #[trigger] self.slot@.contains_key(k) ==> self.slot@[k] < self.verts@.len() && self.verts@[self.slot@[k] as int] as u64 == k
        &&& forall|s: int| 0 <= s < self.verts@.len() ==> self.slot@.contains_key(#[trigger] self.verts@[s] as u64)
        &&& forall|s: int| 0 <= s < self.verts@.len() ==> self.slot@[#[trigger] self.verts@[s] as u64] == s
    }

    /// Whether every boundary edge is listed both ways.
    #[verifier::opaque]
    spec fn complete(&self, slots: Seq<(u32, u32)>) -> bool {
        forall|e: (u32, u32)| #[trigger] occurrences(slots, e) == 1 ==> self.linked(e.0, e.1) && self.linked(e.1, e.0)
    }

    /// Whether `y` is listed as a neighbour of `x`.
    spec fn linked(&self, x: u32, y: u32) -> bool {
        &&& self.slot@.contains_key(x as u64)
        &&& self.nbrs@[self.slot@[x as u64] as int]@.contains(y)
    }

    fn slot_of(&mut self, v: u32, Ghost(tris): Ghost<Seq<Triangle>>) -> (s: usize)
        requires
            old(self).ok(tris),
            boundary_vertex(tris, v),
        ensures
            final(self).ok(tris),
            s < final(self).verts@.len(),
            final(self).verts@[s as int] == v,
            final(self).slot@.contains_key(v as u64),
            forall|k: u64| old(self).slot@.contains_key(k) ==> final(self).slot@.contains_key(k),
            final(self).verts@.len() >= old(self).verts@.len(),
            forall|t: int| 0 <= t < old(self).nbrs@.len() ==> #[trigger] final(self).nbrs@[t] == old(self).nbrs@[t],
            old(self).slot@.contains_key(v as u64) ==> {
                &&& s == old(self).slot@[v as u64]
                &&& final(self).verts@ == old(self).verts@
                &&& final(self).nbrs@ == old(self).nbrs@
                &&& final(self).slot@ == old(self).slot@
            },
            !old(self).slot@.contains_key(v as u64) ==> {
                &&& s == old(self).verts@.len()
                &&& final(self).verts@ == old(self).verts@.push(v)
                &&& final(self).nbrs@.len() == old(self).nbrs@.len() + 1
                &&& final(self).nbrs@[s as int]@ == Seq::<u32>::empty()
                &&& final(self).slot@ == old(self).slot@.insert(v as u64, s)
            },
    {
        match self.slot.get(&(v as u64)) {
            Some(s) => *s,
            None => {
                let s = self.verts.len();
                let ghost m0 = self.slot@;
                self.verts.push(v);
                self.nbrs.push(Vec::new());
                self.slot.insert(v as u64, s);
                proof {
                    assert forall|k: u64| #[trigger] self.slot@.contains_key(k) implies self.slot@[k] < self.verts@.len() && self.verts@[self.slot@[k] as int] as u64 == k by {
                        if k != v as u64 {
                            assert(m0.contains_key(k));
                        }
                    }
                }
                s
            },
        }
    }

    fn link(&mut self, a: u32, b: u32, Ghost(tris): Ghost<Seq<Triangle>>)
        requires
            old(self).ok(tris),
            boundary_vertex(tris, a),
            boundary_vertex(tris, b),
        ensures
            final(self).ok(tris),
            final(self).slot@ == old(self).slot@.insert(b as u64, slot_after(old(self).slot@, old(self).verts@.len(), b))
                .insert(a as u64, slot_after(old(self).slot@.insert(b as u64, slot_after(old(self).slot@, old(self).verts@.len(), b)),
                    verts_after(old(self).slot@, old(self).verts@, b).len(), a)),
            final(self).verts@ == verts_after(old(self).slot@.insert(b as u64, slot_after(old(self).slot@, old(self).verts@.len(), b)),
                verts_after(old(self).slot@, old(self).verts@, b), a),
            final(self).nbrs@.len() == final(self).verts@.len(),
            ({
                let sa = final(self).slot@[a as u64];
                &&& final(self).nbrs@[sa as int]@ == (if sa < old(self).nbrs@.len() { old(self).nbrs@[sa as int]@ } else { Seq::<u32>::empty() }).push(b)
                &&& forall|t: int| 0 <= t < final(self).nbrs@.len() && t != sa ==> #[trigger] final(self).nbrs@[t]@
                    == if t < old(self).nbrs@.len() { old(self).nbrs@[t]@ } else { Seq::<u32>::empty() }
            }),
            final(self).linked(a, b),
            forall|x: u32, y: u32| #[trigger] old(self).linked(x, y) ==> final(self).linked(x, y),
    {
        let ghost g0 = *self;
        let _ = self.slot_of(b, Ghost(tris));
        let ghost g1 = *self;
        let sa = self.slot_of(a, Ghost(tris));
        let ghost n0 = self.nbrs@;
        self.nbrs[sa].push(b);
        proof {
            assert(self.nbrs@[sa as int]@ == n0[sa as int]@.push(b));
            assert(self.nbrs@[sa as int]@[n0[sa as int]@.len() as int] == b);
            assert(self.linked(a, b));
            assert forall|x: u32, y: u32| #[trigger] g0.linked(x, y) implies self.linked(x, y) by {
                assert(g1.slot@[x as u64] == g0.slot@[x as u64]);
                assert(self.slot@[x as u64] == g0.slot@[x as u64]);
                let t = g0.slot@[x as u64] as int;
                assert(g1.nbrs@[t] == g0.nbrs@[t]);
                assert(n0[t] == g0.nbrs@[t]);
                let j = choose|j: int| 0 <= j < g0.nbrs@[t]@.len() && g0.nbrs@[t]@[j] == y;
                if t == sa as int {
                    assert(self.nbrs@[t]@[j] == y);
                } else {
                    assert(self.nbrs@[t] == n0[t]);
                }
            }
            assert forall|s: int, q: int| 0 <= s < self.nbrs@.len() && 0 <= q < self.nbrs@[s]@.len() implies {
                &&& boundary_vertex(tris, #[trigger] self.nbrs@[s]@[q])
                &&& self.slot@.contains_key(self.nbrs@[s]@[q] as u64)
            } by {
                if s != sa as int || q < n0[s]@.len() {
                    assert(self.nbrs@[s]@[q] == n0[s]@[q]);
                }
            }
        }
    }
}

/// Caps holes: the boundary edges (used by one triangle only) are joined at their ends, loops
/// are traced along them from each vertex not yet on a loop, and each loop of three or more
/// vertices is closed by a fan of triangles from its first vertex. Returns how many triangles
/// were added; the existing triangles stay first and unchanged. When every boundary vertex
/// has boundary edges to two other vertices, the first loop traced is closed, so at least one
/// triangle is added.
pub fn fill_holes(mesh: &mut Mesh) -> (added: usize)
    requires
        3 * old(mesh).triangles@.len() < usize::MAX,
    ensures
        final(mesh).triangles@.len() == old(mesh).triangles@.len() + added,
        forall|k: int| 0 <= k < old(mesh).triangles@.len() ==> #[trigger] final(mesh).triangles@[k] == old(mesh).triangles@[k],
        forall|k: int| old(mesh).triangles@.len() <= k < final(mesh).triangles@.len() ==> cap_triangle(old(mesh).triangles@, #[trigger] final(mesh).triangles@[k]),
        final(mesh).vertices@ == old(mesh).vertices@,
        final(mesh).beam_lattice == old(mesh).beam_lattice,
        open_loops(old(mesh).triangles@) ==> added > 0,
{
    let ghost tris = mesh.triangles@;
    let n0 = mesh.triangles.len();
    if n0 == 0 {
        proof {
            if open_loops(tris) {
                reveal(open_loops);
                let v = choose|v: u32| boundary_vertex(tris, v);
                let e = choose|e: (u32, u32)| #[trigger] occurrences(edge_slots(tris, false), e) == 1 && (e.0 == v || e.1 == v);
                assert(edge_slots(tris, false) =~= Seq::<(u32, u32)>::empty());
            }
        }
        return 0;
    }
    let (edges, counts) = edge_tally(mesh.triangles.as_slice(), false);
    let ghost slots = edge_slots(tris, false);
    let mut g = BoundaryGraph { verts: Vec::new(), nbrs: Vec::new(), slot: HashMap::new() };
    let mut q: usize = 0;
    while q < edges.len()
        invariant
            tris == mesh.triangles@,
            slots == edge_slots(tris, false),
            counts@.len() == edges@.len(),
            forall|p: int| 0 <= p < counts@.len() ==> #[trigger] counts@[p] == occurrences(slots, edges@[p]),
            q <= edges@.len(),
            g.ok(tris),
            forall|p: int| #![trigger edges@[p]] 0 <= p < q && counts@[p] == 1 ==> g.linked(edges@[p].0, edges@[p].1) && g.linked(edges@[p].1, edges@[p].0),
        decreases edges@.len() - q,
    {
        if counts[q] == 1 {
            let e = edges[q];
            proof {
                assert(counts@[q as int] == occurrences(slots, edges@[q as int]));
                assert(occurrences(slots, e) == 1);
                assert(boundary_vertex(tris, e.0));
                assert(boundary_vertex(tris, e.1));
            }
            g.link(e.0, e.1, Ghost(tris));
            g.link(e.1, e.0, Ghost(tris));
        }
        q = q + 1;
    }
    proof {
        lemma_first_occurrences(slots);
        assert forall|e: (u32, u32)| #[trigger] occurrences(slots, e) == 1 implies g.linked(e.0, e.1) && g.linked(e.1, e.0) by {
            assert(first_occurrences(slots).contains(e));
            let p = choose|p: int| 0 <= p < edges@.len() && edges@[p] == e;
            assert(counts@[p] == occurrences(slots, edges@[p]));
        }
        assert(g.complete(slots)) by {
            reveal(BoundaryGraph::complete);
        }
        if open_loops(tris) {
            reveal(open_loops);
            let v = choose|v: u32| boundary_vertex(tris, v);
            let e = choose|e: (u32, u32)| #[trigger] occurrences(edge_slots(tris, false), e) == 1 && (e.0 == v || e.1 == v);
            assert(g.linked(e.0, e.1));
            assert(g.verts@.len() > 0);
        }
    }
    let nv = g.verts.len();
    let mut visited: Vec<bool> = Vec::new();
    let mut z: usize = 0;
    proof {
        assert(visited@ =~= Seq::new(0, |j: int| false));
    }
    while z < nv
        invariant
            z <= nv,
            visited@ == Seq::new(z as nat, |j: int| false),
        decreases nv - z,
    {
        visited.push(false);
        z = z + 1;
        proof {
            assert(visited@ =~= Seq::new(z as nat, |j: int| false));
        }
    }
    let mut added: usize = 0;
    let mut start: usize = 0;
    while start < nv
        invariant
            nv == g.verts@.len(),
            g.ok(tris),
            visited@.len() == nv,
            start <= nv,
            mesh.triangles@.len() == n0 + added,
            forall|k: int| 0 <= k < n0 ==> #[trigger] mesh.triangles@[k] == tris[k],
            forall|k: int| n0 <= k < mesh.triangles@.len() ==> cap_triangle(tris, #[trigger] mesh.triangles@[k]),
            mesh.vertices@ == old(mesh).vertices@,
            mesh.beam_lattice == old(mesh).beam_lattice,
            n0 == tris.len(),
            g.complete(slots),
            slots == edge_slots(tris, false),
            start == 0 ==> visited@ == Seq::new(nv as nat, |j: int| false),
            open_loops(tris) ==> nv > 0,
            open_loops(tris) && start > 0 ==> added > 0,
        decreases nv - start,
    {
        let ghost first = start == 0 && open_loops(tris);
        let ghost added_before = added;
        if !visited[start] {
            let start_v = g.verts[start];
            let mut loop_verts: Vec<u32> = Vec::new();
            let mut curr: usize = start;
            let mut tracing = true;
            let ghost mut lslots: Seq<int> = Seq::empty();
            proof { lemma_count_false_le(visited@); }
            while tracing
                invariant
                    nv == g.verts@.len(),
                    g.ok(tris),
                    visited@.len() == nv,
                    curr < nv,
                    tracing ==> !visited@[curr as int],
                    start_v == g.verts@[start as int],
                    forall|r: int| 0 <= r < loop_verts@.len() ==> boundary_vertex(tris, #[trigger] loop_verts@[r]),
                    loop_verts@.len() + count_false(visited@) <= nv,
                    g.complete(slots),
                    slots == edge_slots(tris, false),
                    first ==> start == 0 && open_loops(tris),
                    first && loop_verts@.len() == 0 ==> tracing && curr == 0 && visited@ == Seq::new(nv as nat, |j: int| false),
                    first && loop_verts@.len() == 1 ==> tracing && curr != 0
                        && (forall|j: int| 0 <= j < nv ==> #[trigger] visited@[j] == (j == 0)),
                    first && loop_verts@.len() == 2 ==> tracing,
                    first && !tracing ==> loop_verts@.len() >= 3,
                    lslots.len() == loop_verts@.len(),
                    forall|r: int| 0 <= r < lslots.len() ==> 0 <= #[trigger] lslots[r] < nv && visited@[lslots[r]]
                        && g.verts@[lslots[r]] == loop_verts@[r],
                    loop_verts@.no_duplicates(),
                decreases count_false(visited@) + (if tracing { 1int } else { 0int }),
            {
                let ghost len0 = loop_verts@.len();
                let ghost vis0 = visited@;
                let ghost lv0 = loop_verts@;
                proof {
                    lemma_count_false_flip(visited@, curr as int);
                    lemma_count_false_le(visited@.update(curr as int, true));
                }
                loop_verts.push(g.verts[curr]);
                visited.set(curr, true);
                proof {
                    assert forall|r: int| 0 <= r < lslots.len() implies loop_verts@[r] != g.verts@[curr as int] by {
                        assert(vis0[lslots[r]]);
                        assert(g.slot@[g.verts@[lslots[r]] as u64] == lslots[r]);
                        assert(g.slot@[g.verts@[curr as int] as u64] == curr as int);
                    }
                    assert forall|a: int, b: int| 0 <= a < loop_verts@.len() && 0 <= b < loop_verts@.len() && a != b
                        implies loop_verts@[a] != loop_verts@[b] by {
                        if a < lv0.len() && b < lv0.len() {
                            assert(lv0[a] != lv0[b]);
                        }
                    }
                    lslots = lslots.push(curr as int);
                }
                let nb = &g.nbrs[curr];
                let mut next: Option<usize> = None;
                let mut closed = false;
                let mut i: usize = 0;
                while i < nb.len() && next.is_none() && !closed
                    invariant
                        nv == g.verts@.len(),
                        g.ok(tris),
                        visited@.len() == nv,
                        curr < nv,
                        *nb == g.nbrs@[curr as int],
                        i <= nb@.len(),
                        next matches Some(x) ==> x < nv && !visited@[x as int],
                        closed ==> loop_verts@.len() >= 3,
                        next is None && !closed ==> forall|j: int| 0 <= j < i ==>
                            (nb@[j] == start_v && loop_verts@.len() >= 3) || visited@[g.slot@[#[trigger] nb@[j] as u64] as int],
                    decreases nb@.len() - i,
                {
                    let w = nb[i];
                    proof {
                        assert(g.slot@.contains_key(g.nbrs@[curr as int]@[i as int] as u64));
                    }
                    if w == start_v && loop_verts.len() >= 3 {
                        closed = true;
                    } else {
                        match g.slot.get(&(w as u64)) {
                            Some(ws) => {
                                if !visited[*ws] {
                                    next = Some(*ws);
                                }
                            },
                            None => {},
                        }
                    }
                    i = i + 1;
                }
                proof {
                    if first && len0 == 0 {
                        assert(curr == 0);
                        assert forall|j: int| 0 <= j < nv && #[trigger] visited@[j] implies j == curr || g.verts@[j] == start_v by {}
                        lemma_unvisited_neighbour(g, tris, slots, curr as int, visited@, start_v);
                    }
                    if first && len0 == 1 {
                        assert forall|j: int| 0 <= j < nv && #[trigger] visited@[j] implies j == curr || g.verts@[j] == start_v by {
                            if j != curr as int {
                                assert(vis0[j]);
                            }
                        }
                        lemma_unvisited_neighbour(g, tris, slots, curr as int, visited@, start_v);
                    }
                }
                match next {
                    Some(x) => {
                        curr = x;
                    },
                    None => {
                        tracing = false;
                    },
                }
                proof {
                    if first && len0 == 0 {
                        assert forall|j: int| 0 <= j < nv implies #[trigger] visited@[j] == (j == 0) by {}
                    }
                }
            }
            if loop_verts.len() >= 3 {
                let v0 = loop_verts[0];
                let mut i: usize = 1;
                let ghost a0 = added;
                while i < loop_verts.len() - 1
                    invariant
                        1 <= i <= loop_verts@.len() - 1,
                        added == a0 + (i - 1),
                        loop_verts@.no_duplicates(),
                        forall|r: int| 0 <= r < loop_verts@.len() ==> boundary_vertex(tris, #[trigger] loop_verts@[r]),
                        v0 == loop_verts@[0],
                        mesh.triangles@.len() == n0 + added,
                        forall|k: int| 0 <= k < n0 ==> #[trigger] mesh.triangles@[k] == tris[k],
                        forall|k: int| n0 <= k < mesh.triangles@.len() ==> cap_triangle(tris, #[trigger] mesh.triangles@[k]),
                        mesh.vertices@ == old(mesh).vertices@,
                        mesh.beam_lattice == old(mesh).beam_lattice,
                        n0 == tris.len(),
                    decreases loop_verts@.len() - i,
                {
                    let ghost t0 = mesh.triangles@;
                    mesh.add_triangle(v0, loop_verts[i], loop_verts[i + 1]);
                    proof {
                        assert forall|k: int| n0 <= k < mesh.triangles@.len() implies cap_triangle(tris, #[trigger] mesh.triangles@[k]) by {
                            if k < t0.len() {
                                assert(mesh.triangles@[k] == t0[k]);
                            }
                        }
                        assert forall|k: int| 0 <= k < n0 implies #[trigger] mesh.triangles@[k] == tris[k] by {
                            assert(mesh.triangles@[k] == t0[k]);
                        }
                    }
                    let total = mesh.triangles.len();
                    proof { assert(total == n0 + added + 1); }
                    added = added + 1;
                    i = i + 1;
                }
            }
        }
        start = start + 1;
    }
    added
}

/// A boundary vertex of a mesh with open loops has a listed neighbour not yet visited, when
/// only itself and vertices equal to `avoid` are visited.
proof fn lemma_unvisited_neighbour(g: BoundaryGraph, tris: Seq<Triangle>, slots: Seq<(u32, u32)>, c: int, visited: Seq<bool>, avoid: u32)
    requires
        g.ok(tris),
        g.complete(slots),
        slots == edge_slots(tris, false),
        open_loops(tris),
        0 <= c < g.verts@.len(),
        visited.len() == g.verts@.len(),
        forall|j: int| 0 <= j < visited.len() && #[trigger] visited[j] ==> j == c || g.verts@[j] == avoid,
    ensures
        exists|j: int| 0 <= j < g.nbrs@[c]@.len() && !visited[g.slot@[#[trigger] g.nbrs@[c]@[j] as u64] as int],
{
    let w = g.verts@[c];
    assert(boundary_vertex(tris, w));
    let z = lemma_other_neighbour(tris, w, avoid);
    lemma_linked(g, slots, w, z);
    assert(g.slot@[w as u64] == c);
    let j = choose|j: int| 0 <= j < g.nbrs@[c]@.len() && g.nbrs@[c]@[j] == z;
    let sz = g.slot@[z as u64];
    assert(g.slot@.contains_key(z as u64));
    assert(g.verts@[sz as int] as u64 == z as u64);
    assert(!visited[sz as int]);
    assert(!visited[g.slot@[g.nbrs@[c]@[j] as u64] as int]);
}

/// A boundary vertex of a mesh with open loops has a boundary neighbour other than itself
/// and `avoid`.
proof fn lemma_other_neighbour(tris: Seq<Triangle>, w: u32, avoid: u32) -> (z: u32)
    requires
        open_loops(tris),
        boundary_vertex(tris, w),
    ensures
        z != w,
        z != avoid,
        boundary_edge(tris, w, z),
{
    reveal(open_loops);
    let (x1, y1) = choose|x: u32, y: u32| x != y && x != w && y != w && boundary_edge(tris, w, x) && boundary_edge(tris, w, y);
    if x1 != avoid { x1 } else { y1 }
}

/// A boundary edge is listed by a complete graph.
proof fn lemma_linked(g: BoundaryGraph, slots: Seq<(u32, u32)>, x: u32, y: u32)
    requires
        g.complete(slots),
        occurrences(slots, sorted(x, y)) == 1,
    ensures
        g.linked(x, y),
{
    reveal(BoundaryGraph::complete);
    let e = sorted(x, y);
    assert(g.linked(e.0, e.1) && g.linked(e.1, e.0));
}

/// At most all entries are `false`.
proof fn lemma_count_false_le(s: Seq<bool>)
    ensures
        count_false(s) <= s.len(),
    decreases s.len(),
{
    if s.len() > 0 {
        lemma_count_false_le(s.drop_last());
    }
}

// ---------------------------------------------------------------- the repair pass

/// Which repair steps to run.
#[derive(Debug, Clone, Copy, PartialEq, Eq)]
pub struct RepairOptions {
    /// Distance under which vertices are merged (single-precision bit pattern); merging runs
    /// when it is greater than zero.
    pub stitch_epsilon: u32,
    /// Remove triangles naming a vertex twice or of (near) zero area.
    pub remove_degenerate: bool,
    /// Remove triangles on the same three vertices as an earlier one.
    pub remove_duplicate_faces: bool,
    /// Make windings consistent.
    pub harmonize_orientations: bool,
    /// Keep only the largest piece.
    pub remove_islands: bool,
    /// Cap boundary loops.
    pub fill_holes: bool,
}

/// The bit pattern of 1e-4.
pub const DEFAULT_STITCH_EPSILON: u32 = 0x38d1_b717;

impl Default for RepairOptions {
    fn default() -> (o: Self)
        ensures
            o.stitch_epsilon == DEFAULT_STITCH_EPSILON,
            o.remove_degenerate,
            o.remove_duplicate_faces,
            o.harmonize_orientations,
            !o.remove_islands,
            !o.fill_holes,
    {
        RepairOptions {
            stitch_epsilon: DEFAULT_STITCH_EPSILON,
            remove_degenerate: true,
            remove_duplicate_faces: true,
            harmonize_orientations: true,
            remove_islands: false,
            fill_holes: false,
        }
    }
}

/// What a repair pass did.
#[derive(Debug, Clone, Copy, Default)]
pub struct RepairStats {
    /// Vertices merged away or dropped as unused.
    pub vertices_removed: usize,
    /// Triangles removed.
    pub triangles_removed: usize,
    /// Triangles whose winding was reversed.
    pub triangles_flipped: usize,
    /// Triangles added to cap holes.
    pub triangles_added: usize,
}

/// Whether a single-precision bit pattern denotes a number greater than zero.
pub open spec fn positive_bits(b: u32) -> bool {
    0 < b <= 0x7f80_0000
}

/// What a repair pass needs of a mesh: triangles that name existing vertices (or, without
/// vertices, only triangles naming a vertex twice when degenerate ones are removed),
/// vertices indexable by 32 bits, and edge slots that can be counted.
pub open spec fn repairable(mesh: Mesh, options: RepairOptions) -> bool {
    &&& mesh.vertices@.len() > 0 ==> indices_below(mesh.triangles@, mesh.vertices@.len())
    &&& mesh.vertices@.len() == 0 && options.remove_degenerate ==> forall|k: int| 0 <= k < mesh.triangles@.len() ==> names_vertex_twice(#[trigger] mesh.triangles@[k])
    &&& mesh.vertices@.len() <= 0x1_0000_0000
    &&& 3 * mesh.triangles@.len() < usize::MAX
}

/// Every element of a sequence occurs in it.
proof fn lemma_occurs<T>(s: Seq<T>, w: int)
    requires
        0 <= w < s.len(),
    ensures
        occurrences(s, s[w]) > 0,
    decreases s.len(),
{
    if w < s.len() - 1 {
        lemma_occurs(s.drop_last(), w);
        assert(s.drop_last()[w] == s[w]);
    }
}

/// The cell of a vertex is among the cells, at a position below their number.
proof fn lemma_cell_position(keys: Seq<CellKey>, w: int)
    requires
        0 <= w < keys.len(),
    ensures
        0 <= cell_position(keys, keys[w]) < first_occurrences(keys).len(),
{
    lemma_occurs(keys, w);
    lemma_first_occurrences(keys);
    assert(first_occurrences(keys).contains(keys[w]));
}

/// Merged triangles name merged vertices.
proof fn lemma_restitched_valid(ts: Seq<Triangle>, keys: Seq<CellKey>, vs: Seq<Vertex>)
    requires
        keys.len() == vs.len(),
        indices_below(ts, vs.len()),
    ensures
        indices_below(ts.map_values(|t: Triangle| restitched(t, keys)), stitched_vertices(vs, keys, keys.len()).len()),
{
    lemma_stitched_len(vs, keys, keys.len());
    assert(keys.take(keys.len() as int) =~= keys);
    let m = ts.map_values(|t: Triangle| restitched(t, keys));
    assert forall|k: int| 0 <= k < m.len() implies (#[trigger] m[k]).v1 < stitched_vertices(vs, keys, keys.len()).len()
        && m[k].v2 < stitched_vertices(vs, keys, keys.len()).len() && m[k].v3 < stitched_vertices(vs, keys, keys.len()).len() by {
        let t = ts[k];
        assert(t.v1 < vs.len() && t.v2 < vs.len() && t.v3 < vs.len());
        lemma_cell_position(keys, t.v1 as int);
        lemma_cell_position(keys, t.v2 as int);
        lemma_cell_position(keys, t.v3 as int);
        lemma_first_occ_len(keys);
    }
}

/// The kept triangles are triangles of the input.
proof fn lemma_cleaned_from(tris: Seq<Triangle>, small: Seq<bool>, rd: bool, rdup: bool, n: nat)
    requires
        n <= tris.len(),
    ensures
        forall|j: int| 0 <= j < cleaned(tris, small, rd, rdup, n).len() ==> exists|k: int| 0 <= k < n && #[trigger] cleaned(tris, small, rd, rdup, n)[j] == tris[k],
    decreases n,
{
    if n > 0 {
        lemma_cleaned_from(tris, small, rd, rdup, (n - 1) as nat);
        let p = cleaned(tris, small, rd, rdup, (n - 1) as nat);
        let c = cleaned(tris, small, rd, rdup, n);
        assert forall|j: int| 0 <= j < c.len() implies exists|k: int| 0 <= k < n && #[trigger] c[j] == tris[k] by {
            if j < p.len() {
                assert(c[j] == p[j]);
                let k = choose|k: int| 0 <= k < n - 1 && #[trigger] p[j] == tris[k];
            } else {
                assert(c[j] == tris[n - 1]);
            }
        }
    }
}

/// Renumbered triangles name kept vertices.
proof fn lemma_renumbered_valid(vs: Seq<Vertex>, ts: Seq<Triangle>)
    requires
        indices_below(ts, vs.len()),
    ensures
        indices_below(ts.map_values(|t: Triangle| renumbered(t, vs, ts)), used_prefix(vs, ts, vs.len()).len()),
{
    let m = ts.map_values(|t: Triangle| renumbered(t, vs, ts));
    let total = used_prefix(vs, ts, vs.len()).len();
    assert forall|k: int| 0 <= k < m.len() implies (#[trigger] m[k]).v1 < total && m[k].v2 < total && m[k].v3 < total by {
        let t = ts[k];
        lemma_used_rank(vs, ts, t.v1 as nat, k);
        lemma_used_rank(vs, ts, t.v2 as nat, k);
        lemma_used_rank(vs, ts, t.v3 as nat, k);
    }
}

proof fn lemma_used_rank(vs: Seq<Vertex>, ts: Seq<Triangle>, v: nat, k: int)
    requires
        0 <= k < ts.len(),
        ts[k].v1 == v || ts[k].v2 == v || ts[k].v3 == v,
        v < vs.len(),
    ensures
        used_prefix(vs, ts, v).len() < used_prefix(vs, ts, vs.len()).len(),
        used_prefix(vs, ts, v).len() <= u32::MAX,
{
    assert(vertex_used(ts, v as int));
    assert(used_prefix(vs, ts, v + 1).len() == used_prefix(vs, ts, v).len() + 1);
    lemma_used_prefix_len(vs, ts, v + 1, vs.len());
    lemma_used_prefix_len(vs, ts, v, v);
}

/// Whether `b` is `a` with holes capped: the triangles of `a` first and unchanged, then
/// cap triangles over its boundary vertices, at least one where the holes are rimmed by
/// open loops; vertices and beams unchanged.
pub open spec fn capped(a: Mesh, b: Mesh) -> bool {
    &&& b.triangles@.len() >= a.triangles@.len()
    &&& forall|k: int| 0 <= k < a.triangles@.len() ==> #[trigger] b.triangles@[k] == a.triangles@[k]
    &&& forall|k: int| a.triangles@.len() <= k < b.triangles@.len() ==> cap_triangle(a.triangles@, #[trigger] b.triangles@[k])
    &&& b.vertices@ == a.vertices@
    &&& b.beam_lattice == a.beam_lattice
    &&& open_loops(a.triangles@) ==> b.triangles@.len() > a.triangles@.len()
}

/// Whether `b` holds what `a` holds.
pub open spec fn mesh_kept(a: Mesh, b: Mesh) -> bool {
    a.vertices@ == b.vertices@ && a.triangles@ == b.triangles@ && a.beam_lattice == b.beam_lattice
}

/// Whether `b` is `a` with vertices merged by the cells `keys` (one per vertex).
pub open spec fn merged_by(a: Mesh, b: Mesh, keys: Seq<CellKey>) -> bool {
    &&& a.vertices@.len() == 0 ==> b.vertices@ == a.vertices@ && b.triangles@ == a.triangles@
    &&& a.vertices@.len() > 0 ==> {
        &&& b.vertices@ == stitched_vertices(a.vertices@, keys, keys.len())
        &&& b.triangles@ == a.triangles@.map_values(|t: Triangle| restitched(t, keys))
    }
    &&& b.beam_lattice == a.beam_lattice
}

/// The merging step of a repair: when the distance is positive, the cells that `cells`
/// gives for `a` merge its vertices (no merging when there is not one cell per vertex).
pub open spec fn stitch_step<K: Fn(&Mesh) -> Vec<CellKey>>(cells: K, eps: u32, a: Mesh, b: Mesh) -> bool {
    if positive_bits(eps) {
        exists|kv: Vec<CellKey>| {
            &&& #[trigger] cells.ensures((&a,), kv)
            &&& if kv@.len() == a.vertices@.len() { merged_by(a, b, kv@) } else { mesh_kept(a, b) }
        }
    } else {
        mesh_kept(a, b)
    }
}

/// The cleaning step of a repair: when degenerate or duplicate triangles are removed, the
/// small-area marks that `small` gives for `a` (none, when not one per triangle) say which.
pub open spec fn clean_step<S: Fn(&Mesh) -> Vec<bool>>(small: S, rd: bool, rdup: bool, a: Mesh, b: Mesh) -> bool {
    if rd || rdup {
        exists|mv: Vec<bool>| {
            &&& #[trigger] small.ensures((&a,), mv)
            &&& b.triangles@ == cleaned(
                a.triangles@,
                if mv@.len() == a.triangles@.len() { mv@ } else { Seq::new(a.triangles@.len(), |i: int| false) },
                rd,
                rdup,
                a.triangles@.len(),
            )
            &&& b.vertices@ == a.vertices@
            &&& b.beam_lattice == a.beam_lattice
        }
    } else {
        mesh_kept(a, b)
    }
}

/// The step of a repair that drops unused vertices and renumbers the triangles.
pub open spec fn unused_step(a: Mesh, b: Mesh) -> bool {
    &&& a.vertices@.len() == 0 ==> b.vertices@ == a.vertices@ && b.triangles@ == a.triangles@
    &&& a.vertices@.len() > 0 ==> {
        let vs = a.vertices@;
        let ts = a.triangles@;
        &&& b.vertices@ == used_prefix(vs, ts, vs.len())
        &&& b.triangles@ == ts.map_values(|t: Triangle| renumbered(t, vs, ts))
    }
    &&& b.beam_lattice == a.beam_lattice
}

/// The island step of a repair: when asked, only the largest piece is kept (the first of
/// the largest, with its triangles in search order); a mesh of one piece is kept whole.
pub open spec fn islands_step(on: bool, a: Mesh, b: Mesh) -> bool {
    if on {
        &&& start_count(tri_rel(a.triangles@), a.triangles@.len() as int) <= 1 ==> b.triangles@ == a.triangles@
        &&& start_count(tri_rel(a.triangles@), a.triangles@.len() as int) > 1 ==> exists|s: int, idx: Seq<usize>| {
            &&& 0 <= s < a.triangles@.len()
            &&& is_component_start(tri_rel(a.triangles@), s)
            &&& #[trigger] lists_piece(a.triangles@, s, idx)
            &&& b.triangles@ == idx.map_values(|i: usize| a.triangles@[i as int])
            &&& forall|t: int| 0 <= t < a.triangles@.len() && is_component_start(tri_rel(a.triangles@), t) ==> piece(a.triangles@, t).len() <= idx.len()
            &&& forall|t: int| 0 <= t < s && is_component_start(tri_rel(a.triangles@), t) ==> piece(a.triangles@, t).len() < idx.len()
        }
        &&& b.vertices@ == a.vertices@
        &&& b.beam_lattice == a.beam_lattice
    } else {
        mesh_kept(a, b)
    }
}

/// The hole step of a repair: when asked, holes are capped as [`fill_holes`] does.
pub open spec fn holes_step(on: bool, a: Mesh, b: Mesh) -> bool {
    if on { capped(a, b) } else { mesh_kept(a, b) }
}

/// The orientation step of a repair: when asked, some triangles are reversed (`n` of them)
/// as [`harmonize_orientations`] does.
pub open spec fn orient_step(on: bool, a: Mesh, b: Mesh, n: nat) -> bool {
    if on {
        &&& exists|flags: Seq<bool>| flipped_where(a.triangles@, b.triangles@, flags) && n == count_true(flags)
        &&& b.vertices@ == a.vertices@
        &&& b.beam_lattice == a.beam_lattice
    } else {
        mesh_kept(a, b) && n == 0
    }
}

/// Whether a repair went from `a` through `m1` .. `m5` to `b`, one step each, and `stats`
/// counts what the steps did.
pub open spec fn repair_path<K: Fn(&Mesh) -> Vec<CellKey>, S: Fn(&Mesh) -> Vec<bool>>(
    cells: K,
    small: S,
    options: RepairOptions,
    a: Mesh,
    m1: Mesh,
    m2: Mesh,
    m3: Mesh,
    m4: Mesh,
    m5: Mesh,
    b: Mesh,
    stats: RepairStats,
) -> bool {
    &&& stitch_step(cells, options.stitch_epsilon, a, m1)
    &&& clean_step(small, options.remove_degenerate, options.remove_duplicate_faces, m1, m2)
    &&& unused_step(m2, m3)
    &&& islands_step(options.remove_islands, m3, m4)
    &&& holes_step(options.fill_holes, m4, m5)
    &&& orient_step(options.harmonize_orientations, m5, b, stats.triangles_flipped as nat)
    &&& stats.vertices_removed == (a.vertices@.len() - m1.vertices@.len()) + (m2.vertices@.len() - m3.vertices@.len())
    &&& stats.triangles_removed == (m1.triangles@.len() - m2.triangles@.len()) + (m3.triangles@.len() - m4.triangles@.len())
    &&& stats.triangles_added == m5.triangles@.len() - m4.triangles@.len()
}

fn all_false(n: usize) -> (v: Vec<bool>)
    ensures
        v@ == Seq::new(n as nat, |i: int| false),
{
    let mut v: Vec<bool> = Vec::new();
    let mut i: usize = 0;
    proof {
        assert(v@ =~= Seq::new(0, |j: int| false));
    }
    while i < n
        invariant
            i <= n,
            v@ == Seq::new(i as nat, |j: int| false),
        decreases n - i,
    {
        v.push(false);
        i = i + 1;
        proof {
            assert(v@ =~= Seq::new(i as nat, |j: int| false));
        }
    }
    v
}

impl Mesh {
    /// Runs the repair steps the options ask for, in order: merge vertices (by the cells
    /// `cells` gives for the mesh), remove degenerate and duplicate triangles (by the
    /// small-area marks `small` gives for the mesh as it then is), drop unused vertices,
    /// keep the largest piece, cap holes, make windings consistent. Measures of the wrong
    /// length are not used: no merging, and no triangle counted as small.
    pub fn repair<K: Fn(&Mesh) -> Vec<CellKey>, A: Fn(&Mesh) -> Vec<bool>>(&mut self, options: RepairOptions, cells: K, small: A) -> (stats: RepairStats)
        requires
            repairable(*old(self), options),
            forall|m: &Mesh| cells.requires((m,)),
            forall|m: &Mesh| small.requires((m,)),
        ensures
            final(self).vertices@.len() + stats.vertices_removed == old(self).vertices@.len(),
            final(self).triangles@.len() + stats.triangles_removed == old(self).triangles@.len() + stats.triangles_added,
            !options.fill_holes ==> stats.triangles_added == 0,
            !options.harmonize_orientations ==> stats.triangles_flipped == 0,
            !options.remove_islands && !options.remove_degenerate && !options.remove_duplicate_faces ==> stats.triangles_removed == 0,
            exists|m1: Mesh, m2: Mesh, m3: Mesh, m4: Mesh, m5: Mesh|
                #[trigger] repair_path(cells, small, options, *old(self), m1, m2, m3, m4, m5, *final(self), stats),
    {
        let mut stats = RepairStats { vertices_removed: 0, triangles_removed: 0, triangles_flipped: 0, triangles_added: 0 };
        let ghost m0 = *self;
        if 0 < options.stitch_epsilon && options.stitch_epsilon <= 0x7f80_0000 {
            let keys = cells(self);
            if keys.len() == self.vertices.len() {
                let ghost ts0 = self.triangles@;
                let ghost vs0 = self.vertices@;
                let merged = stitch_vertices(self, &keys);
                stats.vertices_removed = merged;
                proof {
                    if vs0.len() > 0 {
                        lemma_restitched_valid(ts0, keys@, vs0);
                    }
                }
            }
        }
        let ghost m1 = *self;
        proof {
            if !positive_bits(options.stitch_epsilon) {
                assert(mesh_kept(m0, m1));
            }
        }
        if options.remove_degenerate || options.remove_duplicate_faces {
            let marks = small(self);
            let none: Vec<bool> = all_false(self.triangles.len());
            let ghost ts1 = self.triangles@;
            let ghost vs1 = self.vertices@;
            let removed = if marks.len() == self.triangles.len() {
                let r = clean_triangles(self, options.remove_degenerate, options.remove_duplicate_faces, &marks);
                proof { lemma_cleaned_from(ts1, marks@, options.remove_degenerate, options.remove_duplicate_faces, ts1.len()); }
                r
            } else {
                let r = clean_triangles(self, options.remove_degenerate, options.remove_duplicate_faces, &none);
                proof { lemma_cleaned_from(ts1, none@, options.remove_degenerate, options.remove_duplicate_faces, ts1.len()); }
                r
            };
            stats.triangles_removed = removed;
            proof {
                if vs1.len() > 0 {
                    assert forall|k: int| 0 <= k < self.triangles@.len() implies
                        (#[trigger] self.triangles@[k]).v1 < vs1.len() && self.triangles@[k].v2 < vs1.len() && self.triangles@[k].v3 < vs1.len() by {
                        let j = choose|j: int| 0 <= j < ts1.len() && #[trigger] self.triangles@[k] == ts1[j];
                        assert(ts1[j].v1 < vs1.len());
                    }
                }
            }
        }
        let ghost m2 = *self;
        proof {
            if !(options.remove_degenerate || options.remove_duplicate_faces) {
                assert(mesh_kept(m1, m2));
            }
        }
        let ghost ts2 = self.triangles@;
        let ghost vs2 = self.vertices@;
        let unused = remove_unused_vertices(self);
        proof {
            if vs2.len() > 0 {
                lemma_renumbered_valid(vs2, ts2);
            }
        }
        stats.vertices_removed = stats.vertices_removed + unused;
        let ghost m3 = *self;
        if options.remove_islands {
            let removed = remove_islands(self);
            stats.triangles_removed = stats.triangles_removed + removed;
        }
        let ghost m4 = *self;
        proof {
            assert(islands_step(options.remove_islands, m3, m4));
        }
        if options.fill_holes {
            let added = fill_holes(self);
            stats.triangles_added = added;
        }
        let ghost m5 = *self;
        proof {
            assert(holes_step(options.fill_holes, m4, m5));
        }
        if options.harmonize_orientations {
            let flipped = harmonize_orientations(self);
            stats.triangles_flipped = flipped;
        }
        proof {
            assert(orient_step(options.harmonize_orientations, m5, *self, stats.triangles_flipped as nat));
            assert(repair_path(cells, small, options, m0, m1, m2, m3, m4, m5, *self, stats));
        }
        stats
    }
}

} // verus!
