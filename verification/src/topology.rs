//! Triangle-mesh topology: edges, edge tallies, reachability and connected components.

use vstd::prelude::*;
use std::collections::HashMap;
use crate::model::mesh::Triangle;
use crate::validation::dag::{count_false, is_edge, lemma_count_false_flip, lists, well_formed};

verus! {

broadcast use vstd::std_specs::hash::group_hash_axioms;

/// The undirected edge `{a, b}` with its smaller vertex first.
pub open spec fn sorted(a: u32, b: u32) -> (u32, u32) {
    if a < b { (a, b) } else { (b, a) }
}

/// The edges of a triangle in vertex order: `v1→v2`, `v2→v3`, `v3→v1`.
pub open spec fn directed_edges(t: Triangle) -> Seq<(u32, u32)> {
    seq![(t.v1, t.v2), (t.v2, t.v3), (t.v3, t.v1)]
}

/// The edges of a triangle in vertex order, each with its smaller vertex first.
pub open spec fn undirected_edges(t: Triangle) -> Seq<(u32, u32)> {
    seq![sorted(t.v1, t.v2), sorted(t.v2, t.v3), sorted(t.v3, t.v1)]
}

/// The edges of a triangle, directed or not.
pub open spec fn edges_of(t: Triangle, directed: bool) -> Seq<(u32, u32)> {
    if directed { directed_edges(t) } else { undirected_edges(t) }
}

/// All edges of a sequence of triangles, triangle by triangle.
pub open spec fn edge_slots(tris: Seq<Triangle>, directed: bool) -> Seq<(u32, u32)>
    decreases tris.len(),
{
    if tris.len() == 0 {
        Seq::empty()
    } else {
        edge_slots(tris.drop_last(), directed) + edges_of(tris.last(), directed)
    }
}

/// How often `x` occurs in `s`.
pub open spec fn occurrences<T>(s: Seq<T>, x: T) -> nat
    decreases s.len(),
{
    if s.len() == 0 {
        0
    } else {
        occurrences(s.drop_last(), x) + (if s.last() == x { 1nat } else { 0nat })
    }
}

/// The distinct elements of `s`, in the order of their first occurrence.
pub open spec fn first_occurrences<T>(s: Seq<T>) -> Seq<T>
    decreases s.len(),
{
    if s.len() == 0 {
        Seq::empty()
    } else {
        let r = first_occurrences(s.drop_last());
        if r.contains(s.last()) { r } else { r.push(s.last()) }
    }
}

/// An element occurs exactly when it is among the first occurrences, which hold no repeats.
pub proof fn lemma_first_occurrences<T>(s: Seq<T>)
    ensures
        forall|x: T| #[trigger] first_occurrences(s).contains(x) <==> occurrences(s, x) > 0,
        forall|x: T| #[trigger] occurrences(s, x) <= s.len(),
        first_occurrences(s).no_duplicates(),
    decreases s.len(),
{
    if s.len() > 0 {
        let t = s.drop_last();
        lemma_first_occurrences(t);
        let r = first_occurrences(t);
        assert forall|x: T| #[trigger] first_occurrences(s).contains(x) <==> occurrences(s, x) > 0 by {
            if !r.contains(s.last()) {
                let rp = r.push(s.last());
                if rp.contains(x) && x != s.last() {
                    let k = choose|k: int| 0 <= k < rp.len() && rp[k] == x;
                    assert(r[k] == x);
                }
                if r.contains(x) {
                    let k = choose|k: int| 0 <= k < r.len() && r[k] == x;
                    assert(rp[k] == x);
                }
                if x == s.last() {
                    assert(rp[rp.len() - 1] == x);
                }
            }
        }
        assert forall|x: T| #[trigger] occurrences(s, x) <= s.len() by {
            assert(occurrences(t, x) <= t.len());
        }
    }
}

/// Appending to a sequence extends its tallies.
pub proof fn lemma_occurrences_push<T>(s: Seq<T>, x: T)
    ensures
        forall|y: T| #[trigger] occurrences(s.push(x), y) == occurrences(s, y) + (if x == y { 1nat } else { 0nat }),
        first_occurrences(s.push(x)) == (if first_occurrences(s).contains(x) {
            first_occurrences(s)
        } else {
            first_occurrences(s).push(x)
        }),
{
    assert(s.push(x).drop_last() =~= s);
}

/// A 64-bit key that identifies an edge.
pub open spec fn edge_key(e: (u32, u32)) -> u64 {
    (e.0 as int * 0x1_0000_0000 + e.1 as int) as u64
}

/// Distinct edges have distinct keys.
pub proof fn lemma_edge_key_injective(a: (u32, u32), b: (u32, u32))
    ensures
        edge_key(a) == edge_key(b) ==> a == b,
{
    assert(0 <= a.0 as int * 0x1_0000_0000 + a.1 as int <= 0xffff_ffff_ffff_ffff) by (nonlinear_arith);
    assert(0 <= b.0 as int * 0x1_0000_0000 + b.1 as int <= 0xffff_ffff_ffff_ffff) by (nonlinear_arith);
    let x = a.0 as int;
    let y = b.0 as int;
    if x < y {
        assert(x * 0x1_0000_0000 + 0x1_0000_0000 <= y * 0x1_0000_0000) by (nonlinear_arith)
            requires x < y;
    }
    if y < x {
        assert(y * 0x1_0000_0000 + 0x1_0000_0000 <= x * 0x1_0000_0000) by (nonlinear_arith)
            requires y < x;
    }
}

fn key_of(e: (u32, u32)) -> (k: u64)
    ensures
        k == edge_key(e),
{
    assert(e.0 as u64 * 0x1_0000_0000u64 + e.1 as u64 <= 0xffff_ffff_ffff_ffff) by (nonlinear_arith);
    e.0 as u64 * 0x1_0000_0000u64 + e.1 as u64
}

/// The smaller vertex first.
pub fn sort_edge(v1: u32, v2: u32) -> (e: (u32, u32))
    ensures
        e == sorted(v1, v2),
{
    if v1 < v2 { (v1, v2) } else { (v2, v1) }
}

/// The edges of a triangle, directed or not, as values.
pub fn triangle_edges(t: &Triangle, directed: bool) -> (r: [(u32, u32); 3])
    ensures
        r@ == edges_of(*t, directed),
{
    let r = if directed {
        [(t.v1, t.v2), (t.v2, t.v3), (t.v3, t.v1)]
    } else {
        [sort_edge(t.v1, t.v2), sort_edge(t.v2, t.v3), sort_edge(t.v3, t.v1)]
    };
    assert(r@ =~= edges_of(*t, directed));
    r
}

/// Distinct edges in order of first appearance, how often each occurs, and where each is.
struct EdgeTally {
    edges: Vec<(u32, u32)>,
    counts: Vec<usize>,
    index: HashMap<u64, usize>,
}

impl EdgeTally {
    /// Whether this tally describes the edge sequence `s`.
    spec fn describes(&self, s: Seq<(u32, u32)>) -> bool {
        &&& self.edges@ == first_occurrences(s)
        &&& self.counts@.len() == self.edges@.len()
        &&& forall|q: int| 0 <= q < self.counts@.len() ==> #[trigger] self.counts@[q] == occurrences(s, self.edges@[q])
        &&& self.index_ok()
    }

    /// The index maps each edge's key to its position.
    spec fn index_ok(&self) -> bool {
        &&& forall|x: (u32, u32)| #[trigger] self.index@.contains_key(edge_key(x)) <==> self.edges@.contains(x)
        &&& forall|q: int| 0 <= q < self.edges@.len() ==> self.index@[edge_key(#[trigger] self.edges@[q])] == q
    }

    fn empty() -> (t: Self)
        ensures
            t.describes(Seq::empty()),
    {
        let t = EdgeTally { edges: Vec::new(), counts: Vec::new(), index: HashMap::new() };
        proof {
            assert(first_occurrences(Seq::<(u32, u32)>::empty()) =~= Seq::empty());
        }
        t
    }

    fn add(&mut self, e: (u32, u32), Ghost(s): Ghost<Seq<(u32, u32)>>)
        requires
            old(self).describes(s),
            s.len() < usize::MAX,
        ensures
            final(self).describes(s.push(e)),
    {
        proof {
            lemma_first_occurrences(s);
            lemma_occurrences_push(s, e);
        }
        let k = key_of(e);
        match self.index.get(&k) {
            Some(pos) => {
                let p = *pos;
                proof {
                    assert(self.edges@.contains(e));
                    let q = choose|q: int| 0 <= q < self.edges@.len() && self.edges@[q] == e;
                    assert(self.index@[edge_key(self.edges@[q])] == q);
                    assert(p == q);
                    assert(self.counts@[q] == occurrences(s, e));
                    assert(occurrences(s, e) <= s.len());
                }
                let c = self.counts[p];
                self.counts.set(p, c + 1);
                proof {
                    assert forall|q: int| 0 <= q < self.counts@.len() implies #[trigger] self.counts@[q] == occurrences(s.push(e), self.edges@[q]) by {
                        if q != p as int {
                            assert(self.edges@[q] != e) by {
                                assert(self.edges@.no_duplicates());
                            }
                        }
                    }
                }
            },
            None => {
                proof {
                    assert(!self.edges@.contains(e));
                }
                let n = self.edges.len();
                self.edges.push(e);
                self.counts.push(1);
                self.index.insert(k, n);
                proof {
                    let old_edges = self.edges@.drop_last();
                    assert(old_edges == first_occurrences(s));
                    assert forall|x: (u32, u32)| #[trigger] self.index@.contains_key(edge_key(x)) <==> self.edges@.contains(x) by {
                        lemma_edge_key_injective(x, e);
                        if self.edges@.contains(x) && x != e {
                            let q = choose|q: int| 0 <= q < self.edges@.len() && self.edges@[q] == x;
                            assert(old_edges[q] == x);
                        }
                        if old_edges.contains(x) {
                            let q = choose|q: int| 0 <= q < old_edges.len() && old_edges[q] == x;
                            assert(self.edges@[q] == x);
                        }
                        if x == e {
                            assert(self.edges@[n as int] == x);
                        }
                    }
                    assert forall|q: int| 0 <= q < self.edges@.len() implies self.index@[edge_key(#[trigger] self.edges@[q])] == q by {
                        if q < n {
                            lemma_edge_key_injective(self.edges@[q], e);
                            assert(old_edges[q] == self.edges@[q]);
                            assert(old_edges.contains(self.edges@[q]));
                        }
                    }
                    assert forall|q: int| 0 <= q < self.counts@.len() implies #[trigger] self.counts@[q] == occurrences(s.push(e), self.edges@[q]) by {
                        if q < n {
                            assert(old_edges[q] == self.edges@[q]);
                            assert(old_edges.contains(self.edges@[q]));
                        } else {
                            assert(occurrences(s, e) == 0);
                        }
                    }
                }
            },
        }
    }

    fn of_triangles(tris: &[Triangle], directed: bool) -> (t: Self)
        requires
            3 * tris@.len() < usize::MAX,
        ensures
            t.describes(edge_slots(tris@, directed)),
    {
        let mut t = EdgeTally::empty();
        let mut i: usize = 0;
        while i < tris.len()
            invariant
                i <= tris@.len(),
                3 * tris@.len() < usize::MAX,
                t.describes(edge_slots(tris@.take(i as int), directed)),
            decreases tris@.len() - i,
        {
            let ghost s0 = edge_slots(tris@.take(i as int), directed);
            proof {
                lemma_edge_slots_len(tris@.take(i as int), directed);
            }
            let es = triangle_edges(&tris[i], directed);
            t.add(es[0], Ghost(s0));
            t.add(es[1], Ghost(s0.push(es[0])));
            t.add(es[2], Ghost(s0.push(es[0]).push(es[1])));
            proof {
                let tk = tris@.take(i as int + 1);
                assert(tk.drop_last() =~= tris@.take(i as int));
                assert(tk.last() == tris@[i as int]);
                assert(edge_slots(tk, directed) =~= s0.push(es[0]).push(es[1]).push(es[2]));
            }
            i = i + 1;
        }
        proof {
            assert(tris@.take(tris@.len() as int) =~= tris@);
        }
        t
    }
}

/// The distinct edges of the triangles (directed or not) in order of first appearance, and
/// how often each occurs.
pub fn edge_tally(tris: &[Triangle], directed: bool) -> (r: (Vec<(u32, u32)>, Vec<usize>))
    requires
        3 * tris@.len() < usize::MAX,
    ensures
        r.0@ == first_occurrences(edge_slots(tris@, directed)),
        r.1@.len() == r.0@.len(),
        forall|q: int| 0 <= q < r.1@.len() ==> #[trigger] r.1@[q] == occurrences(edge_slots(tris@, directed), r.0@[q]),
{
    let t = EdgeTally::of_triangles(tris, directed);
    (t.edges, t.counts)
}

/// Three edges per triangle.
pub proof fn lemma_edge_slots_len(tris: Seq<Triangle>, directed: bool)
    ensures
        edge_slots(tris, directed).len() == 3 * tris.len(),
    decreases tris.len(),
{
    if tris.len() > 0 {
        lemma_edge_slots_len(tris.drop_last(), directed);
    }
}

// ---------------------------------------------------------------- reachability

/// Whether the `i`-th step of `p` follows `rel`.
pub open spec fn rel_step(rel: spec_fn(int, int) -> bool, p: Seq<int>, i: int) -> bool {
    rel(p[i], p[i + 1])
}

/// Whether `p` is a path of one or more nodes whose steps follow `rel`.
pub open spec fn is_path(rel: spec_fn(int, int) -> bool, p: Seq<int>) -> bool {
    &&& p.len() >= 1
    &&& forall|i: int| 0 <= i < p.len() - 1 ==> #[trigger] rel_step(rel, p, i)
}

/// Whether a path leads from `a` to `b`.
pub open spec fn connects(rel: spec_fn(int, int) -> bool, a: int, b: int) -> bool {
    exists|p: Seq<int>| #[trigger] is_path(rel, p) && p[0] == a && p.last() == b
}

/// The edge relation of adjacency lists.
pub open spec fn adj_rel(g: Seq<Seq<usize>>) -> spec_fn(int, int) -> bool {
    |a: int, b: int| is_edge(g, a, b)
}

/// Whether the nodes marked in `vis` have all their successors marked.
pub open spec fn closed(g: Seq<Seq<usize>>, vis: Seq<bool>) -> bool {
    forall|x: int, y: int| #[trigger] is_edge(g, x, y) && vis[x] ==> vis[y]
}

/// Whether `row` lists node `x`.
pub open spec fn has_node(row: Seq<usize>, x: int) -> bool {
    row.contains(x as usize)
}

/// Every node leads to itself.
pub proof fn lemma_connects_refl(rel: spec_fn(int, int) -> bool, a: int)
    ensures
        connects(rel, a, a),
{
    let p = seq![a];
    assert(is_path(rel, p));
}

/// A path extends by one step.
pub proof fn lemma_connects_step(rel: spec_fn(int, int) -> bool, a: int, b: int, c: int)
    requires
        connects(rel, a, b),
        rel(b, c),
    ensures
        connects(rel, a, c),
{
    let p = choose|p: Seq<int>| #[trigger] is_path(rel, p) && p[0] == a && p.last() == b;
    let q = p.push(c);
    assert forall|i: int| 0 <= i < q.len() - 1 implies #[trigger] rel_step(rel, q, i) by {
        if i < p.len() - 1 {
            assert(rel_step(rel, p, i));
        }
    }
    assert(is_path(rel, q));
}

/// Paths compose.
pub proof fn lemma_connects_trans(rel: spec_fn(int, int) -> bool, a: int, b: int, c: int)
    requires
        connects(rel, a, b),
        connects(rel, b, c),
    ensures
        connects(rel, a, c),
{
    let p = choose|p: Seq<int>| #[trigger] is_path(rel, p) && p[0] == a && p.last() == b;
    let q = choose|q: Seq<int>| #[trigger] is_path(rel, q) && q[0] == b && q.last() == c;
    let r = p + q.drop_first();
    assert forall|i: int| 0 <= i < r.len() - 1 implies #[trigger] rel_step(rel, r, i) by {
        if i < p.len() - 1 {
            assert(rel_step(rel, p, i));
        } else {
            assert(rel_step(rel, q, i - p.len() + 1));
        }
    }
    assert(is_path(rel, r));
}

/// A closed set holding the `k`-th node of a path holds all later nodes.
proof fn lemma_closed_path(g: Seq<Seq<usize>>, vis: Seq<bool>, p: Seq<int>, k: int)
    requires
        closed(g, vis),
        is_path(adj_rel(g), p),
        0 <= k < p.len(),
        vis[p[k]],
    ensures
        vis[p.last()],
    decreases p.len() - k,
{
    if k < p.len() - 1 {
        assert(rel_step(adj_rel(g), p, k));
        assert(is_edge(g, p[k], p[k + 1]));
        lemma_closed_path(g, vis, p, k + 1);
    }
}

/// A closed set holding `a` holds everything `a` leads to.
pub proof fn lemma_closed_connects(g: Seq<Seq<usize>>, vis: Seq<bool>, a: int, b: int)
    requires
        closed(g, vis),
        vis[a],
        connects(adj_rel(g), a, b),
    ensures
        vis[b],
{
    let p = choose|p: Seq<int>| #[trigger] is_path(adj_rel(g), p) && p[0] == a && p.last() == b;
    lemma_closed_path(g, vis, p, 0);
}

/// Marks every node reachable from the unmarked node `s`, in a closed marking, and returns the
/// newly marked nodes in the order the search took them from its stack.
pub fn flood(adj: &Vec<Vec<usize>>, s: usize, visited: &mut Vec<bool>) -> (order: Vec<usize>)
    requires
        well_formed(lists(adj@)),
        s < adj@.len(),
        old(visited)@.len() == adj@.len(),
        !old(visited)@[s as int],
        closed(lists(adj@), old(visited)@),
    ensures
        final(visited)@.len() == adj@.len(),
        forall|x: int| 0 <= x < adj@.len() ==> (#[trigger] final(visited)@[x] <==> old(visited)@[x] || connects(adj_rel(lists(adj@)), s as int, x)),
        closed(lists(adj@), final(visited)@),
        order@.no_duplicates(),
        order@.len() > 0 && order@[0] == s,
        forall|q: int| 0 <= q < order@.len() ==> #[trigger] order@[q] < adj@.len(),
        forall|x: int| 0 <= x < adj@.len() ==> (#[trigger] has_node(order@, x) <==> final(visited)@[x] && !old(visited)@[x]),
{
    let ghost g = lists(adj@);
    let ghost rel = adj_rel(g);
    let ghost vis0 = visited@;
    let n = adj.len();
    let mut order: Vec<usize> = Vec::new();
    let mut stack: Vec<usize> = Vec::new();
    proof {
        lemma_count_false_flip(visited@, s as int);
        lemma_connects_refl(rel, s as int);
    }
    visited.set(s, true);
    stack.push(s);
    proof {
        assert forall|x: int| 0 <= x < n implies (#[trigger] visited@[x] && !vis0[x] <==> (has_node(order@, x) || has_node(stack@, x))) by {
            if has_node(stack@, x) {
                assert(stack@[0] == x as usize);
            }
            if x == s {
                assert(stack@[0] == s);
            }
        }
        assert forall|x: int, y: int| #[trigger] is_edge(g, x, y) && visited@[x] && !has_node(stack@, x) implies visited@[y] by {
            if x == s {
                assert(stack@[0] == s);
                assert(has_node(stack@, x));
            } else {
                assert(vis0[x]);
            }
        }
    }
    while stack.len() > 0
        invariant
            g == lists(adj@),
            rel == adj_rel(g),
            well_formed(g),
            n == adj@.len(),
            s < n,
            visited@.len() == n,
            vis0.len() == n,
            vis0 == old(visited)@,
            visited@[s as int],
            forall|x: int| 0 <= x < n && vis0[x] ==> visited@[x],
            forall|x: int| 0 <= x < n && #[trigger] visited@[x] && !vis0[x] ==> connects(rel, s as int, x),
            forall|x: int| 0 <= x < n ==> (#[trigger] visited@[x] && !vis0[x] <==> (has_node(order@, x) || has_node(stack@, x))),
            order@.no_duplicates(),
            stack@.no_duplicates(),
            forall|x: int| !(#[trigger] has_node(order@, x) && has_node(stack@, x)),
            forall|q: int| 0 <= q < order@.len() ==> #[trigger] order@[q] < n,
            forall|q: int| 0 <= q < stack@.len() ==> #[trigger] stack@[q] < n,
            forall|x: int, y: int| #[trigger] is_edge(g, x, y) && visited@[x] && !has_node(stack@, x) ==> visited@[y],
            order@.len() > 0 ==> order@[0] == s,
            order@.len() == 0 ==> stack@ == seq![s],
        decreases 2 * count_false(visited@) + stack@.len(),
    {
        let ghost m0 = 2 * count_false(visited@) + stack@.len();
        let ghost st = stack@;
        let ghost ord = order@;
        let curr = stack.pop().unwrap();
        order.push(curr);
        proof {
            assert(st.last() == curr);
            assert(has_node(st, curr as int)) by {
                assert(st[st.len() - 1] == curr);
            }
            assert(stack@ =~= st.drop_last());
            assert(!has_node(stack@, curr as int)) by {
                if has_node(stack@, curr as int) {
                    let q = choose|q: int| 0 <= q < stack@.len() && stack@[q] == curr;
                    assert(st[q] == st[st.len() - 1]);
                }
            }
            assert(!has_node(ord, curr as int));
            assert forall|x: int| #[trigger] has_node(order@, x) <==> (has_node(ord, x) || x as usize == curr) by {
                if has_node(order@, x) {
                    let q = choose|q: int| 0 <= q < order@.len() && order@[q] == x as usize;
                    if q < ord.len() {
                        assert(ord[q] == x as usize);
                    }
                }
                if has_node(ord, x) {
                    let q = choose|q: int| 0 <= q < ord.len() && ord[q] == x as usize;
                    assert(order@[q] == x as usize);
                }
                if x as usize == curr {
                    assert(order@[order@.len() - 1] == curr);
                }
            }
            assert forall|x: int| #[trigger] has_node(stack@, x) <==> (has_node(st, x) && x as usize != curr) by {
                if has_node(stack@, x) {
                    let q = choose|q: int| 0 <= q < stack@.len() && stack@[q] == x as usize;
                    assert(st[q] == x as usize);
                }
                if has_node(st, x) && x as usize != curr {
                    let q = choose|q: int| 0 <= q < st.len() && st[q] == x as usize;
                    assert(q != st.len() - 1);
                    assert(stack@[q] == x as usize);
                }
            }
            assert(order@.no_duplicates()) by {
                assert forall|i: int, j: int| 0 <= i < j < order@.len() implies order@[i] != order@[j] by {
                    if j == order@.len() - 1 {
                        assert(has_node(ord, order@[i] as int)) by {
                            assert(ord[i] == order@[i]);
                        }
                    } else {
                        assert(ord[i] == order@[i] && ord[j] == order@[j]);
                    }
                }
            }
            assert(stack@.no_duplicates()) by {
                assert forall|i: int, j: int| 0 <= i < j < stack@.len() implies stack@[i] != stack@[j] by {
                    assert(st[i] == stack@[i] && st[j] == stack@[j]);
                }
            }
            assert(visited@[curr as int] && !vis0[curr as int]) by {
                assert(has_node(order@, curr as int));
            }
        }
        let nbrs = &adj[curr];
        let mut k: usize = 0;
        while k < nbrs.len()
            invariant
                g == lists(adj@),
                rel == adj_rel(g),
                well_formed(g),
                n == adj@.len(),
                s < n,
                curr < n,
                nbrs@ == g[curr as int],
                k <= nbrs@.len(),
                visited@.len() == n,
                vis0.len() == n,
                vis0 == old(visited)@,
                visited@[s as int],
                visited@[curr as int],
                !vis0[curr as int],
                connects(rel, s as int, curr as int),
                forall|x: int| 0 <= x < n && vis0[x] ==> visited@[x],
                forall|x: int| 0 <= x < n && #[trigger] visited@[x] && !vis0[x] ==> connects(rel, s as int, x),
                forall|x: int| 0 <= x < n ==> (#[trigger] visited@[x] && !vis0[x] <==> (has_node(order@, x) || has_node(stack@, x))),
                order@.no_duplicates(),
            stack@.no_duplicates(),
            forall|x: int| !(#[trigger] has_node(order@, x) && has_node(stack@, x)),
                has_node(order@, curr as int),
                !has_node(stack@, curr as int),
                forall|q: int| 0 <= q < order@.len() ==> #[trigger] order@[q] < n,
                forall|q: int| 0 <= q < stack@.len() ==> #[trigger] stack@[q] < n,
                forall|x: int, y: int| #[trigger] is_edge(g, x, y) && visited@[x] && !has_node(stack@, x) && x != curr ==> visited@[y],
                forall|j: int| 0 <= j < k ==> visited@[#[trigger] nbrs@[j] as int],
                2 * count_false(visited@) + stack@.len() < m0,
                order@.len() > 0 && order@[0] == s,
            decreases nbrs@.len() - k,
        {
            let v = nbrs[k];
            proof {
                assert(g[curr as int][k as int] == v);
                assert(v < n);
            }
            if !visited[v] {
                let ghost vb = visited@;
                let ghost sb = stack@;
                proof {
                    lemma_count_false_flip(visited@, v as int);
                    assert(is_edge(g, curr as int, v as int)) by {
                        assert(g[curr as int][k as int] == v);
                    }
                    lemma_connects_step(rel, s as int, curr as int, v as int);
                    assert(!has_node(order@, v as int) && !has_node(stack@, v as int));
                }
                visited.set(v, true);
                stack.push(v);
                proof {
                    assert forall|x: int| #[trigger] has_node(stack@, x) <==> (has_node(sb, x) || x as usize == v) by {
                        if has_node(stack@, x) {
                            let q = choose|q: int| 0 <= q < stack@.len() && stack@[q] == x as usize;
                            if q < sb.len() {
                                assert(sb[q] == x as usize);
                            }
                        }
                        if has_node(sb, x) {
                            let q = choose|q: int| 0 <= q < sb.len() && sb[q] == x as usize;
                            assert(stack@[q] == x as usize);
                        }
                        if x as usize == v {
                            assert(stack@[stack@.len() - 1] == v);
                        }
                    }
                    assert(stack@.no_duplicates()) by {
                        assert forall|i: int, j: int| 0 <= i < j < stack@.len() implies stack@[i] != stack@[j] by {
                            if j == stack@.len() - 1 {
                                assert(has_node(sb, stack@[i] as int)) by {
                                    assert(sb[i] == stack@[i]);
                                }
                            } else {
                                assert(sb[i] == stack@[i] && sb[j] == stack@[j]);
                            }
                        }
                    }
                    assert forall|x: int| 0 <= x < n implies (#[trigger] visited@[x] && !vis0[x] <==> (has_node(order@, x) || has_node(stack@, x))) by {
                        if x != v as int {
                            if has_node(stack@, x) {
                                let q = choose|q: int| 0 <= q < stack@.len() && stack@[q] == x as usize;
                                assert(sb[q] == x as usize);
                            }
                            if has_node(sb, x) {
                                let q = choose|q: int| 0 <= q < sb.len() && sb[q] == x as usize;
                                assert(stack@[q] == x as usize);
                            }
                        } else {
                            assert(stack@[stack@.len() - 1] == v);
                        }
                    }
                    assert forall|q: int| 0 <= q < stack@.len() implies #[trigger] stack@[q] < n by {
                        if q < sb.len() {
                            assert(sb[q] == stack@[q]);
                        }
                    }
                    assert forall|x: int, y: int| #[trigger] is_edge(g, x, y) && visited@[x] && !has_node(stack@, x) && x != curr implies visited@[y] by {
                        if x != v as int {
                            assert(vb[x]);
                            if has_node(sb, x) {
                                let q = choose|q: int| 0 <= q < sb.len() && sb[q] == x as usize;
                                assert(stack@[q] == x as usize);
                            }
                        } else {
                            assert(stack@[stack@.len() - 1] == v);
                        }
                    }
                    assert(!has_node(stack@, curr as int)) by {
                        if has_node(stack@, curr as int) {
                            let q = choose|q: int| 0 <= q < stack@.len() && stack@[q] == curr;
                            if q < sb.len() {
                                assert(sb[q] == curr);
                            }
                        }
                    }
                }
            }
            k = k + 1;
        }
        proof {
            assert forall|x: int, y: int| #[trigger] is_edge(g, x, y) && visited@[x] && !has_node(stack@, x) implies visited@[y] by {
                if x == curr as int {
                    let q = choose|q: int| 0 <= q < g[x].len() && g[x][q] == y as usize;
                    assert(nbrs@[q] == y as usize);
                    assert(visited@[nbrs@[q] as int]);
                }
            }
        }
    }
    proof {
        assert forall|x: int| 0 <= x < n implies (#[trigger] visited@[x] <==> vis0[x] || connects(rel, s as int, x)) by {
            if connects(rel, s as int, x) {
                lemma_closed_connects(g, visited@, s as int, x);
            }
        }
        assert forall|x: int| 0 <= x < n implies (#[trigger] has_node(order@, x) <==> visited@[x] && !vis0[x]) by {
            assert(!has_node(stack@, x));
        }
    }
    order
}

/// Whether `s` starts a component: no earlier node leads to it.
pub open spec fn is_component_start(rel: spec_fn(int, int) -> bool, s: int) -> bool {
    forall|j: int| 0 <= j < s ==> !connects(rel, j, s)
}

/// Whether `x` is in the component that starts at `s`: `s` leads to `x` and no earlier node does.
pub open spec fn in_component(rel: spec_fn(int, int) -> bool, s: int, x: int) -> bool {
    &&& connects(rel, s, x)
    &&& forall|j: int| 0 <= j < s ==> !connects(rel, j, x)
}

/// The number of component starts among the first `n` nodes.
pub open spec fn start_count(rel: spec_fn(int, int) -> bool, n: int) -> nat
    decreases n,
{
    if n <= 0 {
        0
    } else {
        start_count(rel, n - 1) + (if is_component_start(rel, n - 1) { 1nat } else { 0nat })
    }
}

/// Whether some node before `s` leads to `x`.
pub open spec fn reached_before(rel: spec_fn(int, int) -> bool, s: int, x: int) -> bool {
    exists|j: int| 0 <= j < s && #[trigger] connects(rel, j, x)
}

/// The components of the graph in order of their first node. Each lists the nodes of its
/// component in the order the search took them, its first node first.
pub fn components(adj: &Vec<Vec<usize>>) -> (comps: Vec<Vec<usize>>)
    requires
        well_formed(lists(adj@)),
    ensures
        comps@.len() == start_count(adj_rel(lists(adj@)), adj@.len() as int),
        forall|c: int| 0 <= c < comps@.len() ==> {
            &&& (#[trigger] comps@[c])@.len() > 0
            &&& comps@[c]@[0] < adj@.len()
            &&& is_component_start(adj_rel(lists(adj@)), comps@[c]@[0] as int)
            &&& comps@[c]@.no_duplicates()
            &&& forall|q: int| 0 <= q < comps@[c]@.len() ==> #[trigger] comps@[c]@[q] < adj@.len()
            &&& forall|x: int| 0 <= x < adj@.len() ==> (#[trigger] has_node(comps@[c]@, x) <==> in_component(adj_rel(lists(adj@)), comps@[c]@[0] as int, x))
        },
        forall|c1: int, c2: int| 0 <= c1 < c2 < comps@.len() ==> (#[trigger] comps@[c1])@[0] < (#[trigger] comps@[c2])@[0],
        forall|t: int| 0 <= t < adj@.len() && is_component_start(adj_rel(lists(adj@)), t) ==> exists|c: int| 0 <= c < comps@.len() && (#[trigger] comps@[c])@[0] == t,
{
    let ghost g = lists(adj@);
    let ghost rel = adj_rel(g);
    let n = adj.len();
    let mut visited: Vec<bool> = Vec::new();
    let mut i: usize = 0;
    while i < n
        invariant
            i <= n,
            visited@.len() == i,
            forall|k: int| 0 <= k < i ==> !visited@[k],
        decreases n - i,
    {
        visited.push(false);
        i = i + 1;
    }
    let mut comps: Vec<Vec<usize>> = Vec::new();
    let mut s: usize = 0;
    while s < n
        invariant
            g == lists(adj@),
            rel == adj_rel(g),
            well_formed(g),
            n == adj@.len(),
            s <= n,
            visited@.len() == n,
            forall|x: int| 0 <= x < n ==> (#[trigger] visited@[x] <==> reached_before(rel, s as int, x)),
            closed(g, visited@),
            comps@.len() == start_count(rel, s as int),
            forall|c: int| 0 <= c < comps@.len() ==> {
                &&& (#[trigger] comps@[c])@.len() > 0
                &&& comps@[c]@[0] < s
                &&& is_component_start(rel, comps@[c]@[0] as int)
                &&& comps@[c]@.no_duplicates()
                &&& forall|q: int| 0 <= q < comps@[c]@.len() ==> #[trigger] comps@[c]@[q] < n
                &&& forall|x: int| 0 <= x < n ==> (#[trigger] has_node(comps@[c]@, x) <==> in_component(rel, comps@[c]@[0] as int, x))
            },
            forall|c1: int, c2: int| 0 <= c1 < c2 < comps@.len() ==> (#[trigger] comps@[c1])@[0] < (#[trigger] comps@[c2])@[0],
            forall|t: int| 0 <= t < s && is_component_start(rel, t) ==> exists|c: int| 0 <= c < comps@.len() && (#[trigger] comps@[c])@[0] == t,
        decreases n - s,
    {
        if visited[s] {
            proof {
                let j = choose|j: int| 0 <= j < s && #[trigger] connects(rel, j, s as int);
                assert(!is_component_start(rel, s as int));
                assert forall|t: int| 0 <= t < s + 1 && is_component_start(rel, t) implies exists|c: int| 0 <= c < comps@.len() && (#[trigger] comps@[c])@[0] == t by {
                    if t == s as int {
                        assert(!is_component_start(rel, t));
                    }
                }
                assert forall|x: int| 0 <= x < n implies (#[trigger] visited@[x] <==> reached_before(rel, s as int + 1, x)) by {
                    if reached_before(rel, s as int + 1, x) {
                        let j2 = choose|j2: int| 0 <= j2 < s + 1 && #[trigger] connects(rel, j2, x);
                        if j2 == s as int {
                            lemma_closed_connects(g, visited@, s as int, x);
                        } else {
                            assert(reached_before(rel, s as int, x));
                        }
                    }
                    if visited@[x] {
                        let j2 = choose|j2: int| 0 <= j2 < s && #[trigger] connects(rel, j2, x);
                        assert(0 <= j2 < s + 1 && connects(rel, j2, x));
                    }
                }
            }
        } else {
            let ghost vis0 = visited@;
            proof {
                assert(is_component_start(rel, s as int)) by {
                    assert forall|j: int| 0 <= j < s implies !connects(rel, j, s as int) by {
                        if connects(rel, j, s as int) {
                            assert(reached_before(rel, s as int, s as int));
                        }
                    }
                }
            }
            let order = flood(adj, s, &mut visited);
            let ghost comps0 = comps@;
            proof {
                assert forall|x: int| 0 <= x < n implies (#[trigger] has_node(order@, x) <==> in_component(rel, s as int, x)) by {
                    if has_node(order@, x) {
                        assert(!reached_before(rel, s as int, x));
                    }
                    if in_component(rel, s as int, x) {
                        if reached_before(rel, s as int, x) {
                            let j = choose|j: int| 0 <= j < s && #[trigger] connects(rel, j, x);
                        }
                    }
                }
                assert forall|x: int| 0 <= x < n implies (#[trigger] visited@[x] <==> reached_before(rel, s as int + 1, x)) by {
                    if reached_before(rel, s as int + 1, x) {
                        let j2 = choose|j2: int| 0 <= j2 < s + 1 && #[trigger] connects(rel, j2, x);
                        if j2 < s {
                            assert(reached_before(rel, s as int, x));
                        }
                    }
                    if visited@[x] {
                        if vis0[x] {
                            let j2 = choose|j2: int| 0 <= j2 < s && #[trigger] connects(rel, j2, x);
                            assert(0 <= j2 < s + 1 && connects(rel, j2, x));
                        } else {
                            assert(connects(rel, s as int, x));
                        }
                    }
                }
            }
            comps.push(order);
            proof {
                assert forall|c: int| 0 <= c < comps@.len() implies {
                    &&& (#[trigger] comps@[c])@.len() > 0
                    &&& comps@[c]@[0] < s + 1
                    &&& is_component_start(rel, comps@[c]@[0] as int)
                    &&& comps@[c]@.no_duplicates()
                    &&& forall|q: int| 0 <= q < comps@[c]@.len() ==> #[trigger] comps@[c]@[q] < n
                    &&& forall|x: int| 0 <= x < n ==> (#[trigger] has_node(comps@[c]@, x) <==> in_component(rel, comps@[c]@[0] as int, x))
                } by {
                    if c < comps0.len() {
                        assert(comps@[c] == comps0[c]);
                    }
                }
                assert forall|c1: int, c2: int| 0 <= c1 < c2 < comps@.len() implies (#[trigger] comps@[c1])@[0] < (#[trigger] comps@[c2])@[0] by {
                    assert(comps@[c1] == comps0[c1]);
                    if c2 < comps0.len() {
                        assert(comps@[c2] == comps0[c2]);
                    }
                }
                assert forall|t: int| 0 <= t < s + 1 && is_component_start(rel, t) implies exists|c: int| 0 <= c < comps@.len() && (#[trigger] comps@[c])@[0] == t by {
                    if t < s {
                        let c = choose|c: int| 0 <= c < comps0.len() && (#[trigger] comps0[c])@[0] == t;
                        assert(comps@[c] == comps0[c]);
                    } else {
                        assert(comps@[comps0.len() as int]@[0] == s);
                    }
                }
            }
        }
        s = s + 1;
    }
    comps
}

// ---------------------------------------------------------------- triangle adjacency

/// Whether two triangles have an undirected edge in common.
pub open spec fn shares_edge(a: Triangle, b: Triangle) -> bool {
    exists|k1: int, k2: int| 0 <= k1 < 3 && 0 <= k2 < 3 && #[trigger] undirected_edges(a)[k1] == #[trigger] undirected_edges(b)[k2]
}

/// Triangles, by index, that have an undirected edge in common.
pub open spec fn tri_rel(tris: Seq<Triangle>) -> spec_fn(int, int) -> bool {
    |a: int, b: int| 0 <= a < tris.len() && 0 <= b < tris.len() && shares_edge(tris[a], tris[b])
}

/// Whether `lists` maps each edge key to triangles (of the first `i`) that have the edge, and
/// lists every such triangle.
spec fn edge_index_ok(tris: Seq<Triangle>, m: Map<u64, Vec<usize>>, i: int) -> bool {
    &&& forall|e: (u32, u32)| #[trigger] m.contains_key(edge_key(e)) ==> forall|q: int| 0 <= q < m[edge_key(e)]@.len() ==> {
        &&& #[trigger] m[edge_key(e)]@[q] < i
        &&& undirected_edges(tris[m[edge_key(e)]@[q] as int]).contains(e)
    }
    &&& forall|j: int, k: int| 0 <= j < i && 0 <= k < 3 ==> {
        &&& m.contains_key(edge_key(#[trigger] undirected_edges(tris[j])[k]))
        &&& has_node(m[edge_key(undirected_edges(tris[j])[k])]@, j)
    }
}

/// Adds triangle `i` under edge `e` to the edge index.
fn index_edge(m: &mut HashMap<u64, Vec<usize>>, e: (u32, u32), i: usize, Ghost(tris): Ghost<Seq<Triangle>>, Ghost(k): Ghost<int>)
    requires
        i < tris.len(),
        0 <= k < 3,
        e == undirected_edges(tris[i as int])[k],
        forall|j: int, kk: int| 0 <= j < i && 0 <= kk < 3 ==> {
            &&& old(m)@.contains_key(edge_key(#[trigger] undirected_edges(tris[j])[kk]))
            &&& has_node(old(m)@[edge_key(undirected_edges(tris[j])[kk])]@, j)
        },
        forall|kk: int| 0 <= kk < k ==> {
            &&& old(m)@.contains_key(edge_key(#[trigger] undirected_edges(tris[i as int])[kk]))
            &&& has_node(old(m)@[edge_key(undirected_edges(tris[i as int])[kk])]@, i as int)
        },
        forall|e2: (u32, u32)| #[trigger] old(m)@.contains_key(edge_key(e2)) ==> forall|q: int| 0 <= q < old(m)@[edge_key(e2)]@.len() ==> {
            &&& #[trigger] old(m)@[edge_key(e2)]@[q] <= i
            &&& undirected_edges(tris[old(m)@[edge_key(e2)]@[q] as int]).contains(e2)
        },
    ensures
        forall|e2: (u32, u32)| #[trigger] final(m)@.contains_key(edge_key(e2)) ==> forall|q: int| 0 <= q < final(m)@[edge_key(e2)]@.len() ==> {
            &&& #[trigger] final(m)@[edge_key(e2)]@[q] <= i
            &&& undirected_edges(tris[final(m)@[edge_key(e2)]@[q] as int]).contains(e2)
        },
        forall|j: int, kk: int| 0 <= j < i && 0 <= kk < 3 ==> {
            &&& final(m)@.contains_key(edge_key(#[trigger] undirected_edges(tris[j])[kk]))
            &&& has_node(final(m)@[edge_key(undirected_edges(tris[j])[kk])]@, j)
        },
        forall|kk: int| 0 <= kk <= k ==> {
            &&& final(m)@.contains_key(edge_key(#[trigger] undirected_edges(tris[i as int])[kk]))
            &&& has_node(final(m)@[edge_key(undirected_edges(tris[i as int])[kk])]@, i as int)
        },
{
    let key = key_of(e);
    let ghost m0 = m@;
    let mut l = match m.remove(&key) {
        Some(l) => l,
        None => Vec::new(),
    };
    let ghost l0 = l@;
    proof {
        if m0.contains_key(key) {
            assert(l0 == m0[key]@);
        } else {
            assert(l0.len() == 0);
        }
    }
    l.push(i);
    m.insert(key, l);
    proof {
        assert(m@ == m0.insert(key, l));
        assert(has_node(l@, i as int)) by {
            assert(l@[l@.len() - 1] == i);
        }
        assert forall|e2: (u32, u32)| #[trigger] m@.contains_key(edge_key(e2)) implies forall|q: int| 0 <= q < m@[edge_key(e2)]@.len() ==> {
            &&& #[trigger] m@[edge_key(e2)]@[q] <= i
            &&& undirected_edges(tris[m@[edge_key(e2)]@[q] as int]).contains(e2)
        } by {
            lemma_edge_key_injective(e2, e);
            if edge_key(e2) == key {
                assert forall|q: int| 0 <= q < m@[edge_key(e2)]@.len() implies {
                    &&& #[trigger] m@[edge_key(e2)]@[q] <= i
                    &&& undirected_edges(tris[m@[edge_key(e2)]@[q] as int]).contains(e2)
                } by {
                    if q < l0.len() {
                        assert(m0.contains_key(edge_key(e2)));
                        assert(m@[edge_key(e2)]@[q] == m0[edge_key(e2)]@[q]);
                    } else {
                        assert(m@[edge_key(e2)]@[q] == i);
                        assert(undirected_edges(tris[i as int])[k] == e2);
                    }
                }
            }
        }
        assert forall|j: int, kk: int| 0 <= j < i && 0 <= kk < 3 implies {
            &&& m@.contains_key(edge_key(#[trigger] undirected_edges(tris[j])[kk]))
            &&& has_node(m@[edge_key(undirected_edges(tris[j])[kk])]@, j)
        } by {
            let ek = edge_key(undirected_edges(tris[j])[kk]);
            assert(m0.contains_key(ek));
            if ek == key {
                let q = choose|q: int| 0 <= q < m0[ek]@.len() && m0[ek]@[q] == j as usize;
                assert(l@[q] == j as usize);
            }
        }
        assert forall|kk: int| 0 <= kk <= k implies {
            &&& m@.contains_key(edge_key(#[trigger] undirected_edges(tris[i as int])[kk]))
            &&& has_node(m@[edge_key(undirected_edges(tris[i as int])[kk])]@, i as int)
        } by {
            if kk < k {
                let ek = edge_key(undirected_edges(tris[i as int])[kk]);
                if ek == key {
                    let q = choose|q: int| 0 <= q < m0[ek]@.len() && m0[ek]@[q] == i;
                    assert(l@[q] == i);
                }
            }
        }
    }
}

/// Triangles by their undirected edges.
fn edge_index(tris: &[Triangle]) -> (m: HashMap<u64, Vec<usize>>)
    ensures
        edge_index_ok(tris@, m@, tris@.len() as int),
{
    let mut m: HashMap<u64, Vec<usize>> = HashMap::new();
    let mut i: usize = 0;
    while i < tris.len()
        invariant
            i <= tris@.len(),
            edge_index_ok(tris@, m@, i as int),
        decreases tris@.len() - i,
    {
        let es = triangle_edges(&tris[i], false);
        proof {
            assert forall|e2: (u32, u32)| #[trigger] m@.contains_key(edge_key(e2)) implies forall|q: int| 0 <= q < m@[edge_key(e2)]@.len() ==> {
                &&& #[trigger] m@[edge_key(e2)]@[q] <= i
                &&& undirected_edges(tris@[m@[edge_key(e2)]@[q] as int]).contains(e2)
            } by {
                assert forall|q: int| 0 <= q < m@[edge_key(e2)]@.len() implies {
                    &&& #[trigger] m@[edge_key(e2)]@[q] <= i
                    &&& undirected_edges(tris@[m@[edge_key(e2)]@[q] as int]).contains(e2)
                } by {
                    assert(m@[edge_key(e2)]@[q] < i);
                }
            }
        }
        index_edge(&mut m, es[0], i, Ghost(tris@), Ghost(0));
        index_edge(&mut m, es[1], i, Ghost(tris@), Ghost(1));
        index_edge(&mut m, es[2], i, Ghost(tris@), Ghost(2));
        proof {
            assert forall|j: int, kk: int| 0 <= j < i + 1 && 0 <= kk < 3 implies {
                &&& m@.contains_key(edge_key(#[trigger] undirected_edges(tris@[j])[kk]))
                &&& has_node(m@[edge_key(undirected_edges(tris@[j])[kk])]@, j)
            } by {
                if j == i as int {
                    assert(0 <= kk <= 2);
                }
            }
            assert forall|e2: (u32, u32)| #[trigger] m@.contains_key(edge_key(e2)) implies forall|q: int| 0 <= q < m@[edge_key(e2)]@.len() ==> {
                &&& #[trigger] m@[edge_key(e2)]@[q] < i + 1
                &&& undirected_edges(tris@[m@[edge_key(e2)]@[q] as int]).contains(e2)
            } by {
                assert forall|q: int| 0 <= q < m@[edge_key(e2)]@.len() implies {
                    &&& #[trigger] m@[edge_key(e2)]@[q] < i + 1
                    &&& undirected_edges(tris@[m@[edge_key(e2)]@[q] as int]).contains(e2)
                } by {
                    assert(m@[edge_key(e2)]@[q] <= i);
                }
            }
        }
        i = i + 1;
    }
    m
}

/// Appends the triangles listed under one edge of triangle `i` to its neighbour row.
fn extend_row(row: &mut Vec<usize>, l: &Vec<usize>, Ghost(tris): Ghost<Seq<Triangle>>, Ghost(i): Ghost<int>, Ghost(e): Ghost<(u32, u32)>)
    requires
        0 <= i < tris.len(),
        undirected_edges(tris[i]).contains(e),
        forall|q: int| 0 <= q < l@.len() ==> #[trigger] l@[q] < tris.len() && undirected_edges(tris[l@[q] as int]).contains(e),
        forall|q: int| 0 <= q < old(row)@.len() ==> #[trigger] old(row)@[q] < tris.len() && shares_edge(tris[i], tris[old(row)@[q] as int]),
    ensures
        forall|q: int| 0 <= q < final(row)@.len() ==> #[trigger] final(row)@[q] < tris.len() && shares_edge(tris[i], tris[final(row)@[q] as int]),
        forall|b: int| #[trigger] has_node(old(row)@, b) ==> has_node(final(row)@, b),
        forall|b: int| #[trigger] has_node(l@, b) ==> has_node(final(row)@, b),
{
    let ghost r0 = row@;
    let mut q: usize = 0;
    while q < l.len()
        invariant
            0 <= i < tris.len(),
            undirected_edges(tris[i]).contains(e),
            q <= l@.len(),
            forall|p: int| 0 <= p < l@.len() ==> #[trigger] l@[p] < tris.len() && undirected_edges(tris[l@[p] as int]).contains(e),
            forall|p: int| 0 <= p < row@.len() ==> #[trigger] row@[p] < tris.len() && shares_edge(tris[i], tris[row@[p] as int]),
            row@.len() >= r0.len(),
            forall|p: int| 0 <= p < r0.len() ==> #[trigger] row@[p] == r0[p],
            forall|p: int| 0 <= p < q ==> #[trigger] has_node(row@, l@[p] as int),
        decreases l@.len() - q,
    {
        let ghost rb = row@;
        let b = l[q];
        proof {
            let k1 = choose|k1: int| 0 <= k1 < 3 && undirected_edges(tris[i])[k1] == e;
            let k2 = choose|k2: int| 0 <= k2 < 3 && undirected_edges(tris[b as int])[k2] == e;
            assert(undirected_edges(tris[i])[k1] == undirected_edges(tris[b as int])[k2]);
        }
        row.push(b);
        proof {
            assert forall|p: int| 0 <= p < q + 1 implies #[trigger] has_node(row@, l@[p] as int) by {
                if p < q {
                    assert(has_node(rb, l@[p] as int));
                    assert(rb.contains(l@[p]));
                    let w = choose|w: int| 0 <= w < rb.len() && rb[w] == l@[p];
                    assert(row@[w] == rb[w]);
                } else {
                    assert(row@[row@.len() - 1] == b);
                }
            }
            assert forall|p: int| 0 <= p < row@.len() implies #[trigger] row@[p] < tris.len() && shares_edge(tris[i], tris[row@[p] as int]) by {
                if p < rb.len() {
                    assert(row@[p] == rb[p]);
                }
            }
        }
        q = q + 1;
    }
    proof {
        assert forall|b: int| #[trigger] has_node(r0, b) implies has_node(row@, b) by {
            let w = choose|w: int| 0 <= w < r0.len() && r0[w] == b as usize;
            assert(row@[w] == b as usize);
        }
        assert forall|b: int| #[trigger] has_node(l@, b) implies has_node(row@, b) by {
            let w = choose|w: int| 0 <= w < l@.len() && l@[w] == b as usize;
            assert(has_node(row@, l@[w] as int));
        }
    }
}

/// For each triangle, the triangles that have one of its edges (itself included), edge by edge.
pub fn triangle_adjacency(tris: &[Triangle]) -> (adj: Vec<Vec<usize>>)
    ensures
        adj@.len() == tris@.len(),
        well_formed(lists(adj@)),
        adj_rel(lists(adj@)) == tri_rel(tris@),
{
    let m = edge_index(tris);
    let n = tris.len();
    let mut adj: Vec<Vec<usize>> = Vec::new();
    let mut i: usize = 0;
    while i < n
        invariant
            n == tris@.len(),
            edge_index_ok(tris@, m@, n as int),
            i <= n,
            adj@.len() == i,
            forall|a: int, q: int| 0 <= a < i && 0 <= q < adj@[a]@.len() ==> #[trigger] adj@[a]@[q] < n,
            forall|a: int, b: int| 0 <= a < i && 0 <= b < n ==> (#[trigger] has_node(adj@[a]@, b) <==> shares_edge(tris@[a], tris@[b])),
        decreases n - i,
    {
        let es = triangle_edges(&tris[i], false);
        let mut row: Vec<usize> = Vec::new();
        let mut k: usize = 0;
        while k < 3
            invariant
                n == tris@.len(),
                i < n,
                edge_index_ok(tris@, m@, n as int),
                es@ == undirected_edges(tris@[i as int]),
                k <= 3,
                forall|q: int| 0 <= q < row@.len() ==> #[trigger] row@[q] < n && shares_edge(tris@[i as int], tris@[row@[q] as int]),
                forall|b: int, k1: int, k2: int| 0 <= b < n && 0 <= k1 < k && 0 <= k2 < 3
                    && #[trigger] undirected_edges(tris@[i as int])[k1] == #[trigger] undirected_edges(tris@[b])[k2] ==> has_node(row@, b),
            decreases 3 - k,
        {
            let e = es[k];
            let key = key_of(e);
            proof {
                assert(m@.contains_key(edge_key(undirected_edges(tris@[i as int])[k as int])));
                assert(undirected_edges(tris@[i as int])[k as int] == e);
                assert(undirected_edges(tris@[i as int]).contains(e));
            }
            match m.get(&key) {
                Some(l) => {
                    let ghost rb = row@;
                    proof {
                        assert(m@[edge_key(e)] == *l);
                        assert forall|q: int| 0 <= q < l@.len() implies #[trigger] l@[q] < n && undirected_edges(tris@[l@[q] as int]).contains(e) by {
                            assert(m@[edge_key(e)]@[q] == l@[q]);
                        }
                    }
                    extend_row(&mut row, l, Ghost(tris@), Ghost(i as int), Ghost(e));
                    proof {
                        assert forall|b: int, k1: int, k2: int| 0 <= b < n && 0 <= k1 < k + 1 && 0 <= k2 < 3
                            && #[trigger] undirected_edges(tris@[i as int])[k1] == #[trigger] undirected_edges(tris@[b])[k2] implies has_node(row@, b) by {
                            if k1 < k {
                                assert(has_node(rb, b));
                            } else {
                                let e2 = undirected_edges(tris@[b])[k2];
                                assert(e2 == e);
                                assert(has_node(m@[edge_key(e2)]@, b));
                                assert(has_node(l@, b));
                            }
                        }
                    }
                },
                None => {
                    proof {
                        assert(false);
                    }
                },
            }
            k = k + 1;
        }
        proof {
            assert forall|b: int| 0 <= b < n implies (#[trigger] has_node(row@, b) <==> shares_edge(tris@[i as int], tris@[b])) by {
                if has_node(row@, b) {
                    let q = choose|q: int| 0 <= q < row@.len() && row@[q] == b as usize;
                    assert(shares_edge(tris@[i as int], tris@[row@[q] as int]));
                }
                if shares_edge(tris@[i as int], tris@[b]) {
                    let (k1, k2) = choose|k1: int, k2: int| 0 <= k1 < 3 && 0 <= k2 < 3 && #[trigger] undirected_edges(tris@[i as int])[k1] == #[trigger] undirected_edges(tris@[b])[k2];
                    assert(has_node(row@, b));
                }
            }
        }
        let ghost adj0 = adj@;
        adj.push(row);
        proof {
            assert forall|a: int, b: int| 0 <= a < i + 1 && 0 <= b < n implies (#[trigger] has_node(adj@[a]@, b) <==> shares_edge(tris@[a], tris@[b])) by {
                if a < i {
                    assert(adj@[a] == adj0[a]);
                }
            }
            assert forall|a: int, q: int| 0 <= a < i + 1 && 0 <= q < adj@[a]@.len() implies #[trigger] adj@[a]@[q] < n by {
                if a < i {
                    assert(adj@[a] == adj0[a]);
                }
            }
        }
        i = i + 1;
    }
    proof {
        let g = lists(adj@);
        assert forall|a: int, k: int| 0 <= a < g.len() && 0 <= k < g[a].len() implies (#[trigger] g[a][k]) < g.len() by {
            assert(g[a] == adj@[a]@);
        }
        assert forall|a: int, b: int| #[trigger] adj_rel(g)(a, b) == tri_rel(tris@)(a, b) by {
            if 0 <= a < n && 0 <= b < n {
                assert(g[a] == adj@[a]@);
                assert(has_node(adj@[a]@, b) == g[a].contains(b as usize));
            }
        }
        assert(adj_rel(g) =~= tri_rel(tris@));
    }
    adj
}

} // verus!
