//! Cycle detection by depth-first search on a directed graph given as adjacency lists.

use vstd::prelude::*;

verus! {

/// Whether `a -> b` is an edge.
pub open spec fn is_edge(adj: Seq<Seq<usize>>, a: int, b: int) -> bool {
    0 <= a < adj.len() && 0 <= b < adj.len() && adj[a].contains(b as usize)
}

/// The adjacency lists as sequences.
pub open spec fn lists(adj: Seq<Vec<usize>>) -> Seq<Seq<usize>> {
    adj.map_values(|l: Vec<usize>| l@)
}

/// Whether the `i`-th step of `p` is an edge.
pub open spec fn step(adj: Seq<Seq<usize>>, p: Seq<int>, i: int) -> bool {
    is_edge(adj, p[i], p[i + 1])
}

/// Whether `p` is a walk: one or more nodes joined by edges.
pub open spec fn is_walk(adj: Seq<Seq<usize>>, p: Seq<int>) -> bool {
    &&& p.len() >= 1
    &&& forall|i: int| 0 <= i < p.len() - 1 ==> #[trigger] step(adj, p, i)
}

/// Whether the graph has a cycle: a walk of at least one edge that returns to its start.
pub open spec fn has_cycle(adj: Seq<Seq<usize>>) -> bool {
    exists|p: Seq<int>| #[trigger] is_walk(adj, p) && p.len() >= 2 && p[0] == p.last()
}

/// Every adjacency entry names a node of the graph.
pub open spec fn well_formed(adj: Seq<Seq<usize>>) -> bool {
    forall|a: int, k: int| 0 <= a < adj.len() && 0 <= k < adj[a].len() ==> (#[trigger] adj[a][k]) < adj.len()
}

/// Number of `false` entries.
pub open spec fn count_false(s: Seq<bool>) -> nat
    decreases s.len(),
{
    if s.len() == 0 {
        0
    } else {
        count_false(s.drop_last()) + (if s.last() { 0nat } else { 1nat })
    }
}

/// Marking more entries leaves no more `false` entries.
pub proof fn lemma_count_false_mono(a: Seq<bool>, b: Seq<bool>)
    requires
        a.len() == b.len(),
        forall|i: int| 0 <= i < a.len() && a[i] ==> b[i],
    ensures
        count_false(b) <= count_false(a),
    decreases a.len(),
{
    if a.len() > 0 {
        lemma_count_false_mono(a.drop_last(), b.drop_last());
    }
}

/// Marking an unmarked entry removes a `false` entry.
pub proof fn lemma_count_false_flip(a: Seq<bool>, u: int)
    requires
        0 <= u < a.len(),
        !a[u],
    ensures
        count_false(a.update(u, true)) < count_false(a),
    decreases a.len(),
{
    let b = a.update(u, true);
    if u == a.len() - 1 {
        assert(b.drop_last() =~= a.drop_last());
    } else {
        assert(b.drop_last() =~= a.drop_last().update(u, true));
        lemma_count_false_flip(a.drop_last(), u);
    }
}

/// Finished nodes (visited, off the stack) have a finishing time below `clock`, and
/// every edge out of a finished node leads to a finished node with a smaller time.
pub open spec fn finished_ok(adj: Seq<Seq<usize>>, visited: Seq<bool>, rec: Seq<bool>, finish: Seq<int>, clock: int) -> bool {
    forall|w: int| 0 <= w < adj.len() && visited[w] && !rec[w] ==> {
        &&& 0 <= #[trigger] finish[w] < clock
        &&& forall|v: int| #[trigger] is_edge(adj, w, v) ==> visited[v] && !rec[v] && finish[v] < finish[w]
    }
}

/// The search state that holds while no cycle has been reported: the stack is `path`,
/// finished nodes are ordered by `finish`.
pub open spec fn search_ok(adj: Seq<Seq<usize>>, visited: Seq<bool>, rec: Seq<bool>, finish: Seq<int>, clock: int, path: Seq<int>) -> bool {
    &&& forall|w: int| 0 <= w < adj.len() ==> (rec[w] <==> path.contains(w))
    &&& finished_ok(adj, visited, rec, finish, clock)
    &&& forall|k: int| 0 <= k < path.len() ==> 0 <= #[trigger] path[k] < adj.len() && visited[path[k]]
}

/// Along a walk, finishing times decrease when all its nodes are finished.
proof fn lemma_walk_finish(adj: Seq<Seq<usize>>, visited: Seq<bool>, rec: Seq<bool>, finish: Seq<int>, clock: int, p: Seq<int>)
    requires
        well_formed(adj),
        finished_ok(adj, visited, rec, finish, clock),
        is_walk(adj, p),
        p.len() >= 2,
        0 <= p[0] < adj.len(),
        visited[p[0]] && !rec[p[0]],
    ensures
        finish[p.last()] < finish[p[0]],
        visited[p.last()] && !rec[p.last()],
    decreases p.len(),
{
    assert(step(adj, p, 0));
    let w = p[0];
    assert(0 <= finish[w] < clock);
    assert(is_edge(adj, w, p[1]));
    assert(visited[p[1]] && !rec[p[1]] && finish[p[1]] < finish[w]);
    if p.len() > 2 {
        let q = p.drop_first();
        assert forall|i: int| 0 <= i < q.len() - 1 implies #[trigger] step(adj, q, i) by {
            assert(step(adj, p, i + 1));
        }
        lemma_walk_finish(adj, visited, rec, finish, clock, q);
    }
}

/// When every node with an outgoing edge is finished and ordered, the graph has no cycle.
pub proof fn lemma_all_finished_acyclic(adj: Seq<Seq<usize>>, visited: Seq<bool>, rec: Seq<bool>, finish: Seq<int>, clock: int)
    requires
        well_formed(adj),
        finished_ok(adj, visited, rec, finish, clock),
        forall|w: int| 0 <= w < adj.len() && adj[w].len() > 0 ==> visited[w] && !rec[w],
    ensures
        !has_cycle(adj),
{
    if has_cycle(adj) {
        let p = choose|p: Seq<int>| #[trigger] is_walk(adj, p) && p.len() >= 2 && p[0] == p.last();
        assert(step(adj, p, 0));
        assert(0 <= p[0] < adj.len());
        lemma_walk_finish(adj, visited, rec, finish, clock, p);
    }
}

/// Depth-first search from the unvisited node `u`; true when a back edge shows a cycle.
///
/// `path` is the current stack of the search (ghost), `finish` and `clock` record
/// finishing times (ghost).
pub fn has_cycle_dfs(
    adj: &Vec<Vec<usize>>,
    u: usize,
    visited: &mut Vec<bool>,
    rec: &mut Vec<bool>,
    finish: &mut Ghost<Seq<int>>,
    clock: &mut Ghost<int>,
    path: Ghost<Seq<int>>,
) -> (found: bool)
    requires
        well_formed(lists(adj@)),
        old(visited)@.len() == adj@.len(),
        old(rec)@.len() == adj@.len(),
        old(finish)@.len() == adj@.len(),
        u < adj@.len(),
        old(clock)@ >= 0,
        !old(visited)@[u as int],
        forall|w: int| 0 <= w < adj@.len() && old(rec)@[w] ==> old(visited)@[w],
        path@.len() > 0 ==> is_walk(lists(adj@), path@) && is_edge(lists(adj@), path@.last(), u as int),
        has_cycle(lists(adj@)) || search_ok(lists(adj@), old(visited)@, old(rec)@, old(finish)@, old(clock)@, path@),
    ensures
        final(visited)@.len() == adj@.len(),
        final(rec)@.len() == adj@.len(),
        final(finish)@.len() == adj@.len(),
        final(visited)@[u as int],
        final(clock)@ >= old(clock)@,
        forall|w: int| 0 <= w < adj@.len() && old(visited)@[w] ==> final(visited)@[w],
        forall|w: int| 0 <= w < adj@.len() && final(rec)@[w] ==> final(visited)@[w],
        found ==> has_cycle(lists(adj@)),
        !found && search_ok(lists(adj@), old(visited)@, old(rec)@, old(finish)@, old(clock)@, path@) ==> {
            &&& final(rec)@ == old(rec)@
            &&& !final(rec)@[u as int]
            &&& final(clock)@ >= old(clock)@
            &&& search_ok(lists(adj@), final(visited)@, final(rec)@, final(finish)@, final(clock)@, path@)
            &&& forall|w: int| 0 <= w < adj@.len() && old(visited)@[w] && !old(rec)@[w] ==> final(finish)@[w] == old(finish)@[w]
        },
    decreases count_false(visited@),
{
    let ghost g = lists(adj@);
    let ghost strong = search_ok(g, visited@, rec@, finish@, clock@, path@);
    let ghost vis0 = visited@;
    let ghost rec0 = rec@;
    let ghost fin0 = finish@;
    let ghost upath = path@.push(u as int);
    visited.set(u, true);
    rec.set(u, true);
    proof {
        lemma_count_false_flip(vis0, u as int);
        if strong {
            assert forall|w: int| 0 <= w < g.len() implies (rec@[w] <==> upath.contains(w)) by {
                if w == u as int {
                    assert(upath[upath.len() - 1] == w);
                } else {
                    if path@.contains(w) {
                        let k = choose|k: int| 0 <= k < path@.len() && path@[k] == w;
                        assert(upath[k] == w);
                    }
                    if upath.contains(w) {
                        let k = choose|k: int| 0 <= k < upath.len() && upath[k] == w;
                        assert(k < path@.len());
                        assert(path@[k] == w);
                    }
                }
            }
        }
        if strong {
            assert forall|w: int| 0 <= w < g.len() && visited@[w] && !rec@[w] implies {
                &&& 0 <= #[trigger] finish@[w] < clock@
                &&& forall|v: int| #[trigger] is_edge(g, w, v) ==> visited@[v] && !rec@[v] && finish@[v] < finish@[w]
            } by {
                assert(w != u);
                assert(vis0[w] && !rec0[w]);
                assert(finished_ok(g, vis0, rec0, fin0, old(clock)@));
                assert(0 <= fin0[w]);
                assert forall|v: int| #[trigger] is_edge(g, w, v) implies visited@[v] && !rec@[v] && finish@[v] < finish@[w] by {
                    assert(vis0[v]);
                    assert(v != u);
                }
            }
        }
        assert(is_walk(g, upath)) by {
            assert forall|i: int| 0 <= i < upath.len() - 1 implies #[trigger] step(g, upath, i) by {
                if i < path@.len() - 1 {
                    assert(step(g, path@, i));
                } else {
                    assert(upath[i + 1] == u as int);
                }
            }
        }
    }
    let nbrs = &adj[u];
    let n = adj.len();
    let mut idx: usize = 0;
    while idx < nbrs.len()
        invariant
            g == lists(adj@),
            well_formed(g),
            nbrs@ == g[u as int],
            n == adj@.len(),
            u < adj@.len(),
            idx <= nbrs@.len(),
            visited@.len() == adj@.len(),
            rec@.len() == adj@.len(),
            finish@.len() == adj@.len(),
            vis0.len() == adj@.len(),
            vis0 == old(visited)@,
            rec0 == old(rec)@,
            fin0 == old(finish)@,
            visited@[u as int],
            count_false(visited@) < count_false(vis0),
            forall|w: int| 0 <= w < adj@.len() && vis0[w] ==> visited@[w],
            forall|w: int| 0 <= w < adj@.len() && rec@[w] ==> visited@[w],
            is_walk(g, upath),
            upath == path@.push(u as int),
            upath.last() == u as int,
            strong == search_ok(g, vis0, rec0, fin0, old(clock)@, path@),
            old(clock)@ >= 0,
            clock@ >= old(clock)@,
            strong ==> {
                &&& rec@[u as int]
                &&& search_ok(g, visited@, rec@, finish@, clock@, upath)
                &&& clock@ >= old(clock)@
                &&& forall|w: int| 0 <= w < adj@.len() && vis0[w] && !rec0[w] ==> finish@[w] == fin0[w]
                &&& forall|k: int| 0 <= k < idx ==> visited@[nbrs@[k] as int] && !rec@[nbrs@[k] as int] && finish@[nbrs@[k] as int] < clock@
                &&& forall|w: int| 0 <= w < adj@.len() && w != u ==> rec@[w] == rec0[w]
            },
            !strong ==> has_cycle(g),
        decreases nbrs@.len() - idx,
    {
        let v = nbrs[idx];
        proof {
            assert(g[u as int][idx as int] == v);
            assert(v < adj@.len());
        }
        if !visited[v] {
            let ghost vis_before = visited@;
            let ghost rec_before = rec@;
            let ghost fin_before = finish@;
            let ghost clk_before = clock@;
            proof {
                lemma_count_false_mono(vis0.update(u as int, true), visited@);
                assert(is_edge(g, upath.last(), v as int)) by {
                    assert(g[u as int][idx as int] == v);
                }
            }
            let found = has_cycle_dfs(adj, v, visited, rec, finish, clock, Ghost(upath));
            proof {
                lemma_count_false_mono(vis_before, visited@);
                assert forall|w: int| 0 <= w < adj@.len() && vis0[w] implies visited@[w] by {
                    assert(vis_before[w]);
                }
            }
            if found {
                assert(forall|w: int| 0 <= w < adj@.len() && vis0[w] ==> visited@[w]);
                return true;
            }
            proof {
                if strong {
                    assert forall|k: int| 0 <= k < idx + 1 implies visited@[nbrs@[k] as int] && !rec@[nbrs@[k] as int] && finish@[nbrs@[k] as int] < clock@ by {
                        if k < idx {
                            let w = nbrs@[k] as int;
                            assert(vis_before[w] && !rec_before[w]);
                            assert(finish@[w] == fin_before[w]);
                        }
                    }
                    assert forall|w: int| 0 <= w < adj@.len() && vis0[w] && !rec0[w] implies finish@[w] == fin0[w] by {
                        assert(vis_before[w]);
                        assert(!rec_before[w]);
                    }
                }
            }
        } else if rec[v] {
            proof {
                if strong {
                    assert(upath.contains(v as int));
                    let k = choose|k: int| 0 <= k < upath.len() && upath[k] == v as int;
                    let c = upath.subrange(k, upath.len() as int).push(v as int);
                    assert(is_edge(g, u as int, v as int)) by {
                        assert(g[u as int][idx as int] == v);
                    }
                    assert forall|i: int| 0 <= i < c.len() - 1 implies #[trigger] step(g, c, i) by {
                        if i < c.len() - 2 {
                            assert(c[i] == upath[k + i]);
                            assert(c[i + 1] == upath[k + i + 1]);
                            assert(step(g, upath, k + i));
                        } else {
                            assert(c[i] == upath.last());
                        }
                    }
                    assert(is_walk(g, c));
                    assert(c[0] == c.last());
                }
            }
            return true;
        } else {
            proof {
                if strong {
                    assert(finished_ok(g, visited@, rec@, finish@, clock@));
                }
            }
        }
        idx = idx + 1;
    }
    let ghost c = clock@;
    let ghost newfin = finish@.update(u as int, c);
    let ghost newrec = rec@.update(u as int, false);
    proof {
        if strong {
            assert forall|w: int| 0 <= w < g.len() && visited@[w] && !(if w == u { false } else { rec@[w] }) implies {
                &&& 0 <= #[trigger] newfin[w] < c + 1
                &&& forall|v: int| #[trigger] is_edge(g, w, v) ==> visited@[v] && !(if v == u { false } else { rec@[v] }) && newfin[v] < newfin[w]
            } by {
                if w == u {
                    assert forall|v: int| #[trigger] is_edge(g, w, v) implies visited@[v] && !(if v == u { false } else { rec@[v] }) && newfin[v] < newfin[w] by {
                        assert(0 <= v < g.len());
                        assert(g.len() == n);
                        let k = choose|k: int| 0 <= k < g[u as int].len() && g[u as int][k] == v as usize;
                        assert(nbrs@[k] as int == v);
                        assert(visited@[v] && !rec@[v] && finish@[v] < c);
                        assert(v != u);
                    }
                } else {
                    assert(finished_ok(g, visited@, rec@, finish@, c));
                    assert(!rec@[w]);
                    assert(0 <= finish@[w] < c);
                    assert forall|v: int| #[trigger] is_edge(g, w, v) implies visited@[v] && !(if v == u { false } else { rec@[v] }) && newfin[v] < newfin[w] by {
                        assert(visited@[v] && !rec@[v] && finish@[v] < finish@[w]);
                        assert(v != u);
                    }
                }
            }
            assert forall|w: int| 0 <= w < g.len() && visited@[w] && !newrec[w] implies {
                &&& 0 <= #[trigger] newfin[w] < c + 1
                &&& forall|v: int| #[trigger] is_edge(g, w, v) ==> visited@[v] && !newrec[v] && newfin[v] < newfin[w]
            } by {
                assert(newrec[w] == (if w == u { false } else { rec@[w] }));
                assert(0 <= newfin[w] < c + 1);
                assert forall|v: int| #[trigger] is_edge(g, w, v) implies visited@[v] && !newrec[v] && newfin[v] < newfin[w] by {
                    assert(0 <= v < g.len());
                    assert(newrec[v] == (if v == u { false } else { rec@[v] }));
                }
            }
            assert(finished_ok(g, visited@, newrec, newfin, c + 1));
        }
    }
    let ghost rec_pre = rec@;
    *finish = Ghost(finish@.update(u as int, clock@));
    *clock = Ghost(clock@ + 1);
    rec.set(u, false);
    proof {
        assert(rec@ =~= rec_pre.update(u as int, false));
        if strong {
            assert(rec@ =~= rec0) by {
                assert(!rec0[u as int]);
            }
            assert forall|w: int| 0 <= w < g.len() implies (rec@[w] <==> path@.contains(w)) by {
                assert(search_ok(g, vis0, rec0, fin0, old(clock)@, path@));
            }
            assert(finish@ == newfin);
            assert(clock@ == c + 1);
            assert(rec@ == newrec);
            assert(finished_ok(g, visited@, rec@, finish@, clock@));
            assert forall|k: int| 0 <= k < path@.len() implies 0 <= #[trigger] path@[k] < g.len() && visited@[path@[k]] by {
                assert(vis0[path@[k]]);
            }
        }
    }
    false
}

} // verus!
