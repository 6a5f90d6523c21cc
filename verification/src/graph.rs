//! Directed graphs given as lists of edges: which nodes can be reached from
//! which, and when a graph has no cycle. The dependency rules and the cascade
//! of a delete both rest on this.

use vstd::prelude::*;
use vstd::seq_lib::*;
use vstd::set_lib::*;

verus! {

/// Whether `p` is a walk along `edges`: at least one node, and an edge from
/// each node to the next.
pub open spec fn is_path(edges: Seq<(int, int)>, p: Seq<int>) -> bool {
    &&& p.len() >= 1
    &&& forall|k: int| 0 <= k < p.len() - 1 ==> #[trigger] is_step(edges, p, k)
}

/// Whether an edge leads from the node at `k` in `p` to the next.
pub open spec fn is_step(edges: Seq<(int, int)>, p: Seq<int>, k: int) -> bool {
    edges.contains((p[k], p[k + 1]))
}

/// Whether `to` can be reached from `from` along zero or more edges.
pub open spec fn reaches(edges: Seq<(int, int)>, from: int, to: int) -> bool {
    exists|p: Seq<int>| #[trigger] is_path(edges, p) && p[0] == from && p.last() == to
}

/// Whether no walk of one or more edges returns to where it began.
pub open spec fn acyclic(edges: Seq<(int, int)>) -> bool {
    forall|p: Seq<int>| #[trigger] is_path(edges, p) && p.len() >= 2 ==> p[0] != p.last()
}

/// The edges as pairs of mathematical integers.
pub open spec fn edges_view(edges: Seq<(i64, i64)>) -> Seq<(int, int)> {
    edges.map_values(|e: (i64, i64)| (e.0 as int, e.1 as int))
}

/// The nodes as mathematical integers.
pub open spec fn ids_view(ids: Seq<i64>) -> Seq<int> {
    ids.map_values(|i: i64| i as int)
}

pub proof fn lemma_reaches_self(edges: Seq<(int, int)>, a: int)
    ensures
        reaches(edges, a, a),
{
    let p = seq![a];
    assert(is_path(edges, p));
    assert(p[0] == a && p.last() == a);
}

pub proof fn lemma_reaches_extend(edges: Seq<(int, int)>, a: int, b: int, c: int)
    requires
        reaches(edges, a, b),
        edges.contains((b, c)),
    ensures
        reaches(edges, a, c),
{
    let p = choose|p: Seq<int>| #[trigger] is_path(edges, p) && p[0] == a && p.last() == b;
    let q = p.push(c);
    assert forall|k: int| 0 <= k < q.len() - 1 implies #[trigger] is_step(edges, q, k) by {
        if k < p.len() - 1 {
            assert(is_step(edges, p, k));
        }
    }
    assert(is_path(edges, q));
    assert(q[0] == a && q.last() == c);
}

pub proof fn lemma_reaches_trans(edges: Seq<(int, int)>, a: int, b: int, c: int)
    requires
        reaches(edges, a, b),
        reaches(edges, b, c),
    ensures
        reaches(edges, a, c),
{
    let p = choose|p: Seq<int>| #[trigger] is_path(edges, p) && p[0] == a && p.last() == b;
    let q = choose|q: Seq<int>| #[trigger] is_path(edges, q) && q[0] == b && q.last() == c;
    let r = p + q.drop_first();
    assert forall|k: int| 0 <= k < r.len() - 1 implies #[trigger] is_step(edges, r, k) by {
        if k < p.len() - 1 {
            assert(is_step(edges, p, k));
        } else {
            let j = k - p.len() + 1;
            assert(is_step(edges, q, j));
            assert(r[k] == q[j] && r[k + 1] == q[j + 1]);
        }
    }
    assert(is_path(edges, r));
    assert(r[0] == a);
    assert(r.last() == c);
}

/// A walk in a graph is a walk in every graph that has all its edges.
pub proof fn lemma_path_mono(small: Seq<(int, int)>, big: Seq<(int, int)>, p: Seq<int>)
    requires
        forall|e: (int, int)| small.contains(e) ==> big.contains(e),
        is_path(small, p),
    ensures
        is_path(big, p),
{
    assert forall|k: int| 0 <= k < p.len() - 1 implies #[trigger] is_step(big, p, k) by {
        assert(is_step(small, p, k));
    }
}

/// Taking edges away from a graph without a cycle leaves no cycle.
pub proof fn lemma_acyclic_subset(small: Seq<(int, int)>, big: Seq<(int, int)>)
    requires
        forall|e: (int, int)| small.contains(e) ==> big.contains(e),
        acyclic(big),
    ensures
        acyclic(small),
{
    assert forall|p: Seq<int>| #[trigger] is_path(small, p) && p.len() >= 2 implies p[0]
        != p.last() by {
        lemma_path_mono(small, big, p);
    }
}

proof fn lemma_path_stays_in(edges: Seq<(int, int)>, p: Seq<int>, s: Set<int>, k: int)
    requires
        is_path(edges, p),
        s.contains(p[0]),
        forall|u: int, v: int| #[trigger] edges.contains((u, v)) && s.contains(u) ==> s.contains(v),
        0 <= k < p.len(),
    ensures
        s.contains(p[k]),
    decreases k,
{
    if k > 0 {
        lemma_path_stays_in(edges, p, s, k - 1);
        assert(is_step(edges, p, k - 1));
    }
}

/// A set that holds `a` and, with each node, the nodes that its edges lead
/// to, holds every node that `a` reaches.
pub proof fn lemma_closed_set(edges: Seq<(int, int)>, a: int, s: Set<int>, x: int)
    requires
        s.contains(a),
        forall|u: int, v: int| #[trigger] edges.contains((u, v)) && s.contains(u) ==> s.contains(v),
        reaches(edges, a, x),
    ensures
        s.contains(x),
{
    let p = choose|p: Seq<int>| #[trigger] is_path(edges, p) && p[0] == a && p.last() == x;
    lemma_path_stays_in(edges, p, s, p.len() - 1);
}

proof fn lemma_new_edge_walk(edges: Seq<(int, int)>, u: int, v: int, p: Seq<int>)
    requires
        is_path(edges.push((u, v)), p),
    ensures
        reaches(edges, p[0], p.last()) || (reaches(edges, p[0], u) && reaches(edges, v, p.last())),
    decreases p.len(),
{
    let more = edges.push((u, v));
    if p.len() == 1 {
        lemma_reaches_self(edges, p[0]);
    } else {
        let q = p.drop_last();
        let z = q.last();
        let y = p.last();
        assert forall|k: int| 0 <= k < q.len() - 1 implies #[trigger] is_step(more, q, k) by {
            assert(is_step(more, p, k));
        }
        assert(is_path(more, q));
        lemma_new_edge_walk(edges, u, v, q);
        assert(q[0] == p[0]);
        assert(z == p[p.len() - 2]);
        assert(is_step(more, p, p.len() - 2));
        assert(more.contains((z, y)));
        let i = choose|i: int| 0 <= i < more.len() && more[i] == (z, y);
        if i < edges.len() {
            assert(edges[i] == more[i]);
            assert(edges.contains((z, y)));
            if reaches(edges, p[0], z) {
                lemma_reaches_extend(edges, p[0], z, y);
            } else {
                lemma_reaches_extend(edges, v, z, y);
            }
        } else {
            assert(z == u && y == v);
            lemma_reaches_self(edges, v);
            if !reaches(edges, p[0], z) {
                assert(reaches(edges, p[0], u));
            }
        }
    }
}

/// An edge from `u` to `v` closes no cycle where `v` did not reach `u`.
pub proof fn lemma_acyclic_add(edges: Seq<(int, int)>, u: int, v: int)
    requires
        acyclic(edges),
        !reaches(edges, v, u),
    ensures
        acyclic(edges.push((u, v))),
{
    let more = edges.push((u, v));
    assert forall|p: Seq<int>| #[trigger] is_path(more, p) && p.len() >= 2 implies p[0]
        != p.last() by {
        if p[0] == p.last() {
            let x = p[0];
            let m = p[1];
            let q = p.drop_first();
            assert forall|k: int| 0 <= k < q.len() - 1 implies #[trigger] is_step(more, q, k) by {
                assert(is_step(more, p, k + 1));
            }
            assert(is_path(more, q));
            assert(q[0] == m && q.last() == x);
            lemma_new_edge_walk(edges, u, v, q);
            assert(is_step(more, p, 0));
            let i = choose|i: int| 0 <= i < more.len() && more[i] == (x, m);
            if i < edges.len() {
                assert(edges[i] == more[i]);
                assert(edges.contains((x, m)));
                lemma_reaches_self(edges, x);
                lemma_reaches_extend(edges, x, x, m);
                if reaches(edges, m, x) {
                    // a cycle among the old edges
                    let w = choose|w: Seq<int>| #[trigger] is_path(edges, w) && w[0] == m && w.last() == x;
                    let c = seq![x] + w;
                    assert forall|k: int| 0 <= k < c.len() - 1 implies #[trigger] is_step(edges, c, k) by {
                        if k == 0 {
                            assert(c[0] == x && c[1] == w[0]);
                        } else {
                            assert(is_step(edges, w, k - 1));
                            assert(c[k] == w[k - 1] && c[k + 1] == w[k]);
                        }
                    }
                    assert(is_path(edges, c));
                    assert(c[0] == x && c.last() == x);
                    assert(false);
                } else {
                    lemma_reaches_trans(edges, x, m, u);
                    lemma_reaches_trans(edges, v, x, u);
                    assert(false);
                }
            } else {
                assert(x == u && m == v);
                if reaches(edges, m, x) {
                    assert(false);
                } else {
                    assert(reaches(edges, m, u));
                    assert(false);
                }
            }
        }
    }
}

/// Whether `x` is `start` or a node that some edge leads to.
pub open spec fn is_node(edges: Seq<(i64, i64)>, start: i64, x: i64) -> bool {
    x == start || exists|k: int| 0 <= k < edges.len() && (#[trigger] edges[k]).1 == x
}

proof fn lemma_visited_bound(edges: Seq<(i64, i64)>, start: i64, visited: Seq<i64>)
    requires
        visited.no_duplicates(),
        forall|i: int| 0 <= i < visited.len() ==> is_node(edges, start, #[trigger] visited[i]),
    ensures
        visited.len() <= edges.len() + 1,
{
    let targets = edges.map_values(|e: (i64, i64)| e.1);
    let all = targets.to_set().insert(start);
    seq_to_set_is_finite(targets);
    assert forall|x: i64| visited.to_set().contains(x) implies all.contains(x) by {
        let i = choose|i: int| 0 <= i < visited.len() && visited[i] == x;
        assert(is_node(edges, start, visited[i]));
        if x != start {
            let k = choose|k: int| 0 <= k < edges.len() && (#[trigger] edges[k]).1 == x;
            assert(targets[k] == x);
            assert(targets.contains(x));
        }
    }
    assert(visited.to_set().subset_of(all));
    visited.unique_seq_to_set();
    targets.lemma_cardinality_of_set();
    vstd::set::axiom_set_insert_len(targets.to_set(), start);
    lemma_len_subset(visited.to_set(), all);
}

/// Whether `x` is among `v`.
pub fn contains_id(v: &Vec<i64>, x: i64) -> (r: bool)
    ensures
        r == v@.contains(x),
{
    let mut i: usize = 0;
    while i < v.len()
        invariant
            i <= v@.len(),
            forall|k: int| 0 <= k < i ==> v@[k] != x,
        decreases v@.len() - i,
    {
        if v[i] == x {
            return true;
        }
        i += 1;
    }
    false
}

/// The nodes that `start` reaches along `edges`, `start` among them, each
/// once: a depth-first search that keeps the nodes still to visit on a stack.
pub fn reachable_from(edges: &Vec<(i64, i64)>, start: i64) -> (visited: Vec<i64>)
    ensures
        visited@.no_duplicates(),
        forall|x: i64|
            visited@.contains(x) <==> reaches(edges_view(edges@), start as int, x as int),
{
    let ghost ev = edges_view(edges@);
    let mut visited: Vec<i64> = Vec::new();
    let mut stack: Vec<i64> = Vec::new();
    stack.push(start);
    proof {
        lemma_reaches_self(ev, start as int);
        assert(stack@[0] == start);
    }
    while stack.len() > 0
        invariant
            ev == edges_view(edges@),
            visited@.no_duplicates(),
            visited@.len() <= edges@.len() + 1,
            forall|i: int| 0 <= i < visited@.len() ==> is_node(edges@, start, #[trigger] visited@[i]),
            forall|i: int| 0 <= i < stack@.len() ==> is_node(edges@, start, #[trigger] stack@[i]),
            forall|i: int|
                0 <= i < visited@.len() ==> reaches(ev, start as int, (#[trigger] visited@[i]) as int),
            forall|i: int|
                0 <= i < stack@.len() ==> reaches(ev, start as int, (#[trigger] stack@[i]) as int),
            visited@.contains(start) || stack@.contains(start),
            forall|i: int, k: int|
                #![trigger visited@[i], edges@[k]]
                0 <= i < visited@.len() && 0 <= k < edges@.len() && edges@[k].0 == visited@[i]
                    ==> visited@.contains(edges@[k].1) || stack@.contains(edges@[k].1),
        decreases edges@.len() + 1 - visited@.len(), stack@.len(),
    {
        let ghost stack_before = stack@;
        let ghost visited_before = visited@;
        let current = stack.pop().unwrap();
        assert(current == stack_before[stack_before.len() - 1]);
        assert(forall|x: i64| stack_before.contains(x) ==> stack@.contains(x) || x == current) by {
            assert forall|x: i64| stack_before.contains(x) implies stack@.contains(x) || x
                == current by {
                let j = choose|j: int| 0 <= j < stack_before.len() && stack_before[j] == x;
                if j < stack@.len() {
                    assert(stack@[j] == x);
                }
            }
        }
        if !contains_id(&visited, current) {
            visited.push(current);
            let ghost stack_mid = stack@;
            proof {
                assert forall|i: int| 0 <= i < visited@.len() implies is_node(
                    edges@,
                    start,
                    #[trigger] visited@[i],
                ) by {
                    if i < visited_before.len() {
                        assert(visited@[i] == visited_before[i]);
                    }
                }
                lemma_visited_bound(edges@, start, visited@);
                assert(visited@.contains(current)) by {
                    assert(visited@[visited@.len() - 1] == current);
                }
                assert forall|x: i64| visited_before.contains(x) implies visited@.contains(x) by {
                    let j = choose|j: int| 0 <= j < visited_before.len() && visited_before[j] == x;
                    assert(visited@[j] == x);
                }
            }
            let mut k: usize = 0;
            while k < edges.len()
                invariant
                    k <= edges@.len(),
                    ev == edges_view(edges@),
                    visited@ == visited_before.push(current),
                    reaches(ev, start as int, current as int),
                    stack_mid.len() <= stack@.len(),
                    forall|j: int| 0 <= j < stack_mid.len() ==> stack@[j] == stack_mid[j],
                    forall|i: int|
                        0 <= i < stack@.len() ==> is_node(edges@, start, #[trigger] stack@[i]),
                    forall|i: int|
                        0 <= i < stack@.len() ==> reaches(
                            ev,
                            start as int,
                            (#[trigger] stack@[i]) as int,
                        ),
                    forall|m: int|
                        0 <= m < k && (#[trigger] edges@[m]).0 == current ==> visited@.contains(
                            edges@[m].1,
                        ) || stack@.contains(edges@[m].1),
                decreases edges@.len() - k,
            {
                let edge = edges[k];
                if edge.0 == current && !contains_id(&visited, edge.1) {
                    let ghost stack_old = stack@;
                    stack.push(edge.1);
                    proof {
                        assert(ev[k as int] == (edge.0 as int, edge.1 as int));
                        assert(ev.contains((current as int, edge.1 as int)));
                        lemma_reaches_extend(ev, start as int, current as int, edge.1 as int);
                        assert(stack@[stack@.len() - 1] == edge.1);
                        assert(is_node(edges@, start, edge.1));
                        assert forall|m: int|
                            0 <= m < k + 1 && (#[trigger] edges@[m]).0
                                == current implies visited@.contains(edges@[m].1)
                            || stack@.contains(edges@[m].1) by {
                            if m < k && !visited@.contains(edges@[m].1) {
                                let j = choose|j: int|
                                    0 <= j < stack_old.len() && stack_old[j] == edges@[m].1;
                                assert(stack@[j] == edges@[m].1);
                            }
                        }
                    }
                }
                k += 1;
            }
            proof {
                assert forall|x: i64| stack_mid.contains(x) implies stack@.contains(x) by {
                    let j = choose|j: int| 0 <= j < stack_mid.len() && stack_mid[j] == x;
                    assert(stack@[j] == x);
                }
                assert forall|i: int, m: int|
                    #![trigger visited@[i], edges@[m]]
                    0 <= i < visited@.len() && 0 <= m < edges@.len() && edges@[m].0
                        == visited@[i] implies visited@.contains(edges@[m].1) || stack@.contains(
                        edges@[m].1,
                    ) by {
                    if i < visited_before.len() {
                        assert(visited@[i] == visited_before[i]);
                        assert(visited_before.contains(edges@[m].1) || stack_before.contains(
                            edges@[m].1,
                        ));
                    } else {
                        assert(visited@[i] == current);
                    }
                }
                assert forall|i: int| 0 <= i < visited@.len() implies reaches(
                    ev,
                    start as int,
                    (#[trigger] visited@[i]) as int,
                ) by {
                    if i < visited_before.len() {
                        assert(visited@[i] == visited_before[i]);
                    }
                }
            }
        }
    }
    proof {
        assert(stack@.len() == 0);
        let s = Set::new(|y: int| exists|i: int| 0 <= i < visited@.len() && (#[trigger] visited@[i]) as int == y);
        assert(s.contains(start as int)) by {
            let i = choose|i: int| 0 <= i < visited@.len() && visited@[i] == start;
            assert(visited@[i] as int == start as int);
        }
        assert forall|u: int, v: int| #[trigger] ev.contains((u, v)) && s.contains(u) implies s.contains(v) by {
            let k = choose|k: int| 0 <= k < ev.len() && ev[k] == (u, v);
            let i = choose|i: int| 0 <= i < visited@.len() && (#[trigger] visited@[i]) as int == u;
            assert(edges@[k].0 == visited@[i]);
            assert(visited@.contains(edges@[k].1) || stack@.contains(edges@[k].1));
            let j = choose|j: int| 0 <= j < visited@.len() && visited@[j] == edges@[k].1;
            assert(visited@[j] as int == v);
        }
        assert forall|x: i64| visited@.contains(x) <==> reaches(ev, start as int, x as int) by {
            if visited@.contains(x) {
                let i = choose|i: int| 0 <= i < visited@.len() && visited@[i] == x;
                assert(reaches(ev, start as int, visited@[i] as int));
            }
            if reaches(ev, start as int, x as int) {
                lemma_closed_set(ev, start as int, s, x as int);
                let i = choose|i: int| 0 <= i < visited@.len() && (#[trigger] visited@[i]) as int == x as int;
                assert(visited@[i] == x);
            }
        }
    }
    visited
}

/// A graph has no cycle exactly where no edge leads to a node that reaches
/// the edge's beginning.
pub proof fn lemma_acyclic_by_edges(edges: Seq<(int, int)>)
    ensures
        acyclic(edges) <==> forall|k: int|
            0 <= k < edges.len() ==> !reaches(edges, (#[trigger] edges[k]).1, edges[k].0),
{
    if acyclic(edges) {
        assert forall|k: int| 0 <= k < edges.len() implies !reaches(
            edges,
            (#[trigger] edges[k]).1,
            edges[k].0,
        ) by {
            let u = edges[k].0;
            let v = edges[k].1;
            if reaches(edges, v, u) {
                let w = choose|w: Seq<int>| #[trigger] is_path(edges, w) && w[0] == v && w.last() == u;
                let c = seq![u] + w;
                assert forall|i: int| 0 <= i < c.len() - 1 implies #[trigger] is_step(edges, c, i) by {
                    if i == 0 {
                        assert(c[0] == u && c[1] == w[0]);
                        assert(edges.contains((u, v)));
                    } else {
                        assert(is_step(edges, w, i - 1));
                        assert(c[i] == w[i - 1] && c[i + 1] == w[i]);
                    }
                }
                assert(is_path(edges, c));
                assert(c[0] == u && c.last() == u);
            }
        }
    }
    if forall|k: int| 0 <= k < edges.len() ==> !reaches(edges, (#[trigger] edges[k]).1, edges[k].0) {
        assert forall|p: Seq<int>| #[trigger] is_path(edges, p) && p.len() >= 2 implies p[0]
            != p.last() by {
            if p[0] == p.last() {
                let q = p.drop_first();
                assert forall|i: int| 0 <= i < q.len() - 1 implies #[trigger] is_step(edges, q, i) by {
                    assert(is_step(edges, p, i + 1));
                }
                assert(is_path(edges, q));
                assert(q[0] == p[1] && q.last() == p[0]);
                assert(is_step(edges, p, 0));
                let k = choose|k: int| 0 <= k < edges.len() && edges[k] == (p[0], p[1]);
                assert(reaches(edges, edges[k].1, edges[k].0));
            }
        }
    }
}

/// Whether the graph has no cycle.
pub fn is_acyclic(edges: &Vec<(i64, i64)>) -> (r: bool)
    ensures
        r == acyclic(edges_view(edges@)),
{
    let ghost ev = edges_view(edges@);
    let mut k: usize = 0;
    while k < edges.len()
        invariant
            k <= edges@.len(),
            ev == edges_view(edges@),
            forall|m: int| 0 <= m < k ==> !reaches(ev, (#[trigger] ev[m]).1, ev[m].0),
        decreases edges@.len() - k,
    {
        let e = edges[k];
        let seen = reachable_from(edges, e.1);
        assert(ev[k as int] == (e.0 as int, e.1 as int));
        if contains_id(&seen, e.0) {
            proof {
                lemma_acyclic_by_edges(ev);
                assert(reaches(ev, ev[k as int].1, ev[k as int].0));
            }
            return false;
        }
        k += 1;
    }
    proof {
        lemma_acyclic_by_edges(ev);
    }
    true
}

} // verus!
