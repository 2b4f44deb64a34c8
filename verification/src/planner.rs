//! Build-order planning: a leaves-first topological order over the
//! resolved derivation graph.
//!
//! An edge `(u, v)` records that `u` depends on `v`, so a valid build
//! order places `v` before every occurrence of `u`.  Planning fails
//! exactly when the graph contains a dependency cycle, witnessed here
//! as a nonempty set of nodes in which every member depends on another
//! member of the set (in a finite graph such a set exists if and only
//! if a directed cycle does).

use vstd::prelude::*;
use vstd::pervasive::VecAdditionalExecFns;
use vstd::seq_lib::*;
use vstd::set_lib::*;
use crate::descriptor::StoreDerivation;
use crate::graph::{graph_edge_vec, graph_edges, graph_node_count, graph_nodes};

verus! {

/// The planner found a dependency cycle; `node` is one of the nodes
/// caught in it.
#[derive(Debug)]
pub struct CycleError {
    pub node: usize,
}

/// The handle `u` occurs somewhere in `order`.
pub open spec fn appears(order: Seq<usize>, u: int) -> bool {
    exists|k: int| 0 <= k < order.len() && (#[trigger] order[k] as int) == u
}

/// `order` lists each of the `n` node handles exactly once.
pub open spec fn is_permutation(n: int, order: Seq<usize>) -> bool {
    &&& order.len() == n
    &&& (forall|k: int| 0 <= k < order.len() ==> (#[trigger] order[k] as int) < n)
    &&& (forall|k: int, m: int| 0 <= k < m < order.len() ==> order[k] != order[m])
    &&& (forall|u: int| 0 <= u < n ==> #[trigger] appears(order, u))
}

/// Every occurrence of an edge's source in `order` is preceded by an
/// occurrence of the edge's target: dependencies come first.
pub open spec fn respects_deps(edges: Seq<(usize, usize)>, order: Seq<usize>) -> bool {
    forall|e: int, k: int|
        #![trigger edges[e], order[k]]
        0 <= e < edges.len() && 0 <= k < order.len() && order[k] == edges[e].0
            ==> exists|m: int| 0 <= m < k && order[m] == edges[e].1
}

/// A nonempty set of nodes, each of which depends on another member of
/// the set.  No member of such a set can ever come first in a build
/// order, so the set witnesses a dependency cycle.
pub open spec fn blocked_set(n: int, edges: Seq<(usize, usize)>, s: Set<int>) -> bool {
    &&& (exists|u: int| s.contains(u))
    &&& (forall|u: int| #[trigger] s.contains(u) ==> 0 <= u < n)
    &&& (forall|u: int|
        #[trigger] s.contains(u) ==> exists|e: int|
            0 <= e < edges.len() && (edges[e].0 as int) == u && s.contains(edges[e].1 as int))
}

/// The graph has a dependency cycle: some set of nodes is blocked.
pub open spec fn has_cycle(n: int, edges: Seq<(usize, usize)>) -> bool {
    exists|s: Set<int>| blocked_set(n, edges, s)
}

/// The first index at or after `k` whose node belongs to `s`, or the
/// length of `order` if there is none.
spec fn first_hit(order: Seq<usize>, s: Set<int>, k: int) -> int
    decreases order.len() - k,
{
    if k < 0 || k >= order.len() {
        order.len() as int
    } else if s.contains(order[k] as int) {
        k
    } else {
        first_hit(order, s, k + 1)
    }
}

proof fn lemma_first_hit(order: Seq<usize>, s: Set<int>, k: int)
    requires
        0 <= k <= order.len(),
    ensures
        k <= first_hit(order, s, k) <= order.len(),
        forall|j: int| k <= j < first_hit(order, s, k) ==> !s.contains(#[trigger] order[j] as int),
        first_hit(order, s, k) < order.len() ==> s.contains(
            order[first_hit(order, s, k)] as int,
        ),
        (exists|j: int| k <= j < order.len() && s.contains(#[trigger] order[j] as int))
            ==> first_hit(order, s, k) < order.len(),
    decreases order.len() - k,
{
    if k < order.len() && !s.contains(order[k] as int) {
        lemma_first_hit(order, s, k + 1);
    }
}

proof fn lemma_distinct_bounded(order: Seq<usize>, n: int)
    requires
        n >= 0,
        forall|k: int| 0 <= k < order.len() ==> (#[trigger] order[k] as int) < n,
        forall|k: int, m: int| 0 <= k < m < order.len() ==> order[k] != order[m],
    ensures
        order.len() <= n,
        order.len() == n ==> forall|u: int| 0 <= u < n ==> #[trigger] appears(order, u),
{
    broadcast use vstd::seq_lib::group_seq_lib_default;

    let ints = order.map_values(|x: usize| x as int);
    assert(ints.no_duplicates());
    ints.unique_seq_to_set();
    let t = ints.to_set();
    let r = set_int_range(0, n);
    lemma_int_range(0, n);
    assert forall|x: int| t.contains(x) implies r.contains(x) by {
        let k = choose|k: int| 0 <= k < ints.len() && ints[k] == x;
    }
    lemma_len_subset(t, r);
    if order.len() == n {
        assert forall|u: int| 0 <= u < n implies #[trigger] appears(order, u) by {
            if !t.contains(u) {
                assert(t.subset_of(r.remove(u)));
                assert(r.remove(u).len() == n - 1);
                lemma_len_subset(t, r.remove(u));
                assert(false);
            }
            let k = choose|k: int| 0 <= k < ints.len() && ints[k] == u;
            assert(0 <= k < order.len() && (order[k] as int) == u);
        }
    }
}

proof fn lemma_complete_min_len(order: Seq<usize>, n: int)
    requires
        n >= 0,
        forall|k: int, m: int| 0 <= k < m < order.len() ==> order[k] != order[m],
        forall|u: int| 0 <= u < n ==> #[trigger] appears(order, u),
    ensures
        order.len() >= n,
{
    broadcast use vstd::seq_lib::group_seq_lib_default;

    let ints = order.map_values(|x: usize| x as int);
    assert(ints.no_duplicates());
    ints.unique_seq_to_set();
    let t = ints.to_set();
    let r = set_int_range(0, n);
    lemma_int_range(0, n);
    assert forall|u: int| r.contains(u) implies t.contains(u) by {
        assert(appears(order, u));
        let k = choose|k: int| 0 <= k < order.len() && (#[trigger] order[k] as int) == u;
        assert(ints[k] == u);
    }
    lemma_len_subset(r, t);
}

/// A graph that admits a full topological order has no dependency
/// cycle: no nonempty set of nodes in which every member depends on
/// another member of the set.
pub proof fn lemma_topo_order_excludes_cycle(
    n: int,
    edges: Seq<(usize, usize)>,
    order: Seq<usize>,
)
    requires
        is_permutation(n, order),
        respects_deps(edges, order),
    ensures
        !has_cycle(n, edges),
{
    if has_cycle(n, edges) {
        let s = choose|s: Set<int>| blocked_set(n, edges, s);
        let u0 = choose|u: int| s.contains(u);
        assert(appears(order, u0));
        let k0 = choose|k: int| 0 <= k < order.len() && (#[trigger] order[k] as int) == u0;
        lemma_first_hit(order, s, 0);
        let r = first_hit(order, s, 0);
        assert(r < order.len());
        let u = order[r] as int;
        let e = choose|e: int|
            0 <= e < edges.len() && (edges[e].0 as int) == u && s.contains(edges[e].1 as int);
        assert(order[r] == edges[e].0);
        let m = choose|m: int| 0 <= m < r && order[m] == edges[e].1;
        assert(s.contains(order[m] as int));
        assert(false);
    }
}

proof fn lemma_place_step(
    old_order: Seq<usize>,
    old_placed: Seq<bool>,
    u: usize,
    n: int,
    edges: Seq<(usize, usize)>,
)
    requires
        old_placed.len() == n,
        (u as int) < n,
        !old_placed[u as int],
        forall|k: int| 0 <= k < old_order.len() ==> (#[trigger] old_order[k] as int) < n,
        forall|k: int, m: int| 0 <= k < m < old_order.len() ==> old_order[k] != old_order[m],
        forall|w: int| 0 <= w < n ==> (old_placed[w] <==> #[trigger] appears(old_order, w)),
        respects_deps(edges, old_order),
        forall|e: int|
            0 <= e < edges.len() && (#[trigger] edges[e]).0 == u ==> old_placed[edges[e].1 as int],
        forall|e: int| 0 <= e < edges.len() ==> (#[trigger] edges[e].1 as int) < n,
    ensures
        forall|k: int|
            0 <= k < old_order.push(u).len() ==> (#[trigger] old_order.push(u)[k] as int) < n,
        forall|k: int, m: int|
            0 <= k < m < old_order.push(u).len() ==> old_order.push(u)[k] != old_order.push(u)[m],
        forall|w: int|
            0 <= w < n ==> (old_placed.update(u as int, true)[w] <==> #[trigger] appears(
                old_order.push(u),
                w,
            )),
        respects_deps(edges, old_order.push(u)),
{
    let new_order = old_order.push(u);
    let new_placed = old_placed.update(u as int, true);
    assert(!appears(old_order, u as int));
    assert(new_order[old_order.len() as int] == u);
    assert forall|k: int, m: int|
        0 <= k < m < new_order.len() implies new_order[k] != new_order[m] by {
        if m == old_order.len() {
            if old_order[k] == u {
                assert(appears(old_order, u as int));
            }
        }
    }
    assert forall|w: int| 0 <= w < n implies (new_placed[w] <==> #[trigger] appears(
        new_order,
        w,
    )) by {
        if w == u as int {
            assert(new_order[old_order.len() as int] as int == w);
            assert(appears(new_order, w));
        } else {
            if appears(old_order, w) {
                let k = choose|k: int|
                    0 <= k < old_order.len() && (#[trigger] old_order[k] as int) == w;
                assert(new_order[k] as int == w);
            }
            if appears(new_order, w) {
                let k = choose|k: int|
                    0 <= k < new_order.len() && (#[trigger] new_order[k] as int) == w;
                assert(old_order[k] as int == w);
            }
        }
    }
    assert forall|e: int, k: int|
        #![trigger edges[e], new_order[k]]
        0 <= e < edges.len() && 0 <= k < new_order.len() && new_order[k] == edges[e].0
            implies exists|m: int| 0 <= m < k && new_order[m] == edges[e].1 by {
        if k < old_order.len() {
            assert(old_order[k] == edges[e].0);
            let m = choose|m: int| 0 <= m < k && old_order[m] == edges[e].1;
            assert(new_order[m] == edges[e].1);
        } else {
            assert(new_order[k] == u);
            assert(old_placed[edges[e].1 as int]);
            assert(appears(old_order, edges[e].1 as int));
            let m = choose|m: int|
                0 <= m < old_order.len() && (#[trigger] old_order[m] as int) == edges[e].1 as int;
            assert(new_order[m] == edges[e].1);
        }
    }
}

proof fn lemma_stuck_blocked(n: int, edges: Seq<(usize, usize)>, placed: Seq<bool>, w: usize)
    requires
        placed.len() == n,
        (w as int) < n,
        !placed[w as int],
        forall|u: int|
            0 <= u < n && !placed[u] ==> exists|e: int|
                0 <= e < edges.len() && (#[trigger] edges[e].0 as int) == u && !placed[edges[e].1
                    as int],
        forall|e: int| 0 <= e < edges.len() ==> (#[trigger] edges[e].1 as int) < n,
    ensures
        has_cycle(n, edges),
        exists|s: Set<int>| blocked_set(n, edges, s) && s.contains(w as int),
{
    let s = Set::new(|u: int| 0 <= u < n && !placed[u]);
    assert(s.contains(w as int));
    assert forall|u: int| #[trigger] s.contains(u) implies exists|e: int|
        0 <= e < edges.len() && (edges[e].0 as int) == u && s.contains(edges[e].1 as int) by {
        let e = choose|e: int|
            0 <= e < edges.len() && (#[trigger] edges[e].0 as int) == u && !placed[edges[e].1
                as int];
        assert(s.contains(edges[e].1 as int));
    }
    assert(blocked_set(n, edges, s));
    assert(blocked_set(n, edges, s) && s.contains(w as int));
}

/// True when every edge out of `u` reaches a node already placed.
fn is_ready(u: usize, edges: &Vec<(usize, usize)>, placed: &Vec<bool>) -> (b: bool)
    requires
        forall|e: int|
            0 <= e < edges@.len() ==> (#[trigger] edges@[e].1 as int) < placed@.len(),
    ensures
        b == forall|e: int|
            0 <= e < edges@.len() && (#[trigger] edges@[e]).0 == u ==> placed@[edges@[e].1 as int],
{
    let m = edges.len();
    let mut e: usize = 0;
    while e < m
        invariant
            m == edges@.len(),
            e <= m,
            forall|i: int|
                0 <= i < edges@.len() ==> (#[trigger] edges@[i].1 as int) < placed@.len(),
            forall|i: int|
                0 <= i < e && (#[trigger] edges@[i]).0 == u ==> placed@[edges@[i].1 as int],
        decreases m - e,
    {
        if edges[e].0 == u && !placed[edges[e].1] {
            return false;
        }
        e = e + 1;
    }
    true
}

/// The first node that is not yet placed but whose dependencies all
/// are, if any.
fn find_ready(n: usize, edges: &Vec<(usize, usize)>, placed: &Vec<bool>) -> (r: Option<usize>)
    requires
        placed@.len() == n,
        forall|e: int|
            0 <= e < edges@.len() ==> (#[trigger] edges@[e].1 as int) < n,
    ensures
        match r {
            Some(u) => (u as int) < n && !placed@[u as int] && forall|e: int|
                0 <= e < edges@.len() && (#[trigger] edges@[e]).0 == u
                    ==> placed@[edges@[e].1 as int],
            None => forall|u: int|
                0 <= u < n && !placed@[u] ==> exists|e: int|
                    0 <= e < edges@.len() && (#[trigger] edges@[e].0 as int) == u
                        && !placed@[edges@[e].1 as int],
        },
{
    let mut u: usize = 0;
    while u < n
        invariant
            placed@.len() == n,
            u <= n,
            forall|e: int|
                0 <= e < edges@.len() ==> (#[trigger] edges@[e].1 as int) < n,
            forall|w: int|
                0 <= w < u && !placed@[w] ==> exists|e: int|
                    0 <= e < edges@.len() && (#[trigger] edges@[e].0 as int) == w
                        && !placed@[edges@[e].1 as int],
        decreases n - u,
    {
        if !placed[u] {
            if is_ready(u, edges, placed) {
                return Some(u);
            }
            proof {
                let e = choose|e: int|
                    0 <= e < edges@.len() && (edges@[e]).0 == u && !placed@[edges@[e].1 as int];
                assert((edges@[e].0 as int) == u as int);
            }
        }
        u = u + 1;
    }
    None
}

/// The first node not yet placed, if any.
fn find_unplaced(n: usize, placed: &Vec<bool>) -> (r: Option<usize>)
    requires
        placed@.len() == n,
    ensures
        match r {
            Some(u) => (u as int) < n && !placed@[u as int],
            None => forall|u: int| 0 <= u < n ==> placed@[u],
        },
{
    let mut u: usize = 0;
    while u < n
        invariant
            placed@.len() == n,
            u <= n,
            forall|w: int| 0 <= w < u ==> placed@[w],
        decreases n - u,
    {
        if !placed[u] {
            return Some(u);
        }
        u = u + 1;
    }
    None
}

/// Computes a leaves-first build order over the graph: a topological
/// order in which every node appears after all nodes it depends on.
/// Returns `CycleError` exactly when the graph has a dependency cycle;
/// the reported node is a member of a blocked set.
#[verifier::rlimit(20)]
pub fn plan(graph: &petgraph::graph::DiGraph<StoreDerivation, ()>) -> (r: Result<
    Vec<usize>,
    CycleError,
>)
    ensures
        match r {
            Ok(order) => is_permutation(graph_nodes(*graph).len() as int, order@)
                && respects_deps(graph_edges(*graph), order@) && !has_cycle(
                graph_nodes(*graph).len() as int,
                graph_edges(*graph),
            ),
            Err(ce) => has_cycle(graph_nodes(*graph).len() as int, graph_edges(*graph))
                && (ce.node as int) < graph_nodes(*graph).len() && exists|s: Set<int>|
                blocked_set(graph_nodes(*graph).len() as int, graph_edges(*graph), s)
                    && s.contains(ce.node as int),
        },
{
    let n = graph_node_count(graph);
    let edges = graph_edge_vec(graph);
    let mut placed: Vec<bool> = Vec::new();
    while placed.len() < n
        invariant
            placed@.len() <= n,
            forall|u: int| 0 <= u < placed@.len() ==> !placed@[u],
        decreases n - placed@.len(),
    {
        placed.push(false);
    }
    let mut order: Vec<usize> = Vec::new();
    let mut round: usize = 0;
    while round < n
        invariant
            n == graph_nodes(*graph).len(),
            edges@ == graph_edges(*graph),
            forall|e: int| 0 <= e < edges@.len() ==> (#[trigger] edges@[e].0 as int) < n,
            forall|e: int| 0 <= e < edges@.len() ==> (#[trigger] edges@[e].1 as int) < n,
            placed@.len() == n,
            order@.len() == round,
            round <= n,
            forall|k: int| 0 <= k < order@.len() ==> (#[trigger] order@[k] as int) < n,
            forall|k: int, m: int| 0 <= k < m < order@.len() ==> order@[k] != order@[m],
            forall|u: int| 0 <= u < n ==> (placed@[u] <==> #[trigger] appears(order@, u)),
            respects_deps(edges@, order@),
        decreases n - round,
    {
        match find_ready(n, &edges, &placed) {
            Some(u) => {
                let ghost old_order = order@;
                let ghost old_placed = placed@;
                proof {
                    lemma_place_step(old_order, old_placed, u, n as int, edges@);
                }
                order.push(u);
                placed.set(u, true);
                round = round + 1;
            },
            None => {
                match find_unplaced(n, &placed) {
                    Some(w) => {
                        proof {
                            lemma_stuck_blocked(n as int, edges@, placed@, w);
                        }
                        return Err(CycleError { node: w });
                    },
                    None => {
                        proof {
                            assert forall|u: int| 0 <= u < n implies #[trigger] appears(
                                order@,
                                u,
                            ) by {
                                assert(placed@[u]);
                            }
                            lemma_complete_min_len(order@, n as int);
                            assert(false);
                        }
                        return Err(CycleError { node: 0 });
                    },
                }
            },
        }
    }
    proof {
        lemma_distinct_bounded(order@, n as int);
        assert(is_permutation(n as int, order@));
        lemma_topo_order_excludes_cycle(n as int, graph_edges(*graph), order@);
    }
    Ok(order)
}

} // verus!
