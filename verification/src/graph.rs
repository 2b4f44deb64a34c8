//! The derivation graph: nodes are derivation descriptors, edges point
//! from a dependent derivation to each of its resolved inputs.
//!
//! Storage is petgraph's `DiGraph`.  Its contents are named by the two
//! uninterpreted functions `graph_nodes` and `graph_edges` (the node
//! weights in insertion order, and the edges in insertion order as
//! `(source, target)` index pairs); a small set of trusted wrappers
//! states what each petgraph call does in terms of those names.

use vstd::prelude::*;
use crate::descriptor::StoreDerivation;
use petgraph::visit::EdgeRef;

verus! {

/// Declares petgraph's `Graph` so that it can stand in fields and
/// signatures; its contents are reachable only through the named
/// functions below.
#[verifier::external_type_specification]
#[verifier::external_body]
#[verifier::reject_recursive_types(N)]
#[verifier::reject_recursive_types(E)]
#[verifier::reject_recursive_types(Ty)]
#[verifier::reject_recursive_types(Ix)]
pub struct ExGraph<N, E, Ty, Ix>(petgraph::graph::Graph<N, E, Ty, Ix>);

/// Declares petgraph's directed-graph marker type.
#[verifier::external_type_specification]
#[verifier::external_body]
pub struct ExDirected(petgraph::Directed);

/// The node weights of the graph, in insertion order.  A node handle is
/// the weight's index in this sequence.
pub uninterp spec fn graph_nodes(
    g: petgraph::graph::DiGraph<StoreDerivation, ()>,
) -> Seq<StoreDerivation>;

/// The edges of the graph, in insertion order, as (source, target)
/// node handle pairs.
pub uninterp spec fn graph_edges(
    g: petgraph::graph::DiGraph<StoreDerivation, ()>,
) -> Seq<(usize, usize)>;

/// The targets of the edges whose source is `u`, most recently added
/// edge first: the order in which petgraph reports a node's neighbors
/// on a directed graph.
pub open spec fn child_seq(edges: Seq<(usize, usize)>, u: int) -> Seq<usize>
    decreases edges.len(),
{
    if edges.len() == 0 {
        Seq::empty()
    } else {
        let head: Seq<usize> = if edges.last().0 as int == u {
            seq![edges.last().1]
        } else {
            Seq::empty()
        };
        head + child_seq(edges.drop_last(), u)
    }
}

/// Relies on petgraph's `Graph::new`: the graph starts empty.
#[verifier::external_body]
pub(crate) fn graph_new() -> (g: petgraph::graph::DiGraph<StoreDerivation, ()>)
    ensures
        graph_nodes(g) == Seq::<StoreDerivation>::empty(),
        graph_edges(g) == Seq::<(usize, usize)>::empty(),
{
    petgraph::graph::DiGraph::new()
}

/// Relies on petgraph's `Graph::add_node`: appends one node and returns
/// its index, which equals the node count before the call.  The node
/// capacity bound keeps the call from panicking at the index-type limit.
#[verifier::external_body]
pub(crate) fn graph_add_node(
    g: &mut petgraph::graph::DiGraph<StoreDerivation, ()>,
    w: StoreDerivation,
) -> (i: usize)
    requires
        graph_nodes(*old(g)).len() < 0xFFFF_FFFF,
    ensures
        graph_nodes(*final(g)) == graph_nodes(*old(g)).push(w),
        graph_edges(*final(g)) == graph_edges(*old(g)),
        i == graph_nodes(*old(g)).len(),
{
    g.add_node(w).index()
}

/// Relies on petgraph's `Graph::add_edge`: appends one directed edge
/// between two existing nodes; nodes are untouched.  The bounds keep
/// the call from panicking on a missing endpoint or at the index-type
/// limit.
#[verifier::external_body]
pub(crate) fn graph_add_edge(
    g: &mut petgraph::graph::DiGraph<StoreDerivation, ()>,
    a: usize,
    b: usize,
)
    requires
        a < graph_nodes(*old(g)).len(),
        b < graph_nodes(*old(g)).len(),
        graph_edges(*old(g)).len() < 0xFFFF_FFFF,
    ensures
        graph_nodes(*final(g)) == graph_nodes(*old(g)),
        graph_edges(*final(g)) == graph_edges(*old(g)).push((a, b)),
{
    g.add_edge(
        petgraph::graph::NodeIndex::new(a),
        petgraph::graph::NodeIndex::new(b),
        (),
    );
}

/// Relies on petgraph's `Graph::node_count`: the number of nodes.
#[verifier::external_body]
pub(crate) fn graph_node_count(g: &petgraph::graph::DiGraph<StoreDerivation, ()>) -> (n: usize)
    ensures
        n == graph_nodes(*g).len(),
{
    g.node_count()
}

/// Relies on petgraph's `Graph::node_weight`: `Some` of the weight
/// exactly when the index is in bounds.
#[verifier::external_body]
pub(crate) fn graph_node_ref<'a>(
    g: &'a petgraph::graph::DiGraph<StoreDerivation, ()>,
    i: usize,
) -> (d: &'a StoreDerivation)
    requires
        i < graph_nodes(*g).len(),
    ensures
        *d == graph_nodes(*g)[i as int],
{
    g.node_weight(petgraph::graph::NodeIndex::new(i)).unwrap()
}

/// Relies on petgraph's `Graph::neighbors` on a directed graph: the
/// targets of the outgoing edges of `i`, most recently added edge
/// first; every reported neighbor is an existing node.
#[verifier::external_body]
pub(crate) fn graph_children(
    g: &petgraph::graph::DiGraph<StoreDerivation, ()>,
    i: usize,
) -> (c: Vec<usize>)
    requires
        i < graph_nodes(*g).len(),
    ensures
        c@ == child_seq(graph_edges(*g), i as int),
        forall|k: int| 0 <= k < c@.len() ==> (c@[k] as int) < graph_nodes(*g).len(),
{
    let mut c = Vec::new();
    for n in g.neighbors(petgraph::graph::NodeIndex::new(i)) {
        c.push(n.index());
    }
    c
}

/// Relies on petgraph's `Graph::edge_references`: all edges in index
/// (insertion) order, each as a (source, target) pair; every endpoint
/// is an existing node.
#[verifier::external_body]
pub(crate) fn graph_edge_vec(
    g: &petgraph::graph::DiGraph<StoreDerivation, ()>,
) -> (e: Vec<(usize, usize)>)
    ensures
        e@ == graph_edges(*g),
        forall|k: int| 0 <= k < e@.len() ==> (#[trigger] e@[k].0 as int) < graph_nodes(*g).len(),
        forall|k: int| 0 <= k < e@.len() ==> (#[trigger] e@[k].1 as int) < graph_nodes(*g).len(),
{
    let mut e = Vec::new();
    for r in g.edge_references() {
        e.push((r.source().index(), r.target().index()));
    }
    e
}

/// Builds the derivation graph.  Nodes are deduplicated by the
/// descriptor's `name`: at most one node per name is ever inserted.
pub struct DerivationBuilder {
    pub graph: petgraph::graph::DiGraph<StoreDerivation, ()>,
}

impl DerivationBuilder {
    /// The node weights, in insertion order.
    pub open spec fn nodes(self) -> Seq<StoreDerivation> {
        graph_nodes(self.graph)
    }

    /// The edges, in insertion order, as (source, target) handle pairs.
    pub open spec fn edges(self) -> Seq<(usize, usize)> {
        graph_edges(self.graph)
    }

    /// Deduplication invariant: no two nodes share a name.
    pub open spec fn names_unique(self) -> bool {
        forall|i: int, j: int|
            0 <= i < j < self.nodes().len() ==> self.nodes()[i].name@ != self.nodes()[j].name@
    }

    /// The handle of the node named `name`, if any: the index of the
    /// first node whose name matches.
    pub fn find_by_name(&self, name: &String) -> (r: Option<usize>)
        ensures
            match r {
                Some(i) => (i as int) < self.nodes().len()
                    && self.nodes()[i as int].name@ == name@
                    && forall|j: int| 0 <= j < i ==> self.nodes()[j].name@ != name@,
                None => forall|j: int|
                    0 <= j < self.nodes().len() ==> self.nodes()[j].name@ != name@,
            },
    {
        let n = graph_node_count(&self.graph);
        let mut i: usize = 0;
        while i < n
            invariant
                n == self.nodes().len(),
                i <= n,
                forall|j: int| 0 <= j < i ==> self.nodes()[j].name@ != name@,
            decreases n - i,
        {
            let d = graph_node_ref(&self.graph, i);
            if d.name == *name {
                return Some(i);
            }
            i = i + 1;
        }
        None
    }

    /// Adds `derivation` to the graph unless a node with the same name
    /// already exists; returns the handle of the node that now carries
    /// that name.  Edges are untouched.
    pub fn add_derivation(&mut self, derivation: StoreDerivation) -> (node: usize)
        requires
            old(self).nodes().len() < 0xFFFF_FFFF,
        ensures
            final(self).edges() == old(self).edges(),
            (node as int) < final(self).nodes().len(),
            final(self).nodes()[node as int].name@ == derivation.name@,
            forall|j: int| 0 <= j < node ==> final(self).nodes()[j].name@ != derivation.name@,
            if exists|j: int|
                0 <= j < old(self).nodes().len()
                    && old(self).nodes()[j].name@ == derivation.name@ {
                final(self).nodes() == old(self).nodes()
            } else {
                final(self).nodes() == old(self).nodes().push(derivation)
                    && node == old(self).nodes().len()
            },
            old(self).names_unique() ==> final(self).names_unique(),
    {
        match self.find_by_name(&derivation.name) {
            Some(i) => i,
            None => {
                let node = graph_add_node(&mut self.graph, derivation);
                node
            },
        }
    }

    /// Adds a dependency edge from `from` to `to`.
    pub fn link(&mut self, from: usize, to: usize)
        requires
            (from as int) < old(self).nodes().len(),
            (to as int) < old(self).nodes().len(),
            old(self).edges().len() < 0xFFFF_FFFF,
        ensures
            final(self).nodes() == old(self).nodes(),
            final(self).edges() == old(self).edges().push((from, to)),
    {
        graph_add_edge(&mut self.graph, from, to);
    }

    /// The number of nodes in the graph.
    pub fn node_count(&self) -> (n: usize)
        ensures
            n == self.nodes().len(),
    {
        graph_node_count(&self.graph)
    }

    /// The descriptor carried by the node with handle `i`.
    pub fn derivation(&self, i: usize) -> (d: &StoreDerivation)
        requires
            (i as int) < self.nodes().len(),
        ensures
            *d == self.nodes()[i as int],
    {
        graph_node_ref(&self.graph, i)
    }

    /// All edges, in insertion order, as (source, target) handle pairs.
    pub fn edge_pairs(&self) -> (e: Vec<(usize, usize)>)
        ensures
            e@ == self.edges(),
            forall|k: int| 0 <= k < e@.len() ==> (e@[k].0 as int) < self.nodes().len()
                && (e@[k].1 as int) < self.nodes().len(),
    {
        graph_edge_vec(&self.graph)
    }
}

impl Default for DerivationBuilder {
    /// An empty graph: no nodes, no edges.
    fn default() -> (b: Self)
        ensures
            b.nodes() == Seq::<StoreDerivation>::empty(),
            b.edges() == Seq::<(usize, usize)>::empty(),
    {
        DerivationBuilder { graph: graph_new() }
    }
}

} // verus!
