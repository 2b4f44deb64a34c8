//! Recursive, deduplicating resolution of a derivation graph from
//! descriptor files.
//!
//! The resolver owns the graph under construction and a worklist of
//! descriptor files still to load; the caller performs the reads and
//! feeds each parsed descriptor back in.  Deduplication is by
//! descriptor name: a name already present is reused (with a new edge)
//! rather than re-inserted, which also bounds resolution on
//! mutually-referential descriptor files.  Any read or parse failure
//! aborts the whole resolution; partial graphs are never used.

use vstd::prelude::*;
use crate::descriptor::StoreDerivation;
use crate::graph::DerivationBuilder;

verus! {

/// Why resolution failed: the named descriptor file could not be read,
/// or its contents did not match the descriptor shape.
#[derive(Debug)]
pub enum LoadError {
    IoError(String),
    ParseError(String),
}

/// The worklist entries a newly inserted node contributes: one entry
/// per input, carrying the new node's handle and the input's
/// descriptor file path, queued so that popping from the end yields
/// the inputs in declaration order.
pub open spec fn queued_inputs(h: usize, d: StoreDerivation) -> Seq<(usize, Seq<char>)> {
    Seq::new(
        d.input_derivations@.len(),
        |k: int| (h, d.input_derivations@[d.input_derivations@.len() - 1 - k].0@),
    )
}

/// Resolution state: the graph built so far, and the descriptor files
/// still to load, each paired with the handle of the node that
/// references it.
pub struct Resolver {
    pub builder: DerivationBuilder,
    pub pending: Vec<(usize, String)>,
    pub root: usize,
}

impl Resolver {
    /// The worklist with paths as character sequences.
    pub open spec fn pending_view(self) -> Seq<(usize, Seq<char>)> {
        Seq::new(self.pending@.len(), |k: int| (self.pending@[k].0, self.pending@[k].1@))
    }

    /// Well-formedness: node names stay unique and every worklist
    /// entry references an existing node.
    pub open spec fn wf(self) -> bool {
        &&& self.builder.names_unique()
        &&& (self.root as int) < self.builder.nodes().len()
        &&& forall|k: int|
            0 <= k < self.pending@.len() ==> (#[trigger] self.pending@[k].0 as int)
                < self.builder.nodes().len()
    }

    /// Starts a resolution at `root_derivation`: the root becomes the
    /// graph's only node and its inputs the initial worklist.
    pub fn new(root_derivation: StoreDerivation) -> (r: Resolver)
        ensures
            r.wf(),
            r.root == 0usize,
            r.builder.nodes() =~= seq![root_derivation],
            r.builder.edges() =~= Seq::<(usize, usize)>::empty(),
            r.pending_view() =~= queued_inputs(0usize, root_derivation),
    {
        let mut pending: Vec<(usize, String)> = Vec::new();
        let total = root_derivation.input_derivations.len();
        let mut i: usize = total;
        while i > 0
            invariant
                i <= total,
                total == root_derivation.input_derivations@.len(),
                pending@.len() == total - i,
                forall|k: int|
                    0 <= k < pending@.len() ==> (#[trigger] pending@[k]).0 == 0usize
                        && pending@[k].1@ == root_derivation.input_derivations@[total - 1 - k].0@,
            decreases i,
        {
            i = i - 1;
            let path = root_derivation.input_derivations[i].0.clone();
            pending.push((0, path));
        }
        let mut builder = DerivationBuilder::default();
        let h = builder.add_derivation(root_derivation);
        proof {
            assert(builder.nodes() =~= seq![root_derivation]);
        }
        let r = Resolver { builder, pending, root: h };
        proof {
            assert(r.pending_view() =~= queued_inputs(0usize, root_derivation));
        }
        r
    }

    /// The next descriptor file to load, with the handle of the node
    /// that references it; `None` once resolution is complete.
    pub fn next_request(&self) -> (r: Option<(usize, String)>)
        ensures
            match r {
                Some(p) => self.pending@.len() > 0 && p.0 == self.pending@.last().0 && p.1@
                    == self.pending@.last().1@,
                None => self.pending@.len() == 0,
            },
    {
        if self.pending.len() > 0 {
            let last = self.pending.len() - 1;
            let parent = self.pending[last].0;
            let path = self.pending[last].1.clone();
            Some((parent, path))
        } else {
            None
        }
    }

    /// Consumes the descriptor loaded for the most recent request.  If
    /// a node with the same name already exists its handle is reused —
    /// the descriptor is not re-inserted — and only a new edge from
    /// the requesting node is added; otherwise the descriptor becomes
    /// a new node, linked from the requesting node, and its own inputs
    /// join the worklist.
    pub fn supply(&mut self, d: StoreDerivation)
        requires
            old(self).wf(),
            old(self).pending@.len() > 0,
            old(self).builder.nodes().len() < 0xFFFF_FFFF,
            old(self).builder.edges().len() < 0xFFFF_FFFF,
        ensures
            final(self).wf(),
            final(self).root == old(self).root,
            ({
                let parent = old(self).pending@.last().0;
                let nodes0 = old(self).builder.nodes();
                if exists|j: int|
                    0 <= j < nodes0.len() && (#[trigger] nodes0[j].name@) == d.name@ {
                    &&& final(self).builder.nodes() == nodes0
                    &&& final(self).builder.edges().len() == old(self).builder.edges().len() + 1
                    &&& final(self).builder.edges().drop_last() == old(self).builder.edges()
                    &&& final(self).builder.edges().last().0 == parent
                    &&& (final(self).builder.edges().last().1 as int) < nodes0.len()
                    &&& nodes0[final(self).builder.edges().last().1 as int].name@ == d.name@
                    &&& final(self).pending_view() =~= old(self).pending_view().drop_last()
                } else {
                    &&& final(self).builder.nodes() == nodes0.push(d)
                    &&& final(self).builder.edges() == old(self).builder.edges().push(
                        (parent, nodes0.len() as usize),
                    )
                    &&& final(self).pending_view() =~= old(self).pending_view().drop_last()
                        + queued_inputs(nodes0.len() as usize, d)
                }
            }),
    {
        let last = self.pending.len() - 1;
        let parent = self.pending[last].0;
        self.pending.pop();
        let ghost pend0 = self.pending@;
        match self.builder.find_by_name(&d.name) {
            Some(i) => {
                self.builder.link(parent, i);
                proof {
                    assert(self.pending_view() =~= old(self).pending_view().drop_last());
                }
            },
            None => {
                let h = self.builder.node_count();
                let total = d.input_derivations.len();
                let mut i: usize = total;
                while i > 0
                    invariant
                        i <= total,
                        total == d.input_derivations@.len(),
                        self.pending@.len() == pend0.len() + (total - i),
                        forall|k: int|
                            0 <= k < pend0.len() ==> (#[trigger] self.pending@[k]) == pend0[k],
                        forall|k: int|
                            pend0.len() <= k < self.pending@.len() ==> (#[trigger] self.pending@[
                                k
                            ]).0 == h && self.pending@[k].1@ == d.input_derivations@[total - 1 - (
                            k - pend0.len())].0@,
                        self.builder == old(self).builder,
                        self.root == old(self).root,
                        h == self.builder.nodes().len(),
                    decreases i,
                {
                    i = i - 1;
                    let path = d.input_derivations[i].0.clone();
                    self.pending.push((h, path));
                }
                let h2 = self.builder.add_derivation(d);
                self.builder.link(parent, h2);
                proof {
                    assert(self.pending_view() =~= old(self).pending_view().drop_last()
                        + queued_inputs(h, d));
                }
            },
        }
    }
}

} // verus!
