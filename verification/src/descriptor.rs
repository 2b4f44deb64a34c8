//! The on-disk shape of a derivation: a named unit of build work with
//! inputs, a builder command, and declared outputs.
//!
//! Mappings with unique string keys (`env`, `input_derivations`,
//! `outputs`) are held as association lists in declaration order; the
//! core never interprets them beyond the keys of `input_derivations`.

use vstd::prelude::*;

verus! {

/// Reference from a derivation to one input derivation: which of the
/// input's outputs are consumed.
pub struct InputDerivation {
    pub outputs: Vec<String>,
    pub dynamic_outputs: Vec<(String, String)>,
}

/// One declared output of a derivation: where its result will be stored.
pub struct StoreDerivationOutput {
    pub path: String,
}

/// A derivation descriptor.  `name` is the identity under which graph
/// nodes are deduplicated; the keys of `input_derivations` are the
/// descriptor file paths that must be resolved in turn.
pub struct StoreDerivation {
    pub args: Vec<String>,
    pub builder: String,
    pub env: Vec<(String, String)>,
    pub input_derivations: Vec<(String, InputDerivation)>,
    pub input_sources: Vec<String>,
    pub name: String,
    pub outputs: Vec<(String, StoreDerivationOutput)>,
    pub system: String,
}

impl StoreDerivation {
    /// The descriptor file paths of the inputs, in declaration order.
    pub open spec fn input_paths(self) -> Seq<Seq<char>> {
        Seq::new(
            self.input_derivations@.len(),
            |k: int| self.input_derivations@[k].0@,
        )
    }
}

} // verus!
