use crate::transformer::Transformer;
use crate::types::NodeId;
use vstd::prelude::*;

verus! {

/// The set-up of a simulation: how many nodes, and the transformer that the
/// message bus runs every envelope through.
pub struct SimulationRunner<T: Transformer + 'static> {
    n_nodes: usize,
    transformer: T,
}

impl<T: Transformer + 'static> SimulationRunner<T> {
    pub fn new(n_nodes: usize, transformer: T) -> (r: Self)
        ensures
            r.n_nodes() == n_nodes,
            r.held_transformer() == transformer,
    {
        SimulationRunner { n_nodes, transformer }
    }

    #[verifier::when_used_as_spec(spec_n_nodes)]
    pub fn n_nodes(&self) -> (r: usize)
        ensures
            r == self.spec_n_nodes(),
    {
        self.n_nodes
    }

    pub closed spec fn spec_n_nodes(&self) -> usize {
        self.n_nodes
    }

    /// The transformer that the runner holds.
    pub closed spec fn held_transformer(&self) -> T {
        self.transformer
    }

    /// Gives up the runner's transformer, to be installed in the message bus.
    pub fn into_transformer(self) -> (r: T)
        ensures
            r == self.held_transformer(),
    {
        self.transformer
    }
}

/// The ids of a cluster of `n` nodes: 1, 2, ..., n.
pub fn cluster_ids(n: u64) -> (r: Vec<NodeId>)
    ensures
        r@.len() == n,
        forall|i: int| 0 <= i < n ==> (#[trigger] r@[i]).0 == i + 1,
{
    let mut r: Vec<NodeId> = Vec::new();
    let mut i: u64 = 0;
    while i < n
        invariant
            i <= n,
            r@.len() == i,
            forall|j: int| 0 <= j < i ==> (#[trigger] r@[j]).0 == j + 1,
        decreases n - i,
    {
        r.push(NodeId(i + 1));
        i = i + 1;
    }
    r
}

} // verus!
