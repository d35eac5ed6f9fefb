//! The vertex record of an engine: the edges it writes to and reads from.

use vstd::prelude::*;
use crate::queue::{EdgeId, EdgeState};

verus! {

/// The edges of an engine, each list in a stable order.
pub struct Node {
    pub tx_outputs: Vec<EdgeId>,
    pub rx_inputs: Vec<EdgeId>,
}

impl Node {
    /// A vertex without edges.
    pub fn new() -> (n: Node)
        ensures
            n.tx_outputs@ == Seq::<EdgeId>::empty(),
            n.rx_inputs@ == Seq::<EdgeId>::empty(),
    {
        Node { tx_outputs: Vec::new(), rx_inputs: Vec::new() }
    }

    /// A vertex with one output and one input.
    pub fn with_edges(tx: EdgeId, rx: EdgeId) -> (n: Node)
        ensures
            n.tx_outputs@ == seq![tx],
            n.rx_inputs@ == seq![rx],
    {
        let mut n = Node { tx_outputs: Vec::new(), rx_inputs: Vec::new() };
        n.tx_outputs.push(tx);
        n.rx_inputs.push(rx);
        assert(n.tx_outputs@ =~= seq![tx]);
        assert(n.rx_inputs@ =~= seq![rx]);
        n
    }
}

/// Every edge of the lists exists among `edges`.
pub open spec fn edges_exist(ids: Seq<EdgeId>, edges: Seq<EdgeState>) -> bool {
    forall|i: int| 0 <= i < ids.len() ==> (#[trigger] ids[i]).0 < edges.len()
}

} // verus!
