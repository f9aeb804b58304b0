//! Which edges a disconnect operation takes away.

use vstd::prelude::*;

use crate::NodeIndex;

verus! {

/// A set of edges to remove from the edge list, given by the slots involved.
#[derive(Clone, Copy, Debug)]
pub enum Cut {
    /// Every edge that starts or ends at the slot.
    Node(NodeIndex),
    /// Every edge between the two slots, in either direction.
    Pair(NodeIndex, NodeIndex),
    /// Every edge from the first slot to the second.
    Arc(NodeIndex, NodeIndex),
}

impl Cut {
    /// Whether the cut removes the edge `e`.
    pub open spec fn severs(self, e: (NodeIndex, NodeIndex)) -> bool {
        match self {
            Cut::Node(n) => e.0 == n || e.1 == n,
            Cut::Pair(a, b) => (e.0 == a && e.1 == b) || (e.0 == b && e.1 == a),
            Cut::Arc(s, d) => e.0 == s && e.1 == d,
        }
    }

    /// The predicate of the edges that survive the cut.
    pub open spec fn kept(self) -> spec_fn((NodeIndex, NodeIndex)) -> bool {
        |e: (NodeIndex, NodeIndex)| !self.severs(e)
    }

    /// Decides whether the edge `e` survives the cut.
    pub fn spares(&self, e: (NodeIndex, NodeIndex)) -> (keep: bool)
        ensures
            keep == !self.severs(e),
            keep == (self.kept())(e),
    {
        match *self {
            Cut::Node(n) => e.0 != n && e.1 != n,
            Cut::Pair(a, b) => !((e.0 == a && e.1 == b) || (e.0 == b && e.1 == a)),
            Cut::Arc(s, d) => !(e.0 == s && e.1 == d),
        }
    }
}

} // verus!
