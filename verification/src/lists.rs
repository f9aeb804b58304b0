//! The three `smallvec` vectors the graph is built on.
//!
//! `SmallVec<A>` is bound by smallvec's own `Array` trait, which Verus does not
//! know, so the type cannot be declared to Verus as it stands. Each vector
//! sits in a private field of an opaque struct instead. What a vector holds is
//! named by a specification function, and every `SmallVec` method that the
//! graph calls has one wrapper here, per vector type, whose contract is taken
//! on trust from the `smallvec` sources. Nothing else in the crate is trusted.
//!
//! The contracts speak of what the vectors hold, not of where: moving from
//! inline storage to the heap changes nothing they state. As with `Vec`, a
//! vector that cannot get the memory it needs to grow ends the program; the
//! contracts do not speak of that either.

use smallvec::SmallVec;
use vstd::prelude::*;

use crate::cut::Cut;
use crate::{NodeHandle, NodeIndex};

verus! {

/// The handles of removed nodes that wait for reuse, oldest first.
/// Holds a `SmallVec` with room for 128 handles before it moves to the heap.
#[verifier::external_body]
pub struct FreeList {
    items: SmallVec<[NodeHandle; 128]>,
}

/// The directed edges, as pairs of slot indices, in the order they were added.
/// Holds a `SmallVec` with room for 256 edges before it moves to the heap.
#[verifier::external_body]
pub struct EdgeList {
    items: SmallVec<[(NodeIndex, NodeIndex); 256]>,
}

/// The answer to a neighbour query.
/// Holds a `SmallVec` with room for 8 handles before it moves to the heap.
#[verifier::external_body]
pub struct NeighborList {
    items: SmallVec<[NodeHandle; 8]>,
}

/// The handles in a free list, front first.
pub uninterp spec fn free_items(list: FreeList) -> Seq<NodeHandle>;

/// The edges in an edge list, in storage order.
pub uninterp spec fn edge_items(list: EdgeList) -> Seq<(NodeIndex, NodeIndex)>;

/// The handles in a neighbour list, in storage order.
pub uninterp spec fn neighbor_items(list: NeighborList) -> Seq<NodeHandle>;

impl FreeList {
    /// `SmallVec::new`: the new vector holds nothing.
    #[verifier::external_body]
    pub(crate) fn new() -> (list: FreeList)
        ensures
            free_items(list) == Seq::<NodeHandle>::empty(),
    {
        FreeList { items: SmallVec::new() }
    }

    /// `SmallVec::len`: the number of handles stored.
    #[verifier::external_body]
    pub(crate) fn len(&self) -> (n: usize)
        ensures
            n == free_items(*self).len(),
    {
        self.items.len()
    }

    /// `SmallVec::push`: the handle is appended behind the others.
    #[verifier::external_body]
    pub(crate) fn push(&mut self, handle: NodeHandle)
        ensures
            free_items(*final(self)) == free_items(*old(self)).push(handle),
    {
        self.items.push(handle)
    }

    /// `SmallVec::remove`: takes out and returns the handle at `index`; those
    /// behind it move one place forward. `SmallVec::remove` panics on an index
    /// that is out of bounds, which the precondition excludes.
    #[verifier::external_body]
    pub(crate) fn remove(&mut self, index: usize) -> (handle: NodeHandle)
        requires
            index < free_items(*old(self)).len(),
        ensures
            handle == free_items(*old(self))[index as int],
            free_items(*final(self)) == free_items(*old(self)).remove(index as int),
    {
        self.items.remove(index)
    }
}

impl EdgeList {
    /// `SmallVec::new`: the new vector holds nothing.
    #[verifier::external_body]
    pub(crate) fn new() -> (list: EdgeList)
        ensures
            edge_items(list) == Seq::<(NodeIndex, NodeIndex)>::empty(),
    {
        EdgeList { items: SmallVec::new() }
    }

    /// `SmallVec::len`: the number of edges stored.
    #[verifier::external_body]
    pub(crate) fn len(&self) -> (n: usize)
        ensures
            n == edge_items(*self).len(),
    {
        self.items.len()
    }

    /// `SmallVec::push`: the edge is appended behind the others.
    #[verifier::external_body]
    pub(crate) fn push(&mut self, edge: (NodeIndex, NodeIndex))
        ensures
            edge_items(*final(self)) == edge_items(*old(self)).push(edge),
    {
        self.items.push(edge)
    }

    /// Indexing a `SmallVec` (through its slice): the edge at `index`. Indexing
    /// panics out of bounds, which the precondition excludes.
    #[verifier::external_body]
    pub(crate) fn at(&self, index: usize) -> (edge: (NodeIndex, NodeIndex))
        requires
            index < edge_items(*self).len(),
        ensures
            edge == edge_items(*self)[index as int],
    {
        self.items[index]
    }

    /// `SmallVec::retain`: keeps exactly the edges for which the closure
    /// answers `true`, in their old order. The closure asks [`Cut::spares`],
    /// which is verified to answer as `Cut::kept` does.
    #[verifier::external_body]
    pub(crate) fn retain(&mut self, cut: Cut)
        ensures
            edge_items(*final(self)) == edge_items(*old(self)).filter(cut.kept()),
    {
        self.items.retain(|edge| cut.spares(*edge))
    }
}

impl NeighborList {
    /// `SmallVec::new`: the new vector holds nothing.
    #[verifier::external_body]
    pub(crate) fn new() -> (list: NeighborList)
        ensures
            neighbor_items(list) == Seq::<NodeHandle>::empty(),
    {
        NeighborList { items: SmallVec::new() }
    }

    /// `SmallVec::push`: the handle is appended behind the others.
    #[verifier::external_body]
    pub(crate) fn push(&mut self, handle: NodeHandle)
        ensures
            neighbor_items(*final(self)) == neighbor_items(*old(self)).push(handle),
    {
        self.items.push(handle)
    }

    /// `SmallVec::len`: the number of handles stored.
    #[verifier::external_body]
    fn stored(&self) -> (n: usize)
        ensures
            n == neighbor_items(*self).len(),
    {
        self.items.len()
    }

    /// Indexing a `SmallVec` (through its slice): the handle at `index`.
    /// Indexing panics out of bounds, which the precondition excludes.
    #[verifier::external_body]
    fn at(&self, index: usize) -> (handle: NodeHandle)
        requires
            index < neighbor_items(*self).len(),
        ensures
            handle == neighbor_items(*self)[index as int],
    {
        self.items[index]
    }

    /// The number of handles in the list.
    pub fn len(&self) -> (n: usize)
        ensures
            n == self@.len(),
    {
        self.stored()
    }

    /// Whether the list holds no handle.
    pub fn is_empty(&self) -> (empty: bool)
        ensures
            empty == (self@.len() == 0),
    {
        self.stored() == 0
    }

    /// The handle at `index`, if the list is that long.
    pub fn get(&self, index: usize) -> (handle: Option<NodeHandle>)
        ensures
            handle == (if index < self@.len() {
                Some(self@[index as int])
            } else {
                None
            }),
    {
        if index < self.stored() {
            Some(self.at(index))
        } else {
            None
        }
    }

    /// The handles of the list, in order, as a `Vec`.
    pub fn to_vec(&self) -> (out: Vec<NodeHandle>)
        ensures
            out@ == self@,
    {
        let n: usize = self.stored();
        let mut out: Vec<NodeHandle> = Vec::new();
        let mut i: usize = 0;
        while i < n
            invariant
                n == self@.len(),
                i <= n,
                out@ == self@.take(i as int),
            decreases n - i,
        {
            out.push(self.at(i));
            i += 1;
        }
        out
    }
}

impl View for NeighborList {
    type V = Seq<NodeHandle>;

    /// The handles of the list, in order.
    open spec fn view(&self) -> Seq<NodeHandle> {
        neighbor_items(*self)
    }
}

} // verus!
