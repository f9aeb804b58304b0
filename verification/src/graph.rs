//! The graph container.

use vstd::prelude::*;

use crate::cut::Cut;
use crate::lists::{edge_items, free_items, EdgeList, FreeList, NeighborList};
use crate::model::{
    entering, leaving, lemma_inserted_wf, lemma_occupied_push, lemma_occupied_update,
    lemma_removed_wf, lemma_select_step, occupied, GraphModel, Slot,
};
use crate::{Generation, NodeHandle, NodeIndex};

verus! {

/// A graph of values of type `T` with directed edges between them.
///
/// Nodes live in slots of an arena that only grows; a removed node leaves its
/// slot empty until a later insertion reuses it. Edges are pairs of slot
/// indices and know nothing of generations.
pub struct SmallGraph<T> {
    pub(crate) free: FreeList,
    pub(crate) nodes: Vec<Slot<T>>,
    pub(crate) connections: EdgeList,
}

impl<T> View for SmallGraph<T> {
    type V = GraphModel<T>;

    closed spec fn view(&self) -> GraphModel<T> {
        GraphModel {
            slots: self.nodes@,
            free: free_items(self.free),
            edges: edge_items(self.connections),
        }
    }
}

impl<T> SmallGraph<T> {
    /// The arena invariant holds of this graph.
    pub open spec fn wf(&self) -> bool {
        self@.wf()
    }

    /// Create a new SmallGraph
    pub fn new() -> (graph: SmallGraph<T>)
        ensures
            graph.wf(),
            graph@ == GraphModel::<T>::empty(),
    {
        SmallGraph { free: FreeList::new(), nodes: Vec::new(), connections: EdgeList::new() }
    }

    /// Insert a value into graph
    ///
    /// Reuses the slot that has been free the longest, if any; this is where
    /// the arena invariant is relied on.
    pub fn insert(&mut self, value: T) -> (handle: NodeHandle)
        requires
            old(self).wf(),
        ensures
            final(self).wf(),
            handle == old(self)@.next_handle(),
            final(self)@ == old(self)@.inserted(value),
            final(self)@.get(handle) == Some(value),
            final(self)@.count() == old(self)@.count() + 1,
    {
        if self.free.len() == 0 {
            let index: usize = self.nodes.len();
            let gen: Generation = 0;
            self.nodes.push((gen, Some(value)));
            proof {
                assert(self.nodes@.len() == self.nodes.len());
                lemma_inserted_wf(old(self)@, value);
                lemma_occupied_push(old(self)@.slots, (gen, Some(value)));
            }
            (index, gen)
        } else {
            let n = self.free.remove(0);
            let (index, gen) = n;
            self.nodes[index] = (gen + 1, Some(value));
            proof {
                assert(free_items(self.free) =~= old(self)@.free.drop_first());
                lemma_inserted_wf(old(self)@, value);
                lemma_occupied_update(
                    old(self)@.slots,
                    index as int,
                    ((gen + 1) as usize, Some(value)),
                );
            }
            (index, gen + 1)
        }
    }

    /// Create a directed connection between parent and child
    pub fn connect_to(&mut self, parent: NodeHandle, child: NodeHandle)
        ensures
            final(self)@ == old(self)@.connected_to(parent, child),
            old(self).wf() ==> final(self).wf(),
    {
        self.connections.push((parent.0, child.0));
    }

    /// Get nodes this node has an edge to
    pub fn neighbors(&self, node: NodeHandle) -> (children: NeighborList)
        ensures
            children@ == self@.out_neighbors(node),
    {
        let mut children = NeighborList::new();
        let count: usize = self.connections.len();
        let slots: usize = self.nodes.len();
        let mut i: usize = 0;
        while i < count
            invariant
                count == self@.edges.len(),
                slots == self@.slots.len(),
                i <= count,
                children@ == self@.edges.take(i as int).filter(
                    leaving(node.0, slots as nat),
                ).map_values(self@.head()),
            decreases count - i,
        {
            let edge = self.connections.at(i);
            if edge.0 == node.0 && edge.1 < slots {
                let child_handle = (edge.1, self.nodes[edge.1].0);
                children.push(child_handle);
            }
            proof {
                lemma_select_step(
                    self@.edges,
                    i as int,
                    leaving(node.0, slots as nat),
                    self@.head(),
                );
            }
            i += 1;
        }
        proof {
            assert(self@.edges.take(count as int) =~= self@.edges);
        }
        children
    }

    /// Get nodes that have an edge that can reach node
    pub fn nodes_with_neighbor(&self, node: NodeHandle) -> (parents: NeighborList)
        ensures
            parents@ == self@.in_neighbors(node),
    {
        let mut parents = NeighborList::new();
        let count: usize = self.connections.len();
        let slots: usize = self.nodes.len();
        let mut i: usize = 0;
        while i < count
            invariant
                count == self@.edges.len(),
                slots == self@.slots.len(),
                i <= count,
                parents@ == self@.edges.take(i as int).filter(
                    entering(node.0, slots as nat),
                ).map_values(self@.tail()),
            decreases count - i,
        {
            let edge = self.connections.at(i);
            if edge.1 == node.0 && edge.0 < slots {
                let parent_handle = (edge.0, self.nodes[edge.0].0);
                parents.push(parent_handle);
            }
            proof {
                lemma_select_step(
                    self@.edges,
                    i as int,
                    entering(node.0, slots as nat),
                    self@.tail(),
                );
            }
            i += 1;
        }
        proof {
            assert(self@.edges.take(count as int) =~= self@.edges);
        }
        parents
    }

    /// Create a two way connection between two nodes
    pub fn connect(&mut self, a: NodeHandle, b: NodeHandle)
        ensures
            final(self)@ == old(self)@.connected(a, b),
            final(self)@.edges.len() == old(self)@.edges.len() + 2,
            final(self)@.linked(a, b),
            final(self)@.linked(b, a),
            old(self).wf() ==> final(self).wf(),
    {
        self.connections.push((a.0, b.0));
        self.connections.push((b.0, a.0));
        proof {
            let n = old(self)@.edges.len() as int;
            assert(self@.edges[n] == (a.0, b.0));
            assert(self@.edges[n + 1] == (b.0, a.0));
        }
    }

    /// Disconnect all connections a node has
    pub fn disconnect_all(&mut self, n: NodeHandle)
        ensures
            final(self)@ == old(self)@.severed(Cut::Node(n.0)),
            old(self).wf() ==> final(self).wf(),
    {
        self.connections.retain(Cut::Node(n.0));
    }

    /// Disconnect all connections between two nodes
    pub fn disconnect(&mut self, a: NodeHandle, b: NodeHandle)
        ensures
            final(self)@ == old(self)@.severed(Cut::Pair(a.0, b.0)),
            old(self).wf() ==> final(self).wf(),
    {
        self.connections.retain(Cut::Pair(a.0, b.0));
    }

    /// Disconnect edge connection between source and destination
    pub fn disconnect_from(&mut self, source: NodeHandle, destination: NodeHandle)
        ensures
            final(self)@ == old(self)@.severed(Cut::Arc(source.0, destination.0)),
            old(self).wf() ==> final(self).wf(),
    {
        self.connections.retain(Cut::Arc(source.0, destination.0));
    }

    /// Determine if there is a connection connection between a source and destination node
    pub fn is_connected_to(&self, source: NodeHandle, destination: NodeHandle) -> (found: bool)
        ensures
            found == self@.linked(source, destination),
    {
        let count: usize = self.connections.len();
        let mut i: usize = 0;
        while i < count
            invariant
                count == self@.edges.len(),
                i <= count,
                forall|k: int| 0 <= k < i ==> self@.edges[k] != (source.0, destination.0),
            decreases count - i,
        {
            let edge = self.connections.at(i);
            if edge.0 == source.0 && edge.1 == destination.0 {
                return true;
            }
            i += 1;
        }
        false
    }

    /// Remove a node and it's connections from graph
    ///
    /// A generation is a `usize`: a node whose generation is `usize::MAX` cannot
    /// be removed, since its slot has no next generation to move to.
    pub fn remove(&mut self, n: NodeHandle) -> (value: Option<T>)
        requires
            old(self)@.contains(n) ==> n.1 < usize::MAX,
        ensures
            value == old(self)@.get(n),
            final(self)@ == old(self)@.removed(n),
            final(self)@.get(n) is None,
            final(self)@.count() == old(self)@.count() - if value is Some {
                1int
            } else {
                0int
            },
            old(self).wf() ==> final(self).wf(),
    {
        let (index, gen) = n;
        if index < self.nodes.len() && self.nodes[index].0 == gen && self.nodes[index].1.is_some() {
            self.disconnect_all(n);
            let mut r: Slot<T> = (gen + 1, None);
            core::mem::swap(&mut self.nodes[index], &mut r);
            self.free.push(n);
            proof {
                lemma_occupied_update(old(self)@.slots, index as int, ((gen + 1) as usize, None));
                if old(self).wf() {
                    lemma_removed_wf(old(self)@, n);
                }
            }
            return r.1;
        }
        None
    }

    /// Returns the count of nodes
    pub fn node_count(&self) -> (c: usize)
        ensures
            c == self@.count(),
    {
        let mut c: usize = 0;
        let slots: usize = self.nodes.len();
        let mut i: usize = 0;
        while i < slots
            invariant
                slots == self.nodes@.len(),
                i <= slots,
                c <= i,
                c == occupied(self.nodes@.take(i as int)),
            decreases slots - i,
        {
            if self.nodes[i].1.is_some() {
                c += 1;
            }
            proof {
                assert(self.nodes@.take(i + 1) =~= self.nodes@.take(i as int).push(self.nodes@[i as int]));
                lemma_occupied_push(self.nodes@.take(i as int), self.nodes@[i as int]);
            }
            i += 1;
        }
        proof {
            assert(self.nodes@.take(slots as int) =~= self.nodes@);
        }
        c
    }

    /// Get the value of a node
    pub fn get(&self, n: NodeHandle) -> (value: Option<&T>)
        ensures
            value == (if self@.contains(n) {
                Some(&self@.value(n))
            } else {
                None
            }),
    {
        let (index, gen) = n;
        if index < self.nodes.len() && self.nodes[index].0 == gen {
            if let Some(value) = &self.nodes[index].1 {
                return Some(value);
            }
        }
        None
    }

    /// Get a mutable value of a node
    pub fn get_mut(&mut self, n: NodeHandle) -> (value: Option<&mut T>)
        ensures
            value is Some <==> old(self)@.contains(n),
            value matches Some(v) ==> *v == old(self)@.value(n) && final(self)@ == old(
                self,
            )@.with_value(n, *final(v)),
            value is None ==> final(self)@ == old(self)@,
            old(self).wf() ==> final(self).wf(),
    {
        let (index, gen) = n;
        if index < self.nodes.len() && self.nodes[index].0 == gen && self.nodes[index].1.is_some() {
            match &mut self.nodes[index].1 {
                Some(value) => Some(value),
                None => None,
            }
        } else {
            None
        }
    }

    /// The number of slots of the arena, empty ones included.
    pub fn slot_count(&self) -> (n: usize)
        ensures
            n == self@.slots.len(),
    {
        self.nodes.len()
    }

    /// The number of slots that wait for reuse.
    pub fn free_count(&self) -> (n: usize)
        ensures
            n == self@.free.len(),
    {
        self.free.len()
    }

    /// The number of edges.
    pub fn connection_count(&self) -> (n: usize)
        ensures
            n == self@.edges.len(),
    {
        self.connections.len()
    }

    /// The edge at position `index` of the edge list, if there is one.
    pub fn connection(&self, index: usize) -> (edge: Option<(NodeIndex, NodeIndex)>)
        ensures
            edge == (if index < self@.edges.len() {
                Some(self@.edges[index as int])
            } else {
                None
            }),
    {
        if index < self.connections.len() {
            Some(self.connections.at(index))
        } else {
            None
        }
    }
}

} // verus!
