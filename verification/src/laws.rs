//! What holds of every graph, proved over the model.
//!
//! The operations of [`crate::SmallGraph`] are specified as functions of
//! [`GraphModel`], so each statement here is a statement about every sequence
//! of calls that those functions describe.

use vstd::prelude::*;

use crate::cut::Cut;
use crate::model::{
    entering, leaving, lemma_inserted_balanced, lemma_occupied_full, lemma_occupied_push,
    lemma_occupied_update, lemma_removed_balanced, lemma_selected, GraphModel,
};
use crate::NodeHandle;

verus! {

/// One call that changes a graph.
pub enum Step<T> {
    /// `insert` of a value.
    Insert(T),
    /// `remove` through a handle.
    Remove(NodeHandle),
    /// `connect_to` from the first handle to the second.
    ConnectTo(NodeHandle, NodeHandle),
    /// `connect` of two handles.
    Connect(NodeHandle, NodeHandle),
    /// One of the disconnect operations.
    Sever(Cut),
    /// A write through `get_mut`, which reaches a value only through a handle
    /// that addresses a node.
    Assign(NodeHandle, T),
}

impl<T> GraphModel<T> {
    /// The graph after the values were inserted one after the other.
    pub open spec fn inserted_all(self, values: Seq<T>) -> Self
        decreases values.len(),
    {
        if values.len() == 0 {
            self
        } else {
            self.inserted_all(values.drop_last()).inserted(values.last())
        }
    }

    /// The graph after one step.
    pub open spec fn step(self, step: Step<T>) -> Self {
        match step {
            Step::Insert(value) => self.inserted(value),
            Step::Remove(h) => self.removed(h),
            Step::ConnectTo(parent, child) => self.connected_to(parent, child),
            Step::Connect(a, b) => self.connected(a, b),
            Step::Sever(cut) => self.severed(cut),
            Step::Assign(h, value) => if self.contains(h) {
                self.with_value(h, value)
            } else {
                self
            },
        }
    }

    /// The graph after the steps were taken one after the other.
    pub open spec fn run(self, steps: Seq<Step<T>>) -> Self
        decreases steps.len(),
    {
        if steps.len() == 0 {
            self
        } else {
            self.run(steps.drop_last()).step(steps.last())
        }
    }

    /// How many of the steps, taken from this graph, are removals through a
    /// handle that addresses a node at that moment.
    pub open spec fn removals(self, steps: Seq<Step<T>>) -> nat
        decreases steps.len(),
    {
        if steps.len() == 0 {
            0
        } else {
            self.removals(steps.drop_last()) + match steps.last() {
                Step::Remove(h) => if self.run(steps.drop_last()).contains(h) {
                    1nat
                } else {
                    0nat
                },
                _ => 0nat,
            }
        }
    }
}

/// How many of the steps are insertions.
pub open spec fn insertions<T>(steps: Seq<Step<T>>) -> nat
    decreases steps.len(),
{
    if steps.len() == 0 {
        0
    } else {
        insertions(steps.drop_last()) + match steps.last() {
            Step::Insert(_) => 1nat,
            _ => 0nat,
        }
    }
}

/// Insertions into an empty graph, with nothing removed in between, fill the
/// slots in order: the insertion that follows `k` others gets slot `k` at
/// generation 0.
pub proof fn law_fresh_handles_count_up<T>(values: Seq<T>)
    ensures
        GraphModel::<T>::empty().inserted_all(values).slots.len() == values.len(),
        GraphModel::<T>::empty().inserted_all(values).free.len() == 0,
        GraphModel::<T>::empty().inserted_all(values).next_handle().1 == 0,
        values.len() <= usize::MAX ==> GraphModel::<T>::empty().inserted_all(
            values,
        ).next_handle().0 == values.len(),
    decreases values.len(),
{
    if values.len() > 0 {
        law_fresh_handles_count_up(values.drop_last());
    }
}

/// Insert, remove, insert again, with no other slot waiting for reuse: the
/// second handle has the slot of the first and the next generation; the first
/// handle addresses nothing any more, the second addresses the new value.
pub proof fn law_reuse_advances_generation<T>(m: GraphModel<T>, first: T, second: T)
    requires
        m.wf(),
        m.free.len() == 0,
    ensures
        ({
            let h1 = m.next_handle();
            let reused = m.inserted(first).removed(h1);
            let h2 = reused.next_handle();
            let after = reused.inserted(second);
            &&& m.inserted(first).get(h1) == Some(first)
            &&& h2.0 == h1.0
            &&& h2.1 == h1.1 + 1
            &&& after.get(h1) is None
            &&& after.get(h2) == Some(second)
        }),
{
    let h1 = m.next_handle();
    let filled = m.inserted(first);
    assert(filled.contains(h1));
    let reused = filled.removed(h1);
    assert(reused.free[0] == h1);
}

/// After a removal through `h`, `h` addresses nothing. Where the removal took
/// a node out, no edge is left that starts or ends at its slot.
pub proof fn law_removed_node_is_gone<T>(m: GraphModel<T>, h: NodeHandle, a: NodeHandle, b: NodeHandle)
    ensures
        m.removed(h).get(h) is None,
        m.contains(h) && (a.0 == h.0 || b.0 == h.0) ==> !m.removed(h).linked(a, b),
{
    if m.contains(h) && (a.0 == h.0 || b.0 == h.0) {
        let kept = Cut::Node(h.0).kept();
        let left = m.edges.filter(kept);
        if left.contains((a.0, b.0)) {
            let i = choose|i: int| 0 <= i < left.len() && left[i] == (a.0, b.0);
            m.edges.lemma_filter_pred(kept, i);
        }
    }
}

/// After `connect_to(a, b)`, where `b` names a slot of the arena, the
/// neighbours of `a` include that slot under the generation it has now,
/// whatever generation `b` itself carries; and the nodes with `b` as a
/// neighbour include the slot of `a` in the same way.
pub proof fn law_connected_node_is_neighbor<T>(m: GraphModel<T>, a: NodeHandle, b: NodeHandle)
    ensures
        b.0 < m.slots.len() ==> m.connected_to(a, b).out_neighbors(a).contains(m.current(b.0)),
        a.0 < m.slots.len() ==> m.connected_to(a, b).in_neighbors(b).contains(m.current(a.0)),
{
    let after = m.connected_to(a, b);
    let edge = (a.0, b.0);
    if b.0 < m.slots.len() {
        let keep = leaving(a.0, m.slots.len());
        m.edges.lemma_filter_push(edge, keep);
        let found = after.out_neighbors(a);
        assert(found[found.len() - 1] == m.current(b.0));
    }
    if a.0 < m.slots.len() {
        let keep = entering(b.0, m.slots.len());
        m.edges.lemma_filter_push(edge, keep);
        let found = after.in_neighbors(b);
        assert(found[found.len() - 1] == m.current(a.0));
    }
}

/// The neighbours of a node are the slots of the arena that an edge from the
/// node's slot leads to, each under its current handle; the nodes with it as a
/// neighbour are those that an edge to its slot comes from.
pub proof fn law_neighbors_follow_edges<T>(m: GraphModel<T>, node: NodeHandle, h: NodeHandle)
    ensures
        m.out_neighbors(node).contains(h) <==> h.0 < m.slots.len() && h == m.current(h.0)
            && m.linked(node, h),
        m.in_neighbors(node).contains(h) <==> h.0 < m.slots.len() && h == m.current(h.0)
            && m.linked(h, node),
{
    lemma_selected(m.edges, leaving(node.0, m.slots.len()), m.head(), h);
    lemma_selected(m.edges, entering(node.0, m.slots.len()), m.tail(), h);
    if h.0 < m.slots.len() && h == m.current(h.0) {
        if m.linked(node, h) {
            assert((leaving(node.0, m.slots.len()))((node.0, h.0)));
            assert((m.head())((node.0, h.0)) == h);
        }
        if m.linked(h, node) {
            assert((entering(node.0, m.slots.len()))((h.0, node.0)));
            assert((m.tail())((h.0, node.0)) == h);
        }
    }
}

/// An insertion adds one node; a removal takes one away exactly when its
/// handle addresses a node; no other step changes the number of nodes.
pub proof fn law_step_changes_count<T>(m: GraphModel<T>, step: Step<T>)
    requires
        m.balanced(),
    ensures
        m.step(step).balanced(),
        m.step(step).count() as int == match step {
            Step::Insert(_) => m.count() as int + 1,
            Step::Remove(h) => if m.contains(h) {
                m.count() as int - 1
            } else {
                m.count() as int
            },
            _ => m.count() as int,
        },
{
    match step {
        Step::Insert(value) => {
            lemma_inserted_balanced(m, value);
            let h = m.next_handle();
            if m.free.len() == 0 {
                lemma_occupied_push(m.slots, (h.1, Some(value)));
            } else {
                assert(m.free[0].0 == h.0);
                lemma_occupied_update(m.slots, h.0 as int, (h.1, Some(value)));
            }
        },
        Step::Remove(h) => {
            lemma_removed_balanced(m, h);
            if m.contains(h) {
                lemma_occupied_update(m.slots, h.0 as int, ((h.1 + 1) as usize, None));
            }
        },
        Step::Assign(h, value) => {
            if m.contains(h) {
                let after = m.with_value(h, value);
                lemma_occupied_update(m.slots, h.0 as int, (h.1, Some(value)));
                assert forall|i: int|
                    0 <= i < after.slots.len() && (
                    #[trigger] after.slots[i]).1 is None implies after.awaits_reuse(i) by {
                    assert(i != h.0);
                    assert(m.slots[i].1 is None);
                    assert(m.awaits_reuse(i));
                    let k = choose|k: int| 0 <= k < m.free.len() && (#[trigger] m.free[k]).0 == i;
                    assert(after.free[k].0 == i);
                }
            }
        },
        _ => {},
    }
}

/// The number of nodes of a graph that started empty is the number of
/// insertions less the number of removals that took a node out, whatever
/// else was done and however often slots were reused.
pub proof fn law_count_is_insertions_less_removals<T>(steps: Seq<Step<T>>)
    ensures
        GraphModel::<T>::empty().run(steps).balanced(),
        GraphModel::<T>::empty().run(steps).count() == insertions(steps)
            - GraphModel::<T>::empty().removals(steps),
    decreases steps.len(),
{
    if steps.len() > 0 {
        law_count_is_insertions_less_removals(steps.drop_last());
        law_step_changes_count(GraphModel::<T>::empty().run(steps.drop_last()), steps.last());
    }
}

/// Where the free list and the empty slots match, the nodes are the slots
/// that the free list does not name: their number is the number of slots less
/// the length of the free list.
pub proof fn law_count_is_slots_less_free<T>(m: GraphModel<T>)
    requires
        m.balanced(),
    ensures
        m.count() + m.free.len() == m.slots.len(),
    decreases m.free.len(),
{
    if m.free.len() == 0 {
        assert forall|i: int| 0 <= i < m.slots.len() implies (#[trigger] m.slots[i]).1 is Some by {
            if m.slots[i].1 is None {
                assert(m.awaits_reuse(i));
            }
        }
        lemma_occupied_full(m.slots);
    } else {
        let k = m.free.len() - 1;
        let i = m.free[k].0 as int;
        let filled = GraphModel {
            slots: m.slots.update(i, (0usize, Some(arbitrary::<T>()))),
            free: m.free.drop_last(),
            ..m
        };
        assert forall|j: int| 0 <= j < filled.free.len() implies {
            &&& (#[trigger] filled.free[j]).0 < filled.slots.len()
            &&& filled.slots[filled.free[j].0 as int].1 is None
        } by {
            assert(filled.free[j] == m.free[j]);
        }
        assert forall|j: int, l: int| 0 <= j < l < filled.free.len() implies (
        #[trigger] filled.free[j]).0 != (#[trigger] filled.free[l]).0 by {
            assert(filled.free[j] == m.free[j]);
            assert(filled.free[l] == m.free[l]);
        }
        assert forall|s: int|
            0 <= s < filled.slots.len() && (
            #[trigger] filled.slots[s]).1 is None implies filled.awaits_reuse(s) by {
            assert(m.slots[s].1 is None);
            assert(m.awaits_reuse(s));
            let j = choose|j: int| 0 <= j < m.free.len() && (#[trigger] m.free[j]).0 == s;
            assert(filled.free[j] == m.free[j]);
        }
        law_count_is_slots_less_free(filled);
        lemma_occupied_update(m.slots, i, (0usize, Some(arbitrary::<T>())));
    }
}

/// A second removal through the same handle finds nothing and changes nothing.
pub proof fn law_second_removal_changes_nothing<T>(m: GraphModel<T>, h: NodeHandle)
    ensures
        m.removed(h).get(h) is None,
        m.removed(h).removed(h) == m.removed(h),
{
}

/// The handle that an insertion gives out addresses nothing before the
/// insertion, and differs from every handle on the free list: a reused slot
/// never answers to the handle it was removed under.
pub proof fn law_next_handle_is_new<T>(m: GraphModel<T>, k: int)
    requires
        m.wf(),
    ensures
        !m.contains(m.next_handle()),
        0 <= k < m.free.len() ==> m.free[k] != m.next_handle(),
{
    if 0 < k < m.free.len() {
        assert(m.free[0].0 != m.free[k].0);
    }
}

/// Generations only grow: a slot keeps its place, and no insertion or removal
/// lowers its generation. A removal that takes a node out raises the
/// generation of its slot by exactly one.
pub proof fn law_generations_never_decrease<T>(m: GraphModel<T>, value: T, h: NodeHandle, i: int)
    requires
        m.wf(),
        0 <= i < m.slots.len(),
        m.contains(h) ==> h.1 < usize::MAX,
    ensures
        i < m.inserted(value).slots.len(),
        m.inserted(value).slots[i].0 >= m.slots[i].0,
        i < m.removed(h).slots.len(),
        m.removed(h).slots[i].0 >= m.slots[i].0,
        m.contains(h) ==> m.removed(h).slots[h.0 as int].0 == m.slots[h.0 as int].0 + 1,
{
}

} // verus!
