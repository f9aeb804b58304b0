//! The graph as a mathematical value, and what each operation does to it.
//!
//! All contracts of [`crate::SmallGraph`] are stated over [`GraphModel`]: three
//! sequences and the functions below. Nothing here is executable.

use vstd::prelude::*;

use crate::cut::Cut;
use crate::{Generation, NodeHandle, NodeIndex};

verus! {

/// A slot of the arena: its generation and the value it holds, if any.
pub type Slot<T> = (Generation, Option<T>);

/// A directed edge: the slot it leaves and the slot it enters.
pub type Edge = (NodeIndex, NodeIndex);

/// The state of a graph.
pub struct GraphModel<T> {
    /// The arena. Slots are appended and overwritten, never taken out.
    pub slots: Seq<Slot<T>>,
    /// The handles of removed nodes whose slots wait for reuse, oldest first.
    pub free: Seq<NodeHandle>,
    /// The edges, in the order they were added.
    pub edges: Seq<Edge>,
}

/// The number of slots of `slots` that hold a value.
pub open spec fn occupied<T>(slots: Seq<Slot<T>>) -> nat
    decreases slots.len(),
{
    if slots.len() == 0 {
        0
    } else {
        occupied(slots.drop_last()) + if slots.last().1 is Some {
            1nat
        } else {
            0nat
        }
    }
}

/// The edges that leave slot `from` and enter one of the first `bound` slots.
pub open spec fn leaving(from: NodeIndex, bound: nat) -> spec_fn(Edge) -> bool {
    |e: Edge| e.0 == from && e.1 < bound
}

/// The edges that enter slot `to` and leave one of the first `bound` slots.
pub open spec fn entering(to: NodeIndex, bound: nat) -> spec_fn(Edge) -> bool {
    |e: Edge| e.1 == to && e.0 < bound
}

impl<T> GraphModel<T> {
    /// The graph with no slot, no free entry and no edge.
    pub open spec fn empty() -> Self {
        GraphModel { slots: Seq::empty(), free: Seq::empty(), edges: Seq::empty() }
    }

    /// The free list and the empty slots match: every entry of the free list
    /// names an empty slot, no two entries name the same slot, and every empty
    /// slot is named by an entry.
    pub open spec fn balanced(self) -> bool {
        &&& forall|k: int|
            0 <= k < self.free.len() ==> {
                &&& (#[trigger] self.free[k]).0 < self.slots.len()
                &&& self.slots[self.free[k].0 as int].1 is None
            }
        &&& forall|j: int, k: int|
            0 <= j < k < self.free.len() ==> (#[trigger] self.free[j]).0 != (
            #[trigger] self.free[k]).0
        &&& forall|i: int|
            0 <= i < self.slots.len() && (#[trigger] self.slots[i]).1 is None ==> self.awaits_reuse(
                i,
            )
    }

    /// The arena invariant: the free list and the empty slots match, every slot
    /// index fits a `usize`, and each entry of the free list carries the
    /// generation its slot had before the removal, one less than it has now.
    pub open spec fn wf(self) -> bool {
        &&& self.balanced()
        &&& self.slots.len() <= usize::MAX
        &&& forall|k: int|
            0 <= k < self.free.len() ==> self.slots[(#[trigger] self.free[k]).0 as int].0
                == self.free[k].1 + 1
    }

    /// Whether an entry of the free list names slot `i`.
    pub open spec fn awaits_reuse(self, i: int) -> bool {
        exists|k: int| 0 <= k < self.free.len() && (#[trigger] self.free[k]).0 == i
    }

    /// Whether `h` addresses a node: its slot exists, has the handle's
    /// generation and holds a value.
    pub open spec fn contains(self, h: NodeHandle) -> bool {
        &&& h.0 < self.slots.len()
        &&& self.slots[h.0 as int].0 == h.1
        &&& self.slots[h.0 as int].1 is Some
    }

    /// The value of the node that `h` addresses.
    pub open spec fn value(self, h: NodeHandle) -> T
        recommends
            self.contains(h),
    {
        self.slots[h.0 as int].1->Some_0
    }

    /// The value of the node that `h` addresses, if it addresses one.
    pub open spec fn get(self, h: NodeHandle) -> Option<T> {
        if self.contains(h) {
            Some(self.value(h))
        } else {
            None
        }
    }

    /// The number of nodes.
    pub open spec fn count(self) -> nat {
        occupied(self.slots)
    }

    /// The handle that the next insertion gives out: the oldest free slot with
    /// its generation advanced by one, or a new slot at generation 0.
    pub open spec fn next_handle(self) -> NodeHandle {
        if self.free.len() == 0 {
            (self.slots.len() as usize, 0usize)
        } else {
            (self.free[0].0, (self.free[0].1 + 1) as usize)
        }
    }

    /// The graph after `value` was inserted.
    pub open spec fn inserted(self, value: T) -> Self {
        let h = self.next_handle();
        if self.free.len() == 0 {
            GraphModel { slots: self.slots.push((h.1, Some(value))), ..self }
        } else {
            GraphModel {
                slots: self.slots.update(h.0 as int, (h.1, Some(value))),
                free: self.free.drop_first(),
                ..self
            }
        }
    }

    /// The graph after a removal through `h`. Where `h` addresses a node, its
    /// edges go, its slot is emptied at the next generation and `h` joins the
    /// free list; otherwise nothing changes.
    pub open spec fn removed(self, h: NodeHandle) -> Self {
        if self.contains(h) {
            GraphModel {
                slots: self.slots.update(h.0 as int, ((h.1 + 1) as usize, None)),
                free: self.free.push(h),
                edges: self.edges.filter(Cut::Node(h.0).kept()),
            }
        } else {
            self
        }
    }

    /// The graph with the value of the node at `h` replaced by `value`.
    pub open spec fn with_value(self, h: NodeHandle, value: T) -> Self
        recommends
            self.contains(h),
    {
        GraphModel { slots: self.slots.update(h.0 as int, (h.1, Some(value))), ..self }
    }

    /// The graph with one more edge, from `parent`'s slot to `child`'s.
    pub open spec fn connected_to(self, parent: NodeHandle, child: NodeHandle) -> Self {
        GraphModel { edges: self.edges.push((parent.0, child.0)), ..self }
    }

    /// The graph with two more edges: from `a` to `b`, then from `b` to `a`.
    pub open spec fn connected(self, a: NodeHandle, b: NodeHandle) -> Self {
        self.connected_to(a, b).connected_to(b, a)
    }

    /// The graph without the edges that `cut` removes.
    pub open spec fn severed(self, cut: Cut) -> Self {
        GraphModel { edges: self.edges.filter(cut.kept()), ..self }
    }

    /// Whether an edge leads from `source`'s slot to `destination`'s.
    pub open spec fn linked(self, source: NodeHandle, destination: NodeHandle) -> bool {
        self.edges.contains((source.0, destination.0))
    }

    /// The handle that slot `i` answers to now.
    pub open spec fn current(self, i: NodeIndex) -> NodeHandle
        recommends
            i < self.slots.len(),
    {
        (i, self.slots[i as int].0)
    }

    /// Maps an edge to the current handle of the slot it enters.
    pub open spec fn head(self) -> spec_fn(Edge) -> NodeHandle {
        |e: Edge| self.current(e.1)
    }

    /// Maps an edge to the current handle of the slot it leaves.
    pub open spec fn tail(self) -> spec_fn(Edge) -> NodeHandle {
        |e: Edge| self.current(e.0)
    }

    /// The slots that `node`'s slot has an edge to, one handle for each such
    /// edge, in edge order, each with the generation its slot has now. Edges
    /// into slots that were never allocated give no handle.
    pub open spec fn out_neighbors(self, node: NodeHandle) -> Seq<NodeHandle> {
        self.edges.filter(leaving(node.0, self.slots.len())).map_values(self.head())
    }

    /// The slots that have an edge to `node`'s slot, one handle for each such
    /// edge, in edge order, each with the generation its slot has now. Edges
    /// out of slots that were never allocated give no handle.
    pub open spec fn in_neighbors(self, node: NodeHandle) -> Seq<NodeHandle> {
        self.edges.filter(entering(node.0, self.slots.len())).map_values(self.tail())
    }
}

/// Appending a slot adds one to the count exactly when the slot holds a value.
pub proof fn lemma_occupied_push<T>(slots: Seq<Slot<T>>, slot: Slot<T>)
    ensures
        occupied(slots.push(slot)) == occupied(slots) + if slot.1 is Some {
            1nat
        } else {
            0nat
        },
{
    assert(slots.push(slot).drop_last() =~= slots);
}

/// Where every slot holds a value, the count is the number of slots.
pub proof fn lemma_occupied_full<T>(slots: Seq<Slot<T>>)
    requires
        forall|i: int| 0 <= i < slots.len() ==> (#[trigger] slots[i]).1 is Some,
    ensures
        occupied(slots) == slots.len(),
    decreases slots.len(),
{
    if slots.len() > 0 {
        assert forall|i: int| 0 <= i < slots.drop_last().len() implies (
        #[trigger] slots.drop_last()[i]).1 is Some by {
            assert(slots.drop_last()[i] == slots[i]);
        }
        lemma_occupied_full(slots.drop_last());
    }
}

/// Overwriting a slot changes the count by what the old and the new slot hold.
pub proof fn lemma_occupied_update<T>(slots: Seq<Slot<T>>, i: int, slot: Slot<T>)
    requires
        0 <= i < slots.len(),
    ensures
        occupied(slots.update(i, slot)) + (if slots[i].1 is Some {
            1nat
        } else {
            0nat
        }) == occupied(slots) + (if slot.1 is Some {
            1nat
        } else {
            0nat
        }),
    decreases slots.len(),
{
    let after = slots.update(i, slot);
    if i == slots.len() - 1 {
        assert(after.drop_last() =~= slots.drop_last());
    } else {
        lemma_occupied_update(slots.drop_last(), i, slot);
        assert(after.drop_last() =~= slots.drop_last().update(i, slot));
    }
}

/// Insertion keeps the free list and the empty slots matched.
pub proof fn lemma_inserted_balanced<T>(m: GraphModel<T>, value: T)
    requires
        m.balanced(),
    ensures
        m.inserted(value).balanced(),
{
    let after = m.inserted(value);
    if m.free.len() > 0 {
        let i = m.free[0].0 as int;
        assert forall|k: int| 0 <= k < after.free.len() implies {
            &&& (#[trigger] after.free[k]).0 < after.slots.len()
            &&& after.slots[after.free[k].0 as int].1 is None
        } by {
            assert(after.free[k] == m.free[k + 1]);
        }
        assert forall|j: int, k: int| 0 <= j < k < after.free.len() implies (
        #[trigger] after.free[j]).0 != (#[trigger] after.free[k]).0 by {
            assert(after.free[j] == m.free[j + 1]);
            assert(after.free[k] == m.free[k + 1]);
        }
        assert forall|s: int|
            0 <= s < after.slots.len() && (#[trigger] after.slots[s]).1 is None implies after.awaits_reuse(
            s,
        ) by {
            assert(s != i);
            assert(m.slots[s].1 is None);
            assert(m.awaits_reuse(s));
            let k = choose|k: int| 0 <= k < m.free.len() && (#[trigger] m.free[k]).0 == s;
            assert(k > 0);
            assert(after.free[k - 1] == m.free[k]);
        }
    } else {
        assert forall|s: int|
            0 <= s < after.slots.len() && (#[trigger] after.slots[s]).1 is None implies after.awaits_reuse(
            s,
        ) by {
            assert(m.slots[s].1 is None);
            assert(m.awaits_reuse(s));
        }
    }
}

/// Removal keeps the free list and the empty slots matched.
pub proof fn lemma_removed_balanced<T>(m: GraphModel<T>, h: NodeHandle)
    requires
        m.balanced(),
    ensures
        m.removed(h).balanced(),
{
    let after = m.removed(h);
    if m.contains(h) {
        assert forall|k: int| 0 <= k < after.free.len() implies {
            &&& (#[trigger] after.free[k]).0 < after.slots.len()
            &&& after.slots[after.free[k].0 as int].1 is None
        } by {
            if k < m.free.len() {
                assert(after.free[k] == m.free[k]);
            }
        }
        assert forall|j: int, k: int| 0 <= j < k < after.free.len() implies (
        #[trigger] after.free[j]).0 != (#[trigger] after.free[k]).0 by {
            assert(after.free[j] == m.free[j]);
            if k < m.free.len() {
                assert(after.free[k] == m.free[k]);
            }
        }
        assert forall|s: int|
            0 <= s < after.slots.len() && (#[trigger] after.slots[s]).1 is None implies after.awaits_reuse(
            s,
        ) by {
            if s == h.0 {
                assert(after.free[m.free.len() as int].0 == s);
            } else {
                assert(m.slots[s].1 is None);
                assert(m.awaits_reuse(s));
                let k = choose|k: int| 0 <= k < m.free.len() && (#[trigger] m.free[k]).0 == s;
                assert(after.free[k] == m.free[k]);
            }
        }
    }
}

/// Insertion keeps the arena invariant, as long as the arena can still grow
/// where it has to.
pub proof fn lemma_inserted_wf<T>(m: GraphModel<T>, value: T)
    requires
        m.wf(),
        m.free.len() == 0 ==> m.slots.len() < usize::MAX,
    ensures
        m.inserted(value).wf(),
{
    let after = m.inserted(value);
    lemma_inserted_balanced(m, value);
    if m.free.len() > 0 {
        assert forall|k: int| 0 <= k < after.free.len() implies after.slots[(
        #[trigger] after.free[k]).0 as int].0 == after.free[k].1 + 1 by {
            assert(after.free[k] == m.free[k + 1]);
        }
    }
}

/// Removal keeps the arena invariant, as long as the generation of the removed
/// node can still advance.
pub proof fn lemma_removed_wf<T>(m: GraphModel<T>, h: NodeHandle)
    requires
        m.wf(),
        m.contains(h) ==> h.1 < usize::MAX,
    ensures
        m.removed(h).wf(),
{
    let after = m.removed(h);
    lemma_removed_balanced(m, h);
    if m.contains(h) {
        assert forall|k: int| 0 <= k < after.free.len() implies after.slots[(
        #[trigger] after.free[k]).0 as int].0 == after.free[k].1 + 1 by {
            if k < m.free.len() {
                assert(after.free[k] == m.free[k]);
            }
        }
    }
}

/// Selecting from one more element of a sequence: where `keep` holds of the
/// element, its image under `f` is appended; otherwise nothing changes.
pub proof fn lemma_select_step<A, B>(s: Seq<A>, i: int, keep: spec_fn(A) -> bool, f: spec_fn(A) -> B)
    requires
        0 <= i < s.len(),
    ensures
        s.take(i + 1).filter(keep).map_values(f) == if keep(s[i]) {
            s.take(i).filter(keep).map_values(f).push(f(s[i]))
        } else {
            s.take(i).filter(keep).map_values(f)
        },
{
    let before = s.take(i);
    assert(s.take(i + 1) =~= before.push(s[i]));
    before.lemma_filter_push(s[i], keep);
    if keep(s[i]) {
        assert(before.filter(keep).push(s[i]).map_values(f) =~= before.filter(keep).map_values(
            f,
        ).push(f(s[i])));
    }
}

/// What a selection holds: `y` is among the images of the kept elements
/// exactly when it is the image of an element of `s` that `keep` holds of.
pub proof fn lemma_selected<A, B>(s: Seq<A>, keep: spec_fn(A) -> bool, f: spec_fn(A) -> B, y: B)
    ensures
        s.filter(keep).map_values(f).contains(y) <==> exists|x: A|
            #[trigger] s.contains(x) && keep(x) && f(x) == y,
{
    let kept = s.filter(keep);
    let images = kept.map_values(f);
    if images.contains(y) {
        let j = choose|j: int| 0 <= j < images.len() && images[j] == y;
        s.lemma_filter_pred(keep, j);
        assert(kept.contains(kept[j]));
        s.lemma_filter_contains_rev(keep, kept[j]);
        assert(s.contains(kept[j]) && keep(kept[j]) && f(kept[j]) == y);
    }
    if exists|x: A| #[trigger] s.contains(x) && keep(x) && f(x) == y {
        let x = choose|x: A| #[trigger] s.contains(x) && keep(x) && f(x) == y;
        let i = choose|i: int| 0 <= i < s.len() && s[i] == x;
        s.lemma_filter_contains(keep, i);
        let j = choose|j: int| 0 <= j < kept.len() && kept[j] == x;
        assert(images[j] == y);
    }
}

} // verus!
