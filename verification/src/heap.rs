//! A tracing garbage-collected heap with generation-checked handles.
//!
//! Each slot carries a generation; a handle names a slot and the generation
//! it was allocated under, so a handle whose slot has been collected (and
//! perhaps reused) no longer resolves.
use vstd::prelude::*;
use std::collections::VecDeque;

verus! {

#[derive(Debug, Copy, Clone, PartialEq, Eq, Hash, Structural)]
pub struct HeapHandle {
    index: u32,
    generation: u32,
}

impl HeapHandle {
    /// The slot the handle names.
    pub closed spec fn slot(self) -> u32 {
        self.index
    }

    /// The generation of the slot when the handle was made.
    pub closed spec fn issued(self) -> u32 {
        self.generation
    }

    pub fn index(self) -> (r: u32)
        ensures
            r == self.slot(),
    {
        self.index
    }

    pub fn generation(self) -> (r: u32)
        ensures
            r == self.issued(),
    {
        self.generation
    }
}

#[derive(Debug, Copy, Clone, PartialEq, Eq, Structural)]
pub struct CollectionReport {
    pub marked: usize,
    pub collected: usize,
    pub live_after: usize,
}

/// One slot of the heap as a value: its generation and what it holds.
pub struct SlotState<T> {
    pub generation: u32,
    pub value: Option<T>,
}

/// The heap as a value: its slots, and the free slots in the order they will
/// be reused (last first).
pub struct HeapModel<T> {
    pub slots: Seq<SlotState<T>>,
    pub free: Seq<usize>,
}

/// What `h` resolves to in `slots`: the value of its slot, if the slot still
/// carries the handle's generation.
pub open spec fn resolve<T>(slots: Seq<SlotState<T>>, h: HeapHandle) -> Option<T> {
    if h.slot() < slots.len() && slots[h.slot() as int].generation == h.issued() {
        slots[h.slot() as int].value
    } else {
        None
    }
}

/// The number of occupied slots.
pub open spec fn occupied_count<T>(slots: Seq<SlotState<T>>) -> nat
    decreases slots.len(),
{
    if slots.len() == 0 {
        0
    } else {
        occupied_count(slots.drop_last()) + if slots.last().value is Some {
            1nat
        } else {
            0nat
        }
    }
}

/// The generation after `g`, wrapping around at 2^32.
pub open spec fn next_generation(g: u32) -> u32 {
    if g == u32::MAX {
        0
    } else {
        (g + 1) as u32
    }
}

/// `after` and `h` are what allocating `value` in `before` gives: the slot
/// freed last is reused under its generation, or else a new slot of
/// generation 0 is added.
pub open spec fn allocated<T>(before: HeapModel<T>, after: HeapModel<T>, h: HeapHandle, value: T) -> bool {
    if before.free.len() > 0 {
        let i = before.free.last();
        &&& h.slot() == i
        &&& h.issued() == before.slots[i as int].generation
        &&& after.free == before.free.drop_last()
        &&& after.slots == before.slots.update(
            i as int,
            SlotState { generation: h.issued(), value: Some(value) },
        )
    } else {
        &&& h.slot() == before.slots.len()
        &&& h.issued() == 0
        &&& after.free == before.free
        &&& after.slots == before.slots.push(SlotState { generation: 0, value: Some(value) })
    }
}

/// Every slot index of `m` fits a handle, and its free list names distinct,
/// empty slots of `m`, every empty slot among them.
pub open spec fn model_ok<T>(m: HeapModel<T>) -> bool {
    &&& m.slots.len() <= u32::MAX as nat + 1
    &&& m.slots.len() <= usize::MAX
    &&& forall|k: int| 0 <= k < m.free.len() ==> {
        let i = #[trigger] m.free[k];
        &&& i < m.slots.len()
        &&& m.slots[i as int].value is None
    }
    &&& forall|a: int, b: int| 0 <= a < b < m.free.len() ==> m.free[a] != m.free[b]
    &&& forall|i: int| 0 <= i < m.slots.len() && (#[trigger] m.slots[i]).value is None ==> m.free.contains(i as usize)
}

#[derive(Debug, Clone)]
struct Slot<T> {
    generation: u32,
    value: Option<T>,
}

#[derive(Debug, Clone)]
pub struct GcHeap<T> {
    slots: Vec<Slot<T>>,
    free_list: Vec<usize>,
    live_len: usize,
}

impl<T> View for GcHeap<T> {
    type V = HeapModel<T>;

    open spec fn view(&self) -> HeapModel<T> {
        self.model()
    }
}

proof fn lemma_occupied_update<T>(s: Seq<SlotState<T>>, i: int, x: SlotState<T>)
    requires
        0 <= i < s.len(),
    ensures
        occupied_count(s.update(i, x)) + (if s[i].value is Some { 1int } else { 0int })
            == occupied_count(s) + (if x.value is Some { 1int } else { 0int }),
    decreases s.len(),
{
    if i < s.len() - 1 {
        lemma_occupied_update(s.drop_last(), i, x);
        assert(s.update(i, x).drop_last() =~= s.drop_last().update(i, x));
    } else {
        assert(s.update(i, x).drop_last() =~= s.drop_last());
    }
}

proof fn lemma_occupied_bound<T>(s: Seq<SlotState<T>>)
    ensures
        occupied_count(s) <= s.len(),
    decreases s.len(),
{
    if s.len() > 0 {
        lemma_occupied_bound(s.drop_last());
    }
}

proof fn lemma_occupied_push<T>(s: Seq<SlotState<T>>, x: SlotState<T>)
    ensures
        occupied_count(s.push(x)) == occupied_count(s) + if x.value is Some {
            1nat
        } else {
            0nat
        },
{
    assert(s.push(x).drop_last() =~= s);
}

impl<T> GcHeap<T> {
    pub closed spec fn model(&self) -> HeapModel<T> {
        HeapModel {
            slots: self.slots@.map_values(|s: Slot<T>| SlotState { generation: s.generation, value: s.value }),
            free: self.free_list@,
        }
    }

    /// The heap's own bookkeeping holds: free slots are distinct, in range and
    /// empty, the live count is the number of occupied slots, and every slot
    /// index fits a handle.
    pub closed spec fn wf(&self) -> bool {
        &&& model_ok(self.model())
        &&& self.live_len == occupied_count(self.model().slots)
    }

    /// A well-formed heap's model keeps the bookkeeping of `model_ok`.
    pub proof fn lemma_wf_model(&self)
        requires
            self.wf(),
        ensures
            model_ok(self@),
    {
    }

    pub fn new() -> (heap: Self)
        ensures
            heap.wf(),
            heap@.slots.len() == 0,
            heap@.free.len() == 0,
    {
        let heap = GcHeap { slots: Vec::new(), free_list: Vec::new(), live_len: 0 };
        assert(heap.model().slots =~= Seq::<SlotState<T>>::empty());
        heap
    }

    /// Stores `value` in a free slot, the one freed last, or else in a new slot
    /// of generation 0, and returns the handle that names it.
    pub fn allocate(&mut self, value: T) -> (h: HeapHandle)
        requires
            old(self).wf(),
            old(self)@.free.len() > 0 || (old(self)@.slots.len() <= u32::MAX && old(self)@.slots.len() < usize::MAX),
        ensures
            final(self).wf(),
            allocated(old(self)@, final(self)@, h, value),
    {
        let ghost before = self.model();
        let index = match self.free_list.pop() {
            Some(i) => i,
            None => self.slots.len(),
        };
        proof {
            lemma_occupied_bound(before.slots);
        }
        if index == self.slots.len() {
            self.slots.push(Slot { generation: 0, value: Some(value) });
            proof {
                lemma_occupied_push(before.slots, SlotState { generation: 0, value: Some(value) });
                assert(self.model().slots =~= before.slots.push(
                    SlotState { generation: 0, value: Some(value) },
                ));
            }
        } else {
            assert(before.free[before.free.len() - 1] == index);
            let generation = self.slots[index].generation;
            self.slots.set(index, Slot { generation, value: Some(value) });
            proof {
                lemma_occupied_update(
                    before.slots,
                    index as int,
                    SlotState { generation, value: Some(value) },
                );
                assert(self.model().slots =~= before.slots.update(
                    index as int,
                    SlotState { generation, value: Some(value) },
                ));
            }
        }
        proof {
            lemma_occupied_bound(self.model().slots);
        }
        self.live_len = self.live_len + 1;
        proof {
            assert forall|k: int| 0 <= k < self.free_list@.len() implies {
                let i = #[trigger] self.free_list@[k];
                &&& i < self.slots@.len()
                &&& self.slots@[i as int].value is None
            } by {
                assert(self.free_list@[k] == before.free[k]);
                if self.free_list@[k] == index {
                    assert(before.free[k] != before.free[before.free.len() - 1]);
                }
            }
            assert forall|j: int| 0 <= j < self.model().slots.len() && (#[trigger] self.model().slots[j]).value is None
                implies self.model().free.contains(j as usize) by {
                assert(j != index);
                assert(self.model().slots[j] == before.slots[j]);
                let k = choose|k: int| 0 <= k < before.free.len() && before.free[k] == j as usize;
                assert(k != before.free.len() - 1);
                assert(self.model().free[k] == j as usize);
            }
        }
        HeapHandle { index: index as u32, generation: self.slots[index].generation }
    }

    /// The value `h` names, if its slot still holds the handle's generation.
    pub fn get(&self, h: HeapHandle) -> (r: Option<&T>)
        ensures
            match r {
                Some(v) => resolve(self@.slots, h) == Some(*v),
                None => resolve(self@.slots, h) is None,
            },
    {
        let index = h.index as usize;
        if index >= self.slots.len() {
            return None;
        }
        let slot = &self.slots[index];
        if slot.generation == h.generation {
            slot.value.as_ref()
        } else {
            None
        }
    }

    /// Mutable access to the value `h` names; nothing else of the heap changes.
    pub fn get_mut(&mut self, h: HeapHandle) -> (r: Option<&mut T>)
        requires
            old(self).wf(),
        ensures
            final(self).wf(),
            match r {
                Some(v) => {
                    &&& resolve(old(self)@.slots, h) == Some(*v)
                    &&& final(self)@.free == old(self)@.free
                    &&& final(self)@.slots == old(self)@.slots.update(
                        h.slot() as int,
                        SlotState { generation: h.issued(), value: Some(*final(v)) },
                    )
                },
                None => {
                    &&& resolve(old(self)@.slots, h) is None
                    &&& final(self)@ == old(self)@
                },
            },
    {
        let index = h.index as usize;
        if index >= self.slots.len() {
            return None;
        }
        if self.slots[index].generation != h.generation || self.slots[index].value.is_none() {
            return None;
        }
        let ghost before = self.model();
        proof {
            assert forall|s2: Seq<SlotState<T>>|
                s2.len() == before.slots.len() && s2[index as int].value is Some && (forall|j: int|
                    0 <= j < s2.len() && j != index ==> s2[j] == before.slots[j]) implies #[trigger] occupied_count(s2)
                == occupied_count(before.slots) by {
                assert(s2 =~= before.slots.update(index as int, s2[index as int]));
                lemma_occupied_update(before.slots, index as int, s2[index as int]);
            }
            assert forall|k: int| 0 <= k < before.free.len() implies #[trigger] before.free[k] != index by {
            }
            assert forall|s2: Seq<SlotState<T>>, j: int|
                s2.len() == before.slots.len() && s2[index as int].value is Some && (forall|j2: int|
                    0 <= j2 < s2.len() && j2 != index ==> s2[j2] == before.slots[j2]) && 0 <= j < s2.len()
                    && (#[trigger] s2[j]).value is None implies before.free.contains(j as usize) by {
                assert(s2[j] == before.slots[j]);
            }
        }
        let slot = &mut self.slots[index];
        slot.value.as_mut()
    }

    pub fn contains(&self, h: HeapHandle) -> (b: bool)
        ensures
            b == resolve(self@.slots, h) is Some,
    {
        self.get(h).is_some()
    }

    /// The number of live (occupied) slots.
    pub fn live_len(&self) -> (n: usize)
        requires
            self.wf(),
        ensures
            n == occupied_count(self@.slots),
    {
        self.live_len
    }

    /// The number of slots, live or free.
    pub fn capacity(&self) -> (n: usize)
        ensures
            n == self@.slots.len(),
    {
        self.slots.len()
    }
}

/// The number of `true` entries.
pub open spec fn count_true(s: Seq<bool>) -> nat
    decreases s.len(),
{
    if s.len() == 0 {
        0
    } else {
        count_true(s.drop_last()) + if s.last() {
            1nat
        } else {
            0nat
        }
    }
}

proof fn lemma_count_true_bound(s: Seq<bool>)
    ensures
        count_true(s) <= s.len(),
    decreases s.len(),
{
    if s.len() > 0 {
        lemma_count_true_bound(s.drop_last());
    }
}

proof fn lemma_count_true_set(s: Seq<bool>, i: int)
    requires
        0 <= i < s.len(),
        !s[i],
    ensures
        count_true(s.update(i, true)) == count_true(s) + 1,
    decreases s.len(),
{
    if i < s.len() - 1 {
        lemma_count_true_set(s.drop_last(), i);
        assert(s.update(i, true).drop_last() =~= s.drop_last().update(i, true));
    } else {
        assert(s.update(i, true).drop_last() =~= s.drop_last());
    }
}

#[derive(Debug, Copy, Clone)]
struct SlotMarker {
    generation: u32,
    occupied: bool,
}

/// Marks objects reachable during a collection. Each object is marked at
/// most once; marked objects wait in a queue until their own edges are traced.
pub struct Tracer<'heap> {
    marks: Vec<bool>,
    pending: VecDeque<usize>,
    slots: &'heap [SlotMarker],
}

impl<'heap> Tracer<'heap> {
    /// Which slots are marked.
    pub closed spec fn marked(&self) -> Seq<bool> {
        self.marks@
    }

    /// The marked slots whose edges are still to be traced, in order.
    pub closed spec fn queue(&self) -> Seq<usize> {
        self.pending@
    }

    /// Whether `h` names a live slot as the collection saw it when it began.
    pub closed spec fn accepts(&self, h: HeapHandle) -> bool {
        &&& (h.slot() as int) < self.slots@.len()
        &&& self.slots@[h.slot() as int].generation == h.issued()
        &&& self.slots@[h.slot() as int].occupied
    }

    /// Only live slots are marked, and every queued slot is marked.
    pub closed spec fn wf(&self) -> bool {
        &&& self.marks@.len() == self.slots@.len()
        &&& forall|i: int| 0 <= i < self.marks@.len() && #[trigger] self.marks@[i] ==> self.slots@[i].occupied
        &&& forall|k: int| 0 <= k < self.pending@.len() ==> {
            let i = #[trigger] self.pending@[k];
            &&& i < self.marks@.len()
            &&& self.marks@[i as int]
        }
    }

    /// `self` is `before` after some marking: the same slots, no mark taken
    /// back, and each newly marked slot queued once.
    pub closed spec fn follows(&self, before: &Tracer<'heap>) -> bool {
        &&& self.slots == before.slots
        &&& self.marks@.len() == before.marks@.len()
        &&& forall|i: int| 0 <= i < before.marks@.len() && #[trigger] before.marks@[i] ==> self.marks@[i]
        &&& count_true(self.marks@) + before.pending@.len() == count_true(before.marks@)
            + self.pending@.len()
    }

    /// `self` is `before` after marking each of `hs`: a slot is marked exactly
    /// when it was or one of `hs` names it live; what was queued stays queued,
    /// and each newly marked slot is queued.
    pub open spec fn marked_all(&self, before: &Tracer<'heap>, hs: Seq<HeapHandle>) -> bool {
        &&& forall|i: int|
            0 <= i < self.marked().len() ==> (#[trigger] self.marked()[i] == (before.marked()[i] || exists|k: int|
                0 <= k < hs.len() && before.accepts(hs[k]) && hs[k].slot() == i))
        &&& forall|q: int| 0 <= q < before.queue().len() ==> self.queue().contains(#[trigger] before.queue()[q])
        &&& forall|i: int|
            0 <= i < self.marked().len() && #[trigger] self.marked()[i] && !before.marked()[i] ==> self.queue().contains(
                i as usize,
            )
    }

    /// Marks the slot `h` names, unless it is stale, empty or marked already;
    /// a newly marked slot is queued for tracing.
    pub fn mark(&mut self, h: HeapHandle)
        requires
            old(self).wf(),
        ensures
            final(self).wf(),
            final(self).follows(old(self)),
            if old(self).accepts(h) && !old(self).marked()[h.slot() as int] {
                &&& final(self).marked() == old(self).marked().update(h.slot() as int, true)
                &&& final(self).queue() == old(self).queue().push(h.slot() as usize)
            } else {
                &&& final(self).marked() == old(self).marked()
                &&& final(self).queue() == old(self).queue()
            },
    {
        let index = h.index as usize;
        if index >= self.slots.len() {
            return;
        }
        let slot = self.slots[index];
        if slot.generation != h.generation || !slot.occupied || self.marks[index] {
            return;
        }
        proof {
            lemma_count_true_set(self.marks@, index as int);
        }
        self.marks.set(index, true);
        self.pending.push_back(index);
    }
}

/// A value stored in the heap that can name other heap values. Its `trace`
/// marks, through the tracer, the handles the value holds; the tracer's own
/// methods are the only way to change it.
pub trait Trace {
    /// Whether the impl states, through `edges`, the handles that tracing
    /// marks (false unless the impl says so).
    open spec fn traces_edges() -> bool {
        false
    }

    /// The handles the value holds, which tracing it marks when the impl
    /// `traces_edges`.
    open spec fn edges(&self) -> Seq<HeapHandle> {
        Seq::empty()
    }

    fn trace(&self, tracer: &mut Tracer<'_>)
        requires
            old(tracer).wf(),
        ensures
            final(tracer).wf(),
            final(tracer).follows(old(tracer)),
            Self::traces_edges() ==> final(tracer).marked_all(old(tracer), self.edges()),
    ;
}

impl Trace for () {
    open spec fn traces_edges() -> bool {
        true
    }

    open spec fn edges(&self) -> Seq<HeapHandle> {
        Seq::empty()
    }

    fn trace(&self, tracer: &mut Tracer<'_>) {
        assert forall|q: int| 0 <= q < tracer.queue().len() implies tracer.queue().contains(
            #[trigger] tracer.queue()[q],
        ) by {}
    }
}

/// The handles held by the value in slot `i`, if there is one.
pub open spec fn edges_of<T: Trace>(slots: Seq<SlotState<T>>, i: int) -> Seq<HeapHandle> {
    match slots[i].value {
        Some(v) => v.edges(),
        None => Seq::empty(),
    }
}

/// The set `s` of slots holds every slot that a live root names.
pub open spec fn holds_roots<T>(slots: Seq<SlotState<T>>, roots: Seq<HeapHandle>, s: spec_fn(int) -> bool) -> bool {
    forall|j: int| 0 <= j < roots.len() && #[trigger] resolve(slots, roots[j]) is Some ==> s(roots[j].slot() as int)
}

/// The set `s` of slots holds every live slot that a value in it holds a handle to.
pub open spec fn closed_under<T: Trace>(slots: Seq<SlotState<T>>, s: spec_fn(int) -> bool) -> bool {
    forall|i: int, k: int|
        0 <= i < slots.len() && s(i) && 0 <= k < edges_of(slots, i).len() && #[trigger] resolve(
            slots,
            edges_of(slots, i)[k],
        ) is Some ==> s(edges_of(slots, i)[k].slot() as int)
}

/// Tracing the value of the slot at the head of the queue keeps the marks
/// within every closed set that holds the roots, and leaves that slot processed.
proof fn lemma_traced_step<'a, T: Trace>(
    sl: Seq<SlotState<T>>,
    roots: Seq<HeapHandle>,
    prior: Tracer<'a>,
    popped: Tracer<'a>,
    after: Tracer<'a>,
    index: int,
)
    requires
        sl.len() == prior.marks@.len(),
        sl.len() <= usize::MAX,
        0 <= index < prior.marks@.len(),
        prior.marks@[index],
        prior.pending@.len() > 0,
        prior.pending@[0] == index as usize,
        popped.pending@ == prior.pending@.drop_first(),
        popped.marks@ == prior.marks@,
        after.marks@.len() == popped.marks@.len(),
        after.marked_all(&popped, edges_of(sl, index)),
        forall|h: HeapHandle| #[trigger] popped.accepts(h) <==> resolve(sl, h) is Some,
        within_closed_sets(sl, roots, prior.marks@),
        processed_closed(sl, prior.marks@, prior.pending@),
    ensures
        within_closed_sets(sl, roots, after.marks@),
        processed_closed(sl, after.marks@, after.pending@),
{
    let es = edges_of(sl, index);
    assert forall|sf: spec_fn(int) -> bool|
        #![trigger closed_under(sl, sf)]
        holds_roots(sl, roots, sf) && closed_under(sl, sf) implies forall|i: int|
            0 <= i < after.marks@.len() && #[trigger] after.marks@[i] ==> sf(i) by {
        assert(sf(index));
        assert forall|i: int| 0 <= i < after.marks@.len() && #[trigger] after.marks@[i] implies sf(i) by {
            assert(after.marked()[i]);
            if !popped.marks@[i] {
                let kk = choose|kk: int| 0 <= kk < es.len() && popped.accepts(es[kk]) && es[kk].slot() == i;
                assert(resolve(sl, edges_of(sl, index)[kk]) is Some);
            }
        }
    }
    assert forall|i: int, kk: int|
        0 <= i < after.marks@.len() && after.marks@[i] && !after.pending@.contains(i as usize) && 0 <= kk < edges_of(
            sl,
            i,
        ).len() && #[trigger] resolve(sl, edges_of(sl, i)[kk]) is Some implies after.marks@[edges_of(sl, i)[kk].slot() as int] by {
        let e = edges_of(sl, i)[kk];
        assert(popped.accepts(e));
        assert(after.marked()[i]);
        if i == index {
            assert(after.marked()[e.slot() as int]);
        } else {
            if !popped.marks@[i] {
                assert(after.queue().contains(i as usize));
            }
            if prior.pending@.contains(i as usize) {
                let w = choose|w: int| 0 <= w < prior.pending@.len() && prior.pending@[w] == i as usize;
                assert(w > 0);
                assert(popped.queue()[w - 1] == i as usize);
                assert(after.queue().contains(popped.queue()[w - 1]));
            }
            assert(prior.marks@[e.slot() as int]);
            assert(after.marked()[e.slot() as int]);
        }
    }
}

/// Every marked slot lies in each set of slots that holds the live roots and
/// is closed under the values' handles.
pub open spec fn within_closed_sets<T: Trace>(slots: Seq<SlotState<T>>, roots: Seq<HeapHandle>, marks: Seq<bool>) -> bool {
    forall|s: spec_fn(int) -> bool|
        #![trigger closed_under(slots, s)]
        holds_roots(slots, roots, s) && closed_under(slots, s) ==> forall|i: int|
            0 <= i < marks.len() && #[trigger] marks[i] ==> s(i)
}

/// Each marked slot no longer queued has had the handles of its value marked.
spec fn processed_closed<T: Trace>(slots: Seq<SlotState<T>>, marks: Seq<bool>, queue: Seq<usize>) -> bool {
    forall|i: int, k: int|
        0 <= i < marks.len() && marks[i] && !queue.contains(i as usize) && 0 <= k < edges_of(slots, i).len()
            && #[trigger] resolve(slots, edges_of(slots, i)[k]) is Some ==> marks[edges_of(slots, i)[k].slot() as int]
}

/// `marks` are the slots reachable from the live roots through the values'
/// handles: they hold the live roots, are closed under the handles of their
/// values, and lie within every set of slots that does both.
pub open spec fn traced_marks<T: Trace>(slots: Seq<SlotState<T>>, roots: Seq<HeapHandle>, marks: Seq<bool>) -> bool {
    &&& holds_roots(slots, roots, |i: int| marks[i])
    &&& closed_under(slots, |i: int| marks[i])
    &&& forall|s: spec_fn(int) -> bool|
        #![trigger closed_under(slots, s)]
        holds_roots(slots, roots, s) && closed_under(slots, s) ==> forall|i: int|
            0 <= i < marks.len() && #[trigger] marks[i] ==> s(i)
}

/// A slot after the sweep: live and unmarked means freed, with its generation advanced.
pub open spec fn swept<T>(s: SlotState<T>, marked: bool) -> SlotState<T> {
    if s.value is Some && !marked {
        SlotState { generation: next_generation(s.generation), value: None }
    } else {
        s
    }
}

pub open spec fn sweep_slots<T>(slots: Seq<SlotState<T>>, marks: Seq<bool>) -> Seq<SlotState<T>> {
    Seq::new(slots.len(), |i: int| swept(slots[i], marks[i]))
}

/// The slots among the first `n` that the sweep frees, in increasing order.
pub open spec fn freed_indices<T>(slots: Seq<SlotState<T>>, marks: Seq<bool>, n: int) -> Seq<usize>
    decreases n,
{
    if n <= 0 {
        Seq::empty()
    } else {
        freed_indices(slots, marks, n - 1) + if slots[n - 1].value is Some && !marks[n - 1] {
            seq![(n - 1) as usize]
        } else {
            Seq::empty()
        }
    }
}

/// `after` and `report` are what a collection of `before` with the roots
/// `roots` gives when tracing ended with the marks `marks`: only live slots
/// are marked, every live root is marked, unmarked live slots are freed and
/// queued for reuse in index order, and the report counts both.
pub open spec fn collected_with<T>(
    before: HeapModel<T>,
    after: HeapModel<T>,
    marks: Seq<bool>,
    roots: Seq<HeapHandle>,
    report: CollectionReport,
) -> bool {
    &&& marks.len() == before.slots.len()
    &&& forall|i: int| 0 <= i < marks.len() && #[trigger] marks[i] ==> before.slots[i].value is Some
    &&& forall|k: int|
        0 <= k < roots.len() && #[trigger] resolve(before.slots, roots[k]) is Some ==> marks[roots[k].slot() as int]
    &&& after.slots == sweep_slots(before.slots, marks)
    &&& after.free == before.free + freed_indices(before.slots, marks, before.slots.len() as int)
    &&& report.marked == count_true(marks)
    &&& report.collected == freed_indices(before.slots, marks, before.slots.len() as int).len()
    &&& report.live_after == occupied_count(after.slots)
}

/// The roots handed to a collection: any list of handles.
pub trait Roots {
    /// The handles, in order.
    spec fn handles(&self) -> Seq<HeapHandle>;

    fn into_handles(self) -> (v: Vec<HeapHandle>)
        ensures
            v@ == self.handles(),
    ;
}

impl Roots for Vec<HeapHandle> {
    open spec fn handles(&self) -> Seq<HeapHandle> {
        self@
    }

    fn into_handles(self) -> (v: Vec<HeapHandle>) {
        self
    }
}

impl<const N: usize> Roots for [HeapHandle; N] {
    open spec fn handles(&self) -> Seq<HeapHandle> {
        self@
    }

    fn into_handles(self) -> (v: Vec<HeapHandle>) {
        let mut v: Vec<HeapHandle> = Vec::new();
        let mut i: usize = 0;
        while i < N
            invariant
                i <= N,
                self@.len() == N,
                v@ == self@.take(i as int),
            decreases N - i,
        {
            v.push(self[i]);
            i += 1;
            assert(v@ =~= self@.take(i as int));
        }
        assert(self@.take(N as int) =~= self@);
        v
    }
}

impl<'a> Roots for &'a [HeapHandle] {
    open spec fn handles(&self) -> Seq<HeapHandle> {
        (*self)@
    }

    fn into_handles(self) -> (v: Vec<HeapHandle>) {
        let mut v: Vec<HeapHandle> = Vec::new();
        let mut i: usize = 0;
        while i < self.len()
            invariant
                i <= self@.len(),
                v@ == self@.take(i as int),
            decreases self@.len() - i,
        {
            v.push(self[i]);
            i += 1;
            assert(v@ =~= self@.take(i as int));
        }
        assert(self@.take(self@.len() as int) =~= self@);
        v
    }
}

proof fn lemma_count_true_mono(a: Seq<bool>, b: Seq<bool>)
    requires
        a.len() == b.len(),
        forall|i: int| 0 <= i < a.len() && #[trigger] a[i] ==> b[i],
    ensures
        count_true(a) <= count_true(b),
    decreases a.len(),
{
    if a.len() > 0 {
        lemma_count_true_mono(a.drop_last(), b.drop_last());
    }
}

impl<T: Trace> GcHeap<T> {
    /// Collects garbage: marks every live root and, through `Trace`, what the
    /// marked values reach; then frees every live slot left unmarked,
    /// advancing its generation so that its old handles stop resolving.
    pub fn collect<R: Roots>(&mut self, roots: R) -> (report: CollectionReport)
        requires
            old(self).wf(),
        ensures
            final(self).wf(),
            exists|marks: Seq<bool>|
                #[trigger] collected_with(old(self)@, final(self)@, marks, roots.handles(), report) && (T::traces_edges()
                    ==> traced_marks(old(self)@.slots, roots.handles(), marks)),
    {
        let roots = roots.into_handles();
        self.collect_from(roots.as_slice())
    }

    /// [`GcHeap::collect`] with the roots given as a slice.
    #[verifier::loop_isolation(false)]
    #[verifier::rlimit(100)]
    #[verifier::spinoff_prover]
    pub fn collect_from(&mut self, roots: &[HeapHandle]) -> (report: CollectionReport)
        requires
            old(self).wf(),
        ensures
            final(self).wf(),
            exists|marks: Seq<bool>|
                #[trigger] collected_with(old(self)@, final(self)@, marks, roots@, report) && (T::traces_edges() ==> traced_marks(
                    old(self)@.slots,
                    roots@,
                    marks,
                )),
    {
        let ghost before = self.model();
        let n = self.slots.len();
        let mut markers: Vec<SlotMarker> = Vec::new();
        let mut marks: Vec<bool> = Vec::new();
        let mut i: usize = 0;
        while i < n
            invariant
                i <= n,
                n == self.slots@.len(),
                markers@.len() == i,
                marks@.len() == i,
                self.model() == before,
                forall|j: int| 0 <= j < i ==> (#[trigger] markers@[j]).generation == before.slots[j].generation,
                forall|j: int| 0 <= j < i ==> (#[trigger] markers@[j]).occupied == before.slots[j].value is Some,
                forall|j: int| 0 <= j < i ==> !#[trigger] marks@[j],
            decreases n - i,
        {
            assert(before.slots[i as int].generation == self.slots@[i as int].generation);
            assert(before.slots[i as int].value == self.slots@[i as int].value);
            markers.push(SlotMarker {
                generation: self.slots[i].generation,
                occupied: self.slots[i].value.is_some(),
            });
            marks.push(false);
            i += 1;
        }
        let mut tracer = Tracer { marks, pending: VecDeque::new(), slots: markers.as_slice() };
        let ghost slots0 = tracer.slots;
        assert(slots0@ == markers@);

        let mut k: usize = 0;
        while k < roots.len()
            invariant
                k <= roots.len(),
                tracer.wf(),
                tracer.slots == slots0,
                slots0@.len() == n,
                n == self.slots@.len(),
                self.model() == before,
                forall|j: int| 0 <= j < n ==> (#[trigger] slots0@[j]).generation == before.slots[j].generation,
                forall|j: int| 0 <= j < n ==> (#[trigger] slots0@[j]).occupied == before.slots[j].value is Some,
                forall|j: int|
                    0 <= j < k && #[trigger] resolve(before.slots, roots@[j]) is Some
                        ==> tracer.marks@[roots@[j].slot() as int],
                within_closed_sets(before.slots, roots@, tracer.marks@),
                forall|i: int| 0 <= i < tracer.marks@.len() && #[trigger] tracer.marks@[i] ==> tracer.pending@.contains(i as usize),
            decreases roots.len() - k,
        {
            let ghost prior = tracer;
            tracer.mark(roots[k]);
            proof {
                let h = roots@[k as int];
                if resolve(before.slots, h) is Some {
                    assert(prior.accepts(h));
                }
                if prior.accepts(h) {
                    assert(resolve(before.slots, h) is Some);
                }
                assert forall|sf: spec_fn(int) -> bool|
                    #![trigger closed_under(before.slots, sf)]
                    holds_roots(before.slots, roots@, sf) && closed_under(before.slots, sf) implies forall|i: int|
                        0 <= i < tracer.marks@.len() && #[trigger] tracer.marks@[i] ==> sf(i) by {
                    assert forall|i: int| 0 <= i < tracer.marks@.len() && #[trigger] tracer.marks@[i] implies sf(i) by {
                        if !prior.marks@[i] {
                            assert(resolve(before.slots, roots@[k as int]) is Some);
                        }
                    }
                }
                assert forall|i: int| 0 <= i < tracer.marks@.len() && #[trigger] tracer.marks@[i] implies tracer.pending@.contains(
                    i as usize,
                ) by {
                    if prior.marks@[i] {
                        let w = choose|w: int| 0 <= w < prior.pending@.len() && prior.pending@[w] == i as usize;
                        assert(tracer.pending@[w] == i as usize);
                    } else {
                        assert(tracer.pending@[tracer.pending@.len() - 1] == i as usize);
                    }
                }
            }
            k += 1;
        }

        loop
            invariant
                tracer.wf(),
                tracer.slots == slots0,
                slots0@.len() == n,
                n == self.slots@.len(),
                self.model() == before,
                forall|j: int| 0 <= j < n ==> (#[trigger] slots0@[j]).generation == before.slots[j].generation,
                forall|j: int| 0 <= j < n ==> (#[trigger] slots0@[j]).occupied == before.slots[j].value is Some,
                forall|j: int|
                    0 <= j < roots@.len() && #[trigger] resolve(before.slots, roots@[j]) is Some
                        ==> tracer.marks@[roots@[j].slot() as int],
                T::traces_edges() ==> within_closed_sets(before.slots, roots@, tracer.marks@),
                T::traces_edges() ==> processed_closed(before.slots, tracer.marks@, tracer.pending@),
            decreases tracer.marks@.len() - count_true(tracer.marks@), tracer.pending@.len(),
        {
            proof {
                lemma_count_true_bound(tracer.marks@);
            }
            let ghost prior = tracer;
            match tracer.pending.pop_front() {
                None => break,
                Some(index) => {
                    assert(prior.pending@[0] == index);
                    assert forall|q: int| 0 <= q < tracer.pending@.len() implies {
                        let i = #[trigger] tracer.pending@[q];
                        &&& i < tracer.marks@.len()
                        &&& tracer.marks@[i as int]
                    } by {
                        assert(tracer.pending@[q] == prior.pending@[q + 1]);
                    }
                    let ghost popped = tracer;
                    assert(prior.marks@[index as int]);
                    assert forall|h: HeapHandle| #[trigger] popped.accepts(h) <==> resolve(before.slots, h) is Some by {}
                    assert(popped.pending@ =~= prior.pending@.drop_first());
                    match self.slots[index].value.as_ref() {
                        Some(value) => {
                            assert(edges_of(before.slots, index as int) == value.edges());
                            value.trace(&mut tracer);
                            proof {
                                lemma_count_true_bound(tracer.marks@);
                                lemma_count_true_bound(popped.marks@);
                                lemma_count_true_mono(popped.marks@, tracer.marks@);
                                if T::traces_edges() {
                                    lemma_traced_step(before.slots, roots@, prior, popped, tracer, index as int);
                                }
                            }
                        },
                        None => {
                            proof {
                                assert(edges_of(before.slots, index as int) =~= Seq::<HeapHandle>::empty());
                                assert forall|q: int| 0 <= q < popped.queue().len() implies tracer.queue().contains(
                                    #[trigger] popped.queue()[q],
                                ) by {}
                                if T::traces_edges() {
                                    lemma_traced_step(before.slots, roots@, prior, popped, tracer, index as int);
                                }
                            }
                        },
                    }
                },
            }
        }

        let mut marked: usize = 0;
        let mut i: usize = 0;
        while i < n
            invariant
                i <= n,
                n == tracer.marks@.len(),
                marked == count_true(tracer.marks@.take(i as int)),
            decreases n - i,
        {
            proof {
                lemma_count_true_bound(tracer.marks@.take(i as int));
                assert(tracer.marks@.take(i + 1).drop_last() =~= tracer.marks@.take(i as int));
            }
            if tracer.marks[i] {
                marked += 1;
            }
            i += 1;
        }
        assert(tracer.marks@.take(n as int) =~= tracer.marks@);

        let ghost marks = tracer.marks@;
        proof {
            if T::traces_edges() {
            assert(traced_marks(before.slots, roots@, marks)) by {
                assert(tracer.pending@.len() == 0);
                assert forall|j: int| 0 <= j < roots@.len() && #[trigger] resolve(before.slots, roots@[j]) is Some implies (|i: int|
                    marks[i])(roots@[j].slot() as int) by {}
                assert forall|i: int, kk: int|
                    0 <= i < before.slots.len() && (|i: int| marks[i])(i) && 0 <= kk < edges_of(before.slots, i).len()
                        && #[trigger] resolve(before.slots, edges_of(before.slots, i)[kk]) is Some implies (|i: int| marks[i])(
                    edges_of(before.slots, i)[kk].slot() as int,
                ) by {
                    assert(!tracer.pending@.contains(i as usize));
                }
            }
            }
        }
        let mut collected: usize = 0;
        let mut i: usize = 0;
        while i < n
            invariant
                i <= n,
                n == self.slots@.len(),
                marks.len() == n,
                marks == tracer.marks@,
                before.slots.len() == n,
                self.model().slots == sweep_slots(before.slots, marks).take(i as int) + before.slots.skip(
                    i as int,
                ),
                self.model().free == before.free + freed_indices(before.slots, marks, i as int),
                collected == freed_indices(before.slots, marks, i as int).len(),
                collected <= i,
                self.live_len == occupied_count(before.slots),
            decreases n - i,
        {
            let ghost cur = self.model();
            assert(cur.slots[i as int] == before.slots[i as int]);
            assert(freed_indices(before.slots, marks, i + 1) == freed_indices(before.slots, marks, i as int)
                + if before.slots[i as int].value is Some && !marks[i as int] {
                seq![i]
            } else {
                Seq::<usize>::empty()
            });
            if self.slots[i].value.is_some() && !tracer.marks[i] {
                let g = self.slots[i].generation;
                let next = if g == u32::MAX { 0 } else { g + 1 };
                self.slots.set(i, Slot { generation: next, value: None });
                self.free_list.push(i);
                collected += 1;
            }
            proof {
                let sw = sweep_slots(before.slots, marks);
                assert forall|j: int| 0 <= j < n implies #[trigger] self.model().slots[j] == (sw.take(i + 1)
                    + before.slots.skip(i + 1))[j] by {
                    if j < i {
                        assert(cur.slots[j] == (sw.take(i as int) + before.slots.skip(i as int))[j]);
                    } else if j > i {
                        assert(cur.slots[j] == (sw.take(i as int) + before.slots.skip(i as int))[j]);
                    } else {
                        assert(sw[j] == swept(before.slots[j], marks[j]));
                    }
                }
                assert(self.model().slots =~= sweep_slots(before.slots, marks).take(i + 1) + before.slots.skip(
                    i + 1,
                ));
                assert(self.model().free =~= before.free + freed_indices(before.slots, marks, i + 1));
            }
            i += 1;
        }
        assert(self.model().slots =~= sweep_slots(before.slots, marks));
        let ghost freed = freed_indices(before.slots, marks, n as int);
        proof {
            lemma_sweep_count(before.slots, marks, n as int);
            lemma_freed_indices(before.slots, marks, n as int);
            assert(before.slots.take(n as int) =~= before.slots);
            assert(sweep_slots(before.slots, marks).take(n as int) =~= sweep_slots(before.slots, marks));
        }
        self.live_len = self.live_len - collected;
        proof {
            let after = self.model();
            assert forall|k: int| 0 <= k < after.free.len() implies {
                let i = #[trigger] after.free[k];
                &&& i < after.slots.len()
                &&& after.slots[i as int].value is None
            } by {
                if k < before.free.len() {
                    assert(after.free[k] == before.free[k]);
                } else {
                    assert(after.free[k] == freed[k - before.free.len()]);
                }
            }
            assert forall|a: int, b: int| 0 <= a < b < after.free.len() implies after.free[a]
                != after.free[b] by {
                if b < before.free.len() {
                } else if a >= before.free.len() {
                    assert(after.free[a] == freed[a - before.free.len()]);
                    assert(after.free[b] == freed[b - before.free.len()]);
                } else {
                    assert(after.free[a] == before.free[a]);
                    assert(after.free[b] == freed[b - before.free.len()]);
                }
            }
            assert forall|j: int| 0 <= j < after.slots.len() && (#[trigger] after.slots[j]).value is None implies after.free.contains(
                j as usize,
            ) by {
                assert(after.slots[j] == swept(before.slots[j], marks[j]));
                if before.slots[j].value is None {
                    let k = choose|k: int| 0 <= k < before.free.len() && before.free[k] == j as usize;
                    assert(after.free[k] == j as usize);
                } else {
                    let k = choose|k: int| 0 <= k < freed.len() && freed[k] == j as usize;
                    assert(after.free[before.free.len() + k] == j as usize);
                }
            }
            assert(marks.len() == before.slots.len());
            assert(forall|i: int| 0 <= i < marks.len() && #[trigger] marks[i] ==> before.slots[i].value is Some);
            assert(forall|k: int|
                0 <= k < roots@.len() && #[trigger] resolve(before.slots, roots@[k]) is Some ==> marks[roots@[k].slot() as int]);
            assert(after.slots == sweep_slots(before.slots, marks));
            assert(after.free == before.free + freed_indices(before.slots, marks, before.slots.len() as int));
            assert(marked == count_true(marks));
            assert(collected == freed_indices(before.slots, marks, before.slots.len() as int).len());
            assert(self.live_len == occupied_count(after.slots));
            assert(collected_with(before, after, marks, roots@, CollectionReport {
                marked,
                collected,
                live_after: self.live_len,
            }));
        }
        let report = CollectionReport { marked, collected, live_after: self.live_len };
        assert(before == old(self)@);
        assert(collected_with(old(self)@, self@, marks, roots@, report));
        assert(T::traces_edges() ==> traced_marks(old(self)@.slots, roots@, marks));
        report
    }
}

/// Sweeping the first `n` slots frees as many live slots as it lists.
proof fn lemma_sweep_count<T>(slots: Seq<SlotState<T>>, marks: Seq<bool>, n: int)
    requires
        0 <= n <= slots.len(),
        marks.len() == slots.len(),
    ensures
        occupied_count(sweep_slots(slots, marks).take(n)) + freed_indices(slots, marks, n).len()
            == occupied_count(slots.take(n)),
    decreases n,
{
    if n > 0 {
        lemma_sweep_count(slots, marks, n - 1);
        assert(sweep_slots(slots, marks).take(n).drop_last() =~= sweep_slots(slots, marks).take(n - 1));
        assert(slots.take(n).drop_last() =~= slots.take(n - 1));
    }
}

/// The freed slots are in range, were live and unmarked, and are listed once each.
proof fn lemma_freed_indices<T>(slots: Seq<SlotState<T>>, marks: Seq<bool>, n: int)
    requires
        0 <= n <= slots.len(),
        slots.len() <= usize::MAX,
    ensures
        forall|i: int| 0 <= i < n && (#[trigger] slots[i]).value is Some && !marks[i] ==> freed_indices(
            slots,
            marks,
            n,
        ).contains(i as usize),
        forall|k: int| 0 <= k < freed_indices(slots, marks, n).len() ==> {
            let i = #[trigger] freed_indices(slots, marks, n)[k];
            &&& i < n
            &&& slots[i as int].value is Some
            &&& !marks[i as int]
        },
        forall|a: int, b: int|
            0 <= a < b < freed_indices(slots, marks, n).len() ==> freed_indices(slots, marks, n)[a]
                < freed_indices(slots, marks, n)[b],
    decreases n,
{
    if n > 0 {
        lemma_freed_indices(slots, marks, n - 1);
        let prev = freed_indices(slots, marks, n - 1);
        let cur = freed_indices(slots, marks, n);
        assert forall|i: int| 0 <= i < n && (#[trigger] slots[i]).value is Some && !marks[i] implies cur.contains(
            i as usize,
        ) by {
            if i < n - 1 {
                let k = choose|k: int| 0 <= k < prev.len() && prev[k] == i as usize;
                assert(cur[k] == prev[k]);
            } else {
                assert(cur[prev.len() as int] == i as usize);
            }
        }
    }
}

impl<T> Default for GcHeap<T> {
    fn default() -> (heap: Self)
        ensures
            heap.wf(),
            heap@.slots.len() == 0,
            heap@.free.len() == 0,
    {
        Self::new()
    }
}

/// A handle that `allocate` returns resolves to the value stored, and every
/// handle that resolved before still resolves to the same value.
pub proof fn law_allocate_then_resolve<T>(
    before: HeapModel<T>,
    after: HeapModel<T>,
    h: HeapHandle,
    value: T,
    other: HeapHandle,
)
    requires
        allocated(before, after, h, value),
        model_ok(before),
    ensures
        resolve(after.slots, h) == Some(value),
        resolve(before.slots, other) is Some ==> resolve(after.slots, other) == resolve(before.slots, other),
{
    if before.free.len() > 0 {
        assert(before.free[before.free.len() - 1] == before.free.last());
    }
}

/// `allocate` adds a slot only when no slot is empty: while one is, the
/// number of slots stays the same and the new value goes into an empty slot.
pub proof fn law_allocate_fills_empty_slots_first<T>(
    before: HeapModel<T>,
    after: HeapModel<T>,
    h: HeapHandle,
    value: T,
    empty: int,
)
    requires
        allocated(before, after, h, value),
        model_ok(before),
        0 <= empty < before.slots.len(),
        before.slots[empty].value is None,
    ensures
        after.slots.len() == before.slots.len(),
        before.slots[h.slot() as int].value is None,
{
    assert(before.free.contains(empty as usize));
    assert(before.free[before.free.len() - 1] == before.free.last());
}

proof fn lemma_occupied_full<T>(s: Seq<SlotState<T>>)
    ensures
        (forall|i: int| 0 <= i < s.len() ==> (#[trigger] s[i]).value is Some) ==> occupied_count(s) == s.len(),
        (exists|i: int| 0 <= i < s.len() && (#[trigger] s[i]).value is None) ==> occupied_count(s) < s.len(),
    decreases s.len(),
{
    if s.len() > 0 {
        lemma_occupied_full(s.drop_last());
        lemma_occupied_bound(s.drop_last());
        assert forall|i: int| 0 <= i < s.len() - 1 implies #[trigger] s.drop_last()[i] == s[i] by {}
        if exists|i: int| 0 <= i < s.len() && (#[trigger] s[i]).value is None {
            let i = choose|i: int| 0 <= i < s.len() && (#[trigger] s[i]).value is None;
            if i < s.len() - 1 {
                assert(s.drop_last()[i].value is None);
            }
        }
    }
}

/// `allocate` hands out a handle that resolved to nothing before, leaves
/// every live handle as it was, and makes the heap one slot larger exactly
/// when every slot was live: the slot count becomes the larger of the old
/// count and the new live count.
pub proof fn law_allocate_fresh_and_tight<T>(
    before: HeapModel<T>,
    after: HeapModel<T>,
    h: HeapHandle,
    value: T,
    other: HeapHandle,
)
    requires
        allocated(before, after, h, value),
        model_ok(before),
    ensures
        resolve(before.slots, h) is None,
        resolve(before.slots, other) is Some ==> resolve(after.slots, other) == resolve(before.slots, other),
        resolve(before.slots, other) is None && other != h ==> resolve(after.slots, other) is None,
        occupied_count(after.slots) == occupied_count(before.slots) + 1,
        after.slots.len() == if before.slots.len() >= occupied_count(before.slots) + 1 {
            before.slots.len()
        } else {
            occupied_count(before.slots) + 1
        },
{
    lemma_occupied_full(before.slots);
    if before.free.len() > 0 {
        let i = before.free.last();
        assert(before.free[before.free.len() - 1] == i);
        assert(before.slots[i as int].value is None);
        lemma_occupied_update(before.slots, i as int, after.slots[i as int]);
        if resolve(before.slots, other) is None && other != h && other.slot() == i {
            assert(other.issued() != h.issued()) by {
                if other.issued() == h.issued() {
                    assert(other.index == h.index && other.generation == h.generation);
                }
            }
        }
    } else {
        assert forall|i: int| 0 <= i < before.slots.len() implies (#[trigger] before.slots[i]).value is Some by {
            if before.slots[i].value is None {
                assert(before.free.contains(i as usize));
            }
        }
        lemma_occupied_push(before.slots, SlotState { generation: 0, value: Some(value) });
        assert(after.slots[before.slots.len() as int].value is Some);
    }
}

/// A handle is retired in `m` when its slot has since moved on to another
/// generation: it resolves to nothing.
pub open spec fn retired<T>(m: HeapModel<T>, h: HeapHandle) -> bool {
    h.slot() < m.slots.len() && m.slots[h.slot() as int].generation != h.issued()
}

/// A retired handle resolves to nothing; `allocate` keeps it retired; a
/// collection retires every live handle whose slot it frees, and keeps a
/// retired handle retired unless its slot's generation wraps around to the
/// handle's own (after 2^32 reuses).
pub proof fn law_retired_stays_stale<T>(
    before: HeapModel<T>,
    after: HeapModel<T>,
    h: HeapHandle,
    value: T,
    stale: HeapHandle,
    marks: Seq<bool>,
    roots: Seq<HeapHandle>,
    report: CollectionReport,
)
    requires
        model_ok(before),
        allocated(before, after, h, value) || collected_with(before, after, marks, roots, report),
    ensures
        retired(before, stale) ==> resolve(before.slots, stale) is None,
        allocated(before, after, h, value) && retired(before, stale) ==> retired(after, stale),
        collected_with(before, after, marks, roots, report) && resolve(before.slots, stale) is Some
            && !marks[stale.slot() as int] ==> retired(after, stale),
        collected_with(before, after, marks, roots, report) && retired(before, stale) && next_generation(
            before.slots[stale.slot() as int].generation,
        ) != stale.issued() ==> retired(after, stale),
{
    if allocated(before, after, h, value) && before.free.len() > 0 {
        assert(before.free[before.free.len() - 1] == before.free.last());
    }
    if collected_with(before, after, marks, roots, report) && stale.slot() < before.slots.len() {
        let i = stale.slot() as int;
        assert(after.slots[i] == swept(before.slots[i], marks[i]));
    }
}

/// Changing the value that a live handle names, as `get_mut` does, keeps
/// every retired handle retired.
pub proof fn law_update_keeps_retired<T>(
    before: HeapModel<T>,
    after: HeapModel<T>,
    h: HeapHandle,
    value: T,
    stale: HeapHandle,
)
    requires
        resolve(before.slots, h) is Some,
        after.slots == before.slots.update(h.slot() as int, SlotState { generation: h.issued(), value: Some(value) }),
        retired(before, stale),
    ensures
        retired(after, stale),
{
}

/// A collection keeps every live root: it resolves afterwards to the same value.
pub proof fn law_collect_keeps_roots<T>(
    before: HeapModel<T>,
    after: HeapModel<T>,
    marks: Seq<bool>,
    roots: Seq<HeapHandle>,
    report: CollectionReport,
    k: int,
)
    requires
        collected_with(before, after, marks, roots, report),
        0 <= k < roots.len(),
        resolve(before.slots, roots[k]) is Some,
    ensures
        resolve(after.slots, roots[k]) == resolve(before.slots, roots[k]),
{
}

/// A collection creates nothing: whatever resolves afterwards resolved before
/// to the same value, and every handle to a slot it freed stops resolving.
pub proof fn law_collect_only_frees<T>(
    before: HeapModel<T>,
    after: HeapModel<T>,
    marks: Seq<bool>,
    roots: Seq<HeapHandle>,
    report: CollectionReport,
    h: HeapHandle,
)
    requires
        collected_with(before, after, marks, roots, report),
    ensures
        resolve(after.slots, h) is Some ==> resolve(after.slots, h) == resolve(before.slots, h),
        resolve(before.slots, h) is Some && !marks[h.slot() as int] ==> resolve(after.slots, h) is None,
        resolve(before.slots, h) is Some && marks[h.slot() as int] ==> resolve(after.slots, h) == resolve(
            before.slots,
            h,
        ),
{
}

/// A collection keeps only what the live roots reach: a live slot left out
/// of some set of slots that holds the live roots and is closed under the
/// values' handles is freed.
pub proof fn law_collect_frees_what_no_closed_set_needs<T: Trace>(
    before: HeapModel<T>,
    after: HeapModel<T>,
    marks: Seq<bool>,
    roots: Seq<HeapHandle>,
    report: CollectionReport,
    h: HeapHandle,
    keep: spec_fn(int) -> bool,
)
    requires
        collected_with(before, after, marks, roots, report),
        traced_marks(before.slots, roots, marks),
        holds_roots(before.slots, roots, keep),
        closed_under(before.slots, keep),
        resolve(before.slots, h) is Some,
        !keep(h.slot() as int),
    ensures
        resolve(after.slots, h) is None,
{
    assert(!marks[h.slot() as int]);
}

/// The value in slot `i` holds a handle that names the live slot `j`.
pub open spec fn points_to<T: Trace>(slots: Seq<SlotState<T>>, i: int, j: int) -> bool {
    exists|k: int|
        0 <= k < edges_of(slots, i).len() && #[trigger] resolve(slots, edges_of(slots, i)[k]) is Some
            && edges_of(slots, i)[k].slot() == j
}

/// A live root names the slot `i`.
pub open spec fn root_slot<T>(slots: Seq<SlotState<T>>, roots: Seq<HeapHandle>, i: int) -> bool {
    exists|j: int| 0 <= j < roots.len() && #[trigger] resolve(slots, roots[j]) is Some && roots[j].slot() == i
}

/// `path` starts at a slot that a live root names, and the value in each of
/// its slots holds a handle to the next.
pub open spec fn root_path<T: Trace>(slots: Seq<SlotState<T>>, roots: Seq<HeapHandle>, path: Seq<int>) -> bool {
    &&& path.len() >= 1
    &&& root_slot(slots, roots, path[0])
    &&& forall|n: int| 0 <= n < path.len() - 1 ==> #[trigger] points_to(slots, path[n], path[n + 1])
}

/// Slot `i` is reached from the live roots by a chain of handles.
pub open spec fn reached<T: Trace>(slots: Seq<SlotState<T>>, roots: Seq<HeapHandle>, i: int) -> bool {
    exists|path: Seq<int>| #[trigger] root_path(slots, roots, path) && path.last() == i
}

proof fn lemma_path_marked<T: Trace>(slots: Seq<SlotState<T>>, roots: Seq<HeapHandle>, marks: Seq<bool>, path: Seq<int>, n: int)
    requires
        traced_marks(slots, roots, marks),
        marks.len() == slots.len(),
        root_path(slots, roots, path),
        0 <= n < path.len(),
    ensures
        0 <= path[n] < marks.len() && marks[path[n]],
    decreases n,
{
    let s = |i: int| marks[i];
    if n == 0 {
        let j = choose|j: int| 0 <= j < roots.len() && #[trigger] resolve(slots, roots[j]) is Some && roots[j].slot() == path[0];
        assert(s(roots[j].slot() as int));
    } else {
        lemma_path_marked(slots, roots, marks, path, n - 1);
        assert(points_to(slots, path[n - 1], path[(n - 1) + 1]));
        let k = choose|k: int|
            0 <= k < edges_of(slots, path[n - 1]).len() && #[trigger] resolve(slots, edges_of(slots, path[n - 1])[k]) is Some
                && edges_of(slots, path[n - 1])[k].slot() == path[n];
        assert(s(edges_of(slots, path[n - 1])[k].slot() as int));
    }
}

/// When tracing follows every handle a value holds, a collection marks, and
/// so keeps, exactly the slots that the live roots reach by chains of
/// handles; every other live slot is freed, and what is kept is unchanged.
pub proof fn law_collect_keeps_exactly_what_roots_reach<T: Trace>(
    before: HeapModel<T>,
    after: HeapModel<T>,
    marks: Seq<bool>,
    roots: Seq<HeapHandle>,
    report: CollectionReport,
    h: HeapHandle,
)
    requires
        collected_with(before, after, marks, roots, report),
        traced_marks(before.slots, roots, marks),
        resolve(before.slots, h) is Some,
    ensures
        marks[h.slot() as int] <==> reached(before.slots, roots, h.slot() as int),
        reached(before.slots, roots, h.slot() as int) ==> resolve(after.slots, h) == resolve(before.slots, h),
        !reached(before.slots, roots, h.slot() as int) ==> resolve(after.slots, h) is None,
{
    let slots = before.slots;
    let i = h.slot() as int;
    let r = |x: int| reached(slots, roots, x);
    assert forall|j: int| 0 <= j < roots.len() && #[trigger] resolve(slots, roots[j]) is Some implies r(
        roots[j].slot() as int,
    ) by {
        let path = seq![roots[j].slot() as int];
        assert(root_slot(slots, roots, path[0]));
        assert(root_path(slots, roots, path));
    }
    assert(holds_roots(slots, roots, r));
    assert forall|a: int, k: int|
        0 <= a < slots.len() && r(a) && 0 <= k < edges_of(slots, a).len() && #[trigger] resolve(
            slots,
            edges_of(slots, a)[k],
        ) is Some implies r(edges_of(slots, a)[k].slot() as int) by {
        let path = choose|path: Seq<int>| #[trigger] root_path(slots, roots, path) && path.last() == a;
        let b = edges_of(slots, a)[k].slot() as int;
        let longer = path.push(b);
        assert(points_to(slots, a, b));
        assert forall|n: int| 0 <= n < longer.len() - 1 implies #[trigger] points_to(slots, longer[n], longer[n + 1]) by {
            if n < path.len() - 1 {
                assert(longer[n] == path[n] && longer[n + 1] == path[n + 1]);
            } else {
                assert(longer[n] == a && longer[n + 1] == b);
            }
        }
        assert(root_path(slots, roots, longer));
        assert(longer.last() == b);
    }
    assert(closed_under(slots, r));
    if marks[i] {
        assert(r(i));
    }
    if reached(slots, roots, i) {
        let path = choose|path: Seq<int>| #[trigger] root_path(slots, roots, path) && path.last() == i;
        lemma_path_marked(slots, roots, marks, path, path.len() - 1);
    }
    assert(after.slots[i] == swept(slots[i], marks[i]));
}

/// With no roots, a collection frees every live slot.
pub proof fn law_collect_without_roots_frees_all<T: Trace>(
    before: HeapModel<T>,
    after: HeapModel<T>,
    marks: Seq<bool>,
    report: CollectionReport,
    h: HeapHandle,
)
    requires
        collected_with(before, after, marks, Seq::empty(), report),
        traced_marks(before.slots, Seq::empty(), marks),
        resolve(before.slots, h) is Some,
    ensures
        resolve(after.slots, h) is None,
{
    let none = |i: int| false;
    assert(holds_roots(before.slots, Seq::<HeapHandle>::empty(), none));
    assert(closed_under(before.slots, none));
    assert(!marks[h.slot() as int]);
}

/// The live slots after a collection and the slots it freed add up to the
/// live slots before it.
pub proof fn law_collect_counts<T>(
    before: HeapModel<T>,
    after: HeapModel<T>,
    marks: Seq<bool>,
    roots: Seq<HeapHandle>,
    report: CollectionReport,
)
    requires
        collected_with(before, after, marks, roots, report),
    ensures
        report.live_after + report.collected == occupied_count(before.slots),
        report.marked <= occupied_count(before.slots),
{
    lemma_sweep_count(before.slots, marks, before.slots.len() as int);
    assert(before.slots.take(before.slots.len() as int) =~= before.slots);
    assert(sweep_slots(before.slots, marks).take(before.slots.len() as int) =~= sweep_slots(before.slots, marks));
    lemma_marked_live(before.slots, marks, before.slots.len() as int);
    assert(marks.take(before.slots.len() as int) =~= marks);
}

/// Marks fall only on live slots, so there are no more of them than live slots.
proof fn lemma_marked_live<T>(slots: Seq<SlotState<T>>, marks: Seq<bool>, n: int)
    requires
        0 <= n <= slots.len(),
        marks.len() == slots.len(),
        forall|i: int| 0 <= i < marks.len() && #[trigger] marks[i] ==> slots[i].value is Some,
    ensures
        count_true(marks.take(n)) <= occupied_count(slots.take(n)),
    decreases n,
{
    if n > 0 {
        lemma_marked_live(slots, marks, n - 1);
        assert(marks.take(n).drop_last() =~= marks.take(n - 1));
        assert(slots.take(n).drop_last() =~= slots.take(n - 1));
    }
}

/// A handle to a slot that a collection freed stays stale once the slot is
/// allocated again: the reused slot carries the next generation.
pub proof fn law_stale_after_reuse<T>(
    before: HeapModel<T>,
    mid: HeapModel<T>,
    after: HeapModel<T>,
    marks: Seq<bool>,
    roots: Seq<HeapHandle>,
    report: CollectionReport,
    stale: HeapHandle,
    fresh: HeapHandle,
    value: T,
)
    requires
        model_ok(before),
        collected_with(before, mid, marks, roots, report),
        allocated(mid, after, fresh, value),
        resolve(before.slots, stale) is Some,
        !marks[stale.slot() as int],
    ensures
        resolve(after.slots, stale) is None,
        fresh.slot() == stale.slot() ==> fresh.issued() != stale.issued(),
{
    let i = stale.slot() as int;
    assert(mid.slots[i] == swept(before.slots[i], marks[i]));
    assert(mid.slots[i].generation == next_generation(stale.issued()));
    assert(mid.slots[i].value is None);
    if mid.free.len() > 0 {
        let j = mid.free.last();
        assert(mid.free[mid.free.len() - 1] == j);
        if mid.free.len() - 1 >= before.free.len() {
            lemma_freed_indices(before.slots, marks, before.slots.len() as int);
            assert(mid.free[mid.free.len() - 1] == freed_indices(before.slots, marks, before.slots.len() as int)[
                mid.free.len() - 1 - before.free.len()]);
        } else {
            assert(mid.free[mid.free.len() - 1] == before.free[mid.free.len() - 1]);
        }
        if j == i {
            assert(after.slots[i].generation == mid.slots[i].generation);
        } else {
            assert(after.slots[i] == mid.slots[i]);
        }
    } else {
        assert(after.slots[i] == mid.slots[i]);
    }
}

} // verus!
