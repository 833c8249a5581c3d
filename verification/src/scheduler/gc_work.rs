use vstd::prelude::*;

use super::work_bucket::WorkBucketStage;
use crate::plan::tracing::{TracePolicy, VectorObjectQueue, VectorQueue, EDGES_WORK_BUFFER_SIZE};
use crate::util::address::{Address, ObjectReference};
use crate::util::metadata::side_metadata::SideTable;
use crate::util::opaque_pointer::OpaquePointer;
use crate::vm::Scanning;

verus! {

broadcast use {
    Address::lemma_from_value,
    ObjectReference::lemma_from_value,
    ObjectReference::lemma_value_injective,
};

// ---------------------------------------------------------------------------
// Slots
// ---------------------------------------------------------------------------

/// Load the object reference held in `slot` (none for a zero word).
pub fn load_slot(heap: &SideTable<usize>, slot: Address) -> (r: Option<ObjectReference>)
    requires
        heap.covers(slot),
    ensures
        r is None <==> heap.entry(slot) == 0,
        r matches Some(o) ==> o.value() == heap.entry(slot),
{
    let word = heap.load(slot);
    ObjectReference::from_raw_address(Address::from_usize(word))
}

/// Store `object` into `slot`.
pub fn store_slot(heap: &mut SideTable<usize>, slot: Address, object: ObjectReference)
    requires
        old(heap).covers(slot),
    ensures
        final(heap)@ == old(heap)@.update(old(heap).index_of(slot), object.value()),
        final(heap).base() == old(heap).base(),
        final(heap).region_bytes() == old(heap).region_bytes(),
        final(heap).wf(),
{
    heap.store(slot, object.to_raw_address().as_usize());
}

/// The heap words after the first `k` slots have been processed, given the reference
/// that tracing returned for each slot: a slot that holds a reference is updated when
/// the trace may move objects and returned a different reference.
pub open spec fn slots_processed(
    heap: &SideTable<usize>,
    slots: Seq<Address>,
    traced: Seq<ObjectReference>,
    may_move: bool,
    k: int,
) -> Seq<usize>
    decreases k,
{
    if k <= 0 {
        heap@
    } else {
        let h = slots_processed(heap, slots, traced, may_move, k - 1);
        let i = heap.index_of(slots[k - 1]);
        let w = h[i];
        if w != 0 && may_move && traced[k - 1].value() != w {
            h.update(i, traced[k - 1].value())
        } else {
            h
        }
    }
}

/// The processed heap words depend only on the references traced for the slots seen.
proof fn lemma_slots_processed_agree(
    heap: &SideTable<usize>,
    slots: Seq<Address>,
    t1: Seq<ObjectReference>,
    t2: Seq<ObjectReference>,
    may_move: bool,
    k: int,
)
    requires
        forall|j: int| 0 <= j < k ==> t1[j] == t2[j],
    ensures
        slots_processed(heap, slots, t1, may_move, k) == slots_processed(heap, slots, t2, may_move, k),
    decreases k,
{
    if k > 0 {
        lemma_slots_processed_agree(heap, slots, t1, t2, may_move, k - 1);
    }
}

/// Processing the first `k` slots changes no word that none of them refers to, and
/// leaves the word of slot `j` (which no other of those slots shares) holding the
/// reference that tracing gave for it when the trace may move objects and the slot was
/// not empty, and what it held before otherwise.
proof fn lemma_slots_processed_words(
    heap: &SideTable<usize>,
    slots: Seq<Address>,
    traced: Seq<ObjectReference>,
    may_move: bool,
    k: int,
)
    requires
        0 <= k <= slots.len(),
        forall|a: int| 0 <= a < k ==> #[trigger] heap.covers(slots[a]),
    ensures
        slots_processed(heap, slots, traced, may_move, k).len() == heap@.len(),
        forall|x: int|
            0 <= x < heap@.len() && (forall|a: int| 0 <= a < k ==> heap.index_of(#[trigger] slots[a]) != x)
                ==> #[trigger] slots_processed(heap, slots, traced, may_move, k)[x] == heap@[x],
        forall|j: int|
            0 <= j < k && (forall|a: int|
                0 <= a < k && a != j ==> heap.index_of(#[trigger] slots[a]) != heap.index_of(
                    slots[j],
                )) ==> #[trigger] slots_processed(heap, slots, traced, may_move, k)[heap.index_of(
                slots[j],
            )] == if may_move && heap.entry(slots[j]) != 0 {
                traced[j].value()
            } else {
                heap.entry(slots[j])
            },
    decreases k,
{
    if k > 0 {
        lemma_slots_processed_words(heap, slots, traced, may_move, k - 1);
        let h = slots_processed(heap, slots, traced, may_move, k - 1);
        let hk = slots_processed(heap, slots, traced, may_move, k);
        let i = heap.index_of(slots[k - 1]);
        assert(heap.covers(slots[k - 1]));
        assert(0 <= i < h.len());
        let t = traced[k - 1].value();
        assert(hk == if h[i] != 0 && may_move && t != h[i] {
            h.update(i, t)
        } else {
            h
        });
        assert forall|x: int|
            0 <= x < heap@.len() && (forall|a: int| 0 <= a < k ==> heap.index_of(#[trigger] slots[a]) != x)
                implies #[trigger] hk[x] == heap@[x] by {
            assert(heap.index_of(slots[k - 1]) != x);
            assert forall|a: int| 0 <= a < k - 1 implies heap.index_of(#[trigger] slots[a]) != x by {
                assert(heap.index_of(slots[a]) != x);
            }
            assert(h[x] == heap@[x]);
        }
        assert forall|j: int|
            0 <= j < k && (forall|a: int|
                0 <= a < k && a != j ==> heap.index_of(#[trigger] slots[a]) != heap.index_of(
                    slots[j],
                )) implies #[trigger] hk[heap.index_of(slots[j])] == if may_move && heap.entry(
                slots[j],
            ) != 0 {
                traced[j].value()
            } else {
                heap.entry(slots[j])
            } by {
            let ij = heap.index_of(slots[j]);
            assert(heap.covers(slots[j]));
            assert(heap.entry(slots[j]) == heap@[ij]);
            if j == k - 1 {
                assert forall|a: int| 0 <= a < k - 1 implies heap.index_of(#[trigger] slots[a]) != ij by {
                    assert(a != j);
                    assert(heap.index_of(slots[a]) != heap.index_of(slots[j]));
                }
                assert(h[ij] == heap@[ij]);
            } else {
                assert(heap.index_of(slots[k - 1]) != ij);
                assert forall|a: int|
                    0 <= a < k - 1 && a != j implies heap.index_of(#[trigger] slots[a]) != ij by {
                    assert(heap.index_of(slots[a]) != heap.index_of(slots[j]));
                }
                assert(h[ij] == if may_move && heap.entry(slots[j]) != 0 {
                    traced[j].value()
                } else {
                    heap.entry(slots[j])
                });
                assert(hk[ij] == h[ij]);
            }
        }
    }
}

/// After the slots of a packet are processed, a slot that no other slot of the packet
/// shares holds the reference that tracing returned for its object when the trace may
/// move objects and the slot held a reference, and keeps its word otherwise; a heap
/// word that no slot refers to is unchanged.
pub proof fn lemma_processed_slot_holds_traced(
    heap: &SideTable<usize>,
    slots: Seq<Address>,
    traced: Seq<ObjectReference>,
    may_move: bool,
)
    requires
        covers_slots(heap, slots),
    ensures
        slots_processed(heap, slots, traced, may_move, slots.len() as int).len() == heap@.len(),
        forall|j: int|
            0 <= j < slots.len() && (forall|a: int|
                0 <= a < slots.len() && a != j ==> heap.index_of(#[trigger] slots[a])
                    != heap.index_of(slots[j])) ==> #[trigger] slots_processed(
                heap,
                slots,
                traced,
                may_move,
                slots.len() as int,
            )[heap.index_of(slots[j])] == if may_move && heap.entry(slots[j]) != 0 {
                traced[j].value()
            } else {
                heap.entry(slots[j])
            },
        forall|x: int|
            0 <= x < heap@.len() && (forall|a: int| 0 <= a < slots.len() ==> heap.index_of(#[trigger] slots[a]) != x)
                ==> #[trigger] slots_processed(heap, slots, traced, may_move, slots.len() as int)[x]
                == heap@[x],
{
    lemma_slots_processed_words(heap, slots, traced, may_move, slots.len() as int);
}

/// Whether the heap table covers every slot.
pub open spec fn covers_slots(heap: &SideTable<usize>, slots: Seq<Address>) -> bool {
    forall|i: int| 0 <= i < slots.len() ==> #[trigger] heap.covers(slots[i])
}

// ---------------------------------------------------------------------------
// GCProcessEdges
// ---------------------------------------------------------------------------

/// Whether processing the first `k` slots of `slots` in order, starting from `heap`,
/// traces the object found in each non-empty slot with `policy`, from the context
/// `ctx0` and the queue `queue0` to the context `ctx1` and the queue `queue1`, tracing
/// giving back `traced[j]` for slot `j`.
pub open spec fn slots_traced<T: TracePolicy>(
    policy: T,
    heap: &SideTable<usize>,
    slots: Seq<Address>,
    traced: Seq<ObjectReference>,
    may_move: bool,
    k: int,
    ctx0: T::Context,
    queue0: Seq<ObjectReference>,
    ctx1: T::Context,
    queue1: Seq<ObjectReference>,
) -> bool
    decreases k,
{
    if k <= 0 {
        ctx1 == ctx0 && queue1 == queue0
    } else {
        let w = slots_processed(heap, slots, traced, may_move, k - 1)[heap.index_of(
            slots[k - 1],
        )];
        if w == 0 {
            slots_traced(policy, heap, slots, traced, may_move, k - 1, ctx0, queue0, ctx1, queue1)
        } else {
            exists|c: T::Context, q: Seq<ObjectReference>|
                #![trigger policy.trace_step(c, q, ObjectReference::from_value(w), ctx1, queue1, traced[k - 1])]
                slots_traced(policy, heap, slots, traced, may_move, k - 1, ctx0, queue0, c, q)
                    && policy.trace_step(
                    c,
                    q,
                    ObjectReference::from_value(w),
                    ctx1,
                    queue1,
                    traced[k - 1],
                )
        }
    }
}

/// The chain of traces depends only on the traced references of the slots it covers.
proof fn lemma_slots_traced_agree<T: TracePolicy>(
    policy: T,
    heap: &SideTable<usize>,
    slots: Seq<Address>,
    t1: Seq<ObjectReference>,
    t2: Seq<ObjectReference>,
    may_move: bool,
    k: int,
    ctx0: T::Context,
    queue0: Seq<ObjectReference>,
)
    requires
        forall|j: int| 0 <= j < k ==> t1[j] == t2[j],
    ensures
        forall|c1: T::Context, q1: Seq<ObjectReference>|
            #[trigger] slots_traced(policy, heap, slots, t1, may_move, k, ctx0, queue0, c1, q1)
                == slots_traced(policy, heap, slots, t2, may_move, k, ctx0, queue0, c1, q1),
    decreases k,
{
    if k > 0 {
        lemma_slots_traced_agree(policy, heap, slots, t1, t2, may_move, k - 1, ctx0, queue0);
        lemma_slots_processed_agree(heap, slots, t1, t2, may_move, k - 1);
        assert forall|c1: T::Context, q1: Seq<ObjectReference>|
            #[trigger] slots_traced(policy, heap, slots, t1, may_move, k, ctx0, queue0, c1, q1)
                == slots_traced(policy, heap, slots, t2, may_move, k, ctx0, queue0, c1, q1) by {
            let w = slots_processed(heap, slots, t1, may_move, k - 1)[heap.index_of(slots[k - 1])];
            let o = ObjectReference::from_value(w);
            assert(t1[k - 1] == t2[k - 1]);
            assert(slots_traced(policy, heap, slots, t1, may_move, k - 1, ctx0, queue0, c1, q1)
                == slots_traced(policy, heap, slots, t2, may_move, k - 1, ctx0, queue0, c1, q1));
            if w != 0 {
                if slots_traced(policy, heap, slots, t1, may_move, k, ctx0, queue0, c1, q1) {
                    let (c, q) = choose|c: T::Context, q: Seq<ObjectReference>|
                        #![trigger policy.trace_step(c, q, o, c1, q1, t1[k - 1])]
                        slots_traced(policy, heap, slots, t1, may_move, k - 1, ctx0, queue0, c, q)
                            && policy.trace_step(c, q, o, c1, q1, t1[k - 1]);
                    assert(slots_traced(policy, heap, slots, t2, may_move, k - 1, ctx0, queue0, c, q));
                    assert(policy.trace_step(c, q, o, c1, q1, t2[k - 1]));
                }
                if slots_traced(policy, heap, slots, t2, may_move, k, ctx0, queue0, c1, q1) {
                    let (c, q) = choose|c: T::Context, q: Seq<ObjectReference>|
                        #![trigger policy.trace_step(c, q, o, c1, q1, t2[k - 1])]
                        slots_traced(policy, heap, slots, t2, may_move, k - 1, ctx0, queue0, c, q)
                            && policy.trace_step(c, q, o, c1, q1, t2[k - 1]);
                    assert(slots_traced(policy, heap, slots, t1, may_move, k - 1, ctx0, queue0, c, q));
                    assert(policy.trace_step(c, q, o, c1, q1, t1[k - 1]));
                }
            }
        }
    }
}

/// The outcome of a slot-processing packet: tracing the non-empty slots in order, from
/// the context `ctx0` and an empty queue, ends in the context `ctx1` with a queue of
/// traced objects, which becomes the scan packet `scan` (none if it is empty).
pub open spec fn edges_outcome<T: TracePolicy>(
    policy: T,
    heap: &SideTable<usize>,
    slots: Seq<Address>,
    traced: Seq<ObjectReference>,
    may_move: bool,
    ctx0: T::Context,
    ctx1: T::Context,
    bucket: WorkBucketStage,
    scan: Option<GCScanObjects<T>>,
) -> bool {
    exists|q: Seq<ObjectReference>|
        {
            &&& #[trigger] slots_traced(
                policy,
                heap,
                slots,
                traced,
                may_move,
                slots.len() as int,
                ctx0,
                Seq::empty(),
                ctx1,
                q,
            )
            &&& q.len() == 0 ==> scan is None
            &&& q.len() > 0 ==> (scan matches Some(w) && w.buffer_spec() == q && w.policy_spec()
                == policy && !w.roots_spec() && w.bucket_spec() == bucket)
        }
}

/// Generic slot-processing work packet parameterized by [`TracePolicy`]: it loads each
/// slot, traces the object it refers to, updates the slot if the object moved, and
/// buffers the traced objects for scanning.
pub struct GCProcessEdges<T: TracePolicy> {
    /// The slots to process.
    slots: Vec<Address>,
    /// Traced objects waiting to be scanned.
    nodes: VectorObjectQueue,
    /// Whether the slots come from root scanning.
    roots: bool,
    /// The trace policy (plan-specific tracing behavior).
    policy: T,
    /// Which work bucket this packet belongs to.
    bucket: WorkBucketStage,
}

impl<T: TracePolicy> GCProcessEdges<T> {
    /// The slots to process.
    pub closed spec fn slots_spec(&self) -> Seq<Address> {
        self.slots@
    }

    /// The traced objects waiting to be scanned.
    pub closed spec fn nodes_spec(&self) -> Seq<ObjectReference> {
        self.nodes@
    }

    /// Whether the slots come from root scanning.
    pub closed spec fn roots_spec(&self) -> bool {
        self.roots
    }

    /// The trace policy.
    pub closed spec fn policy_spec(&self) -> T {
        self.policy
    }

    /// The work bucket of this packet.
    pub closed spec fn bucket_spec(&self) -> WorkBucketStage {
        self.bucket
    }

    /// The slots to process.
    pub fn slots(&self) -> (r: &Vec<Address>)
        ensures
            r@ == self.slots_spec(),
    {
        &self.slots
    }

    /// A packet for `slots` that traces with `policy`, which must be a policy that the
    /// plan supports.
    pub fn new(slots: Vec<Address>, roots: bool, policy: T, bucket: WorkBucketStage) -> (p: Self)
        requires
            policy.supported(),
        ensures
            p.slots_spec() == slots@,
            p.nodes_spec() == Seq::<ObjectReference>::empty(),
            p.roots_spec() == roots,
            p.policy_spec() == policy,
            p.bucket_spec() == bucket,
    {
        Self { slots, nodes: VectorObjectQueue::new(), roots, policy, bucket }
    }

    /// Process all slots: trace the object in each non-empty slot, and store the
    /// traced reference back if the trace may move objects and the reference changed.
    /// Returns the reference that tracing gave for each slot.
    pub fn process_slots_with_worker(
        &mut self,
        ctx: &mut T::Context,
        heap: &mut SideTable<usize>,
    ) -> (r: (bool, Ghost<Seq<ObjectReference>>))
        requires
            old(self).policy_spec().supported(),
            covers_slots(old(heap), old(self).slots_spec()),
        ensures
            r.0 == old(self).policy_spec().moves(),
            r.1@.len() == old(self).slots_spec().len(),
            final(heap)@ == slots_processed(
                old(heap),
                old(self).slots_spec(),
                r.1@,
                r.0,
                old(self).slots_spec().len() as int,
            ),
            slots_traced(
                old(self).policy_spec(),
                old(heap),
                old(self).slots_spec(),
                r.1@,
                r.0,
                old(self).slots_spec().len() as int,
                *old(ctx),
                old(self).nodes_spec(),
                *final(ctx),
                final(self).nodes_spec(),
            ),
            final(heap).base() == old(heap).base(),
            final(heap).region_bytes() == old(heap).region_bytes(),
            final(self).slots_spec() == old(self).slots_spec(),
            final(self).policy_spec() == old(self).policy_spec(),
            final(self).roots_spec() == old(self).roots_spec(),
            final(self).bucket_spec() == old(self).bucket_spec(),
    {
        let ghost h0 = *heap;
        let ghost c0 = *ctx;
        let ghost n0 = self.nodes@;
        let may_move = self.policy.may_move_objects();
        let ghost mut traced: Seq<ObjectReference> = Seq::empty();
        let mut i: usize = 0;
        while i < self.slots.len()
            invariant
                self.policy.supported(),
                self.slots@ == old(self).slots@,
                self.policy == old(self).policy,
                self.roots == old(self).roots,
                self.bucket == old(self).bucket,
                i <= self.slots@.len(),
                traced.len() == i,
                covers_slots(&h0, self.slots@),
                heap.base() == h0.base(),
                heap.region_bytes() == h0.region_bytes(),
                heap@.len() == h0@.len(),
                heap.wf() == h0.wf(),
                heap@ == slots_processed(&h0, self.slots@, traced, may_move, i as int),
                may_move == self.policy.moves(),
                slots_traced(self.policy, &h0, self.slots@, traced, may_move, i as int, c0, n0, *ctx, self.nodes@),
            decreases self.slots@.len() - i,
        {
            let ghost traced0 = traced;
            let ghost c = *ctx;
            let ghost q = self.nodes@;
            let slot = self.slots[i];
            assert(h0.covers(self.slots@[i as int]));
            let loaded = load_slot(heap, slot);
            match loaded {
                None => {
                    proof {
                        traced = traced.push(vstd::pervasive::arbitrary());
                        lemma_slots_processed_agree(&h0, self.slots@, traced, traced0, may_move, i as int);
                        lemma_slots_traced_agree(self.policy, &h0, self.slots@, traced, traced0, may_move, i as int, c0, n0);
                        assert(heap.index_of(slot) == h0.index_of(self.slots@[i as int]));
                        assert(slots_traced(self.policy, &h0, self.slots@, traced, may_move, i as int, c0, n0, *ctx, self.nodes@));
                        assert(slots_traced(self.policy, &h0, self.slots@, traced, may_move, i + 1, c0, n0, *ctx, self.nodes@));
                    }
                },
                Some(object) => {
                    let new_object = self.policy.trace_object(ctx, &mut self.nodes, object);
                    proof {
                        traced = traced.push(new_object);
                        lemma_slots_processed_agree(&h0, self.slots@, traced, traced0, may_move, i as int);
                        lemma_slots_traced_agree(self.policy, &h0, self.slots@, traced, traced0, may_move, i as int, c0, n0);
                        let w = slots_processed(&h0, self.slots@, traced, may_move, i as int)[h0.index_of(self.slots@[i as int])];
                        assert(slots_processed(&h0, self.slots@, traced, may_move, i as int) == slots_processed(&h0, self.slots@, traced0, may_move, i as int));
                        assert(heap.index_of(slot) == h0.index_of(self.slots@[i as int]));
                        assert(object.value() == w);
                        assert(ObjectReference::from_value(w).value() == w);
                        assert(object == ObjectReference::from_value(w));
                        assert(slots_traced(self.policy, &h0, self.slots@, traced, may_move, i as int, c0, n0, c, q));
                        assert(self.policy.trace_step(c, q, ObjectReference::from_value(w), *ctx, self.nodes@, traced[i as int]));
                        assert(w != 0);
                        assert(slots_traced(self.policy, &h0, self.slots@, traced, may_move, i + 1, c0, n0, *ctx, self.nodes@));
                    }
                    if may_move && new_object != object {
                        store_slot(heap, slot, new_object);
                    }
                },
            }
            proof {
                lemma_slots_processed_agree(&h0, self.slots@, traced, traced0, may_move, i as int);
                lemma_slots_traced_agree(self.policy, &h0, self.slots@, traced, traced0, may_move, i as int, c0, n0);
            }
            i += 1;
        }
        (may_move, Ghost(traced))
    }
}

impl<T: TracePolicy> GCProcessEdges<T> {
    /// Flush the node buffer: the traced objects, if any, become a `GCScanObjects`
    /// packet that is to be executed immediately for better locality.
    pub fn flush_nodes(&mut self) -> (r: Option<GCScanObjects<T>>)
        ensures
            old(self).nodes_spec().len() == 0 ==> r is None,
            old(self).nodes_spec().len() > 0 ==> (r matches Some(w) && w.buffer_spec()
                == old(self).nodes_spec() && w.policy_spec() == old(self).policy_spec()
                && !w.roots_spec() && w.bucket_spec() == old(self).bucket_spec()),
            final(self).nodes_spec() == Seq::<ObjectReference>::empty(),
            final(self).slots_spec() == old(self).slots_spec(),
            final(self).policy_spec() == old(self).policy_spec(),
            final(self).roots_spec() == old(self).roots_spec(),
            final(self).bucket_spec() == old(self).bucket_spec(),
    {
        let nodes = self.nodes.take();
        if nodes.len() != 0 {
            let policy = self.policy;
            Some(GCScanObjects::new(policy, nodes, false, self.bucket))
        } else {
            None
        }
    }

    /// Execute the packet: process all slots, then hand out the objects traced for the
    /// first time as a scan packet (if there are any).
    pub fn do_work(&mut self, ctx: &mut T::Context, heap: &mut SideTable<usize>) -> (r: (
        bool,
        Ghost<Seq<ObjectReference>>,
        Option<GCScanObjects<T>>,
    ))
        requires
            old(self).policy_spec().supported(),
            old(self).nodes_spec().len() == 0,
            covers_slots(old(heap), old(self).slots_spec()),
        ensures
            r.0 == old(self).policy_spec().moves(),
            r.1@.len() == old(self).slots_spec().len(),
            final(heap)@ == slots_processed(
                old(heap),
                old(self).slots_spec(),
                r.1@,
                r.0,
                old(self).slots_spec().len() as int,
            ),
            edges_outcome(
                old(self).policy_spec(),
                old(heap),
                old(self).slots_spec(),
                r.1@,
                r.0,
                *old(ctx),
                *final(ctx),
                old(self).bucket_spec(),
                r.2,
            ),
            final(heap).base() == old(heap).base(),
            final(heap).region_bytes() == old(heap).region_bytes(),
            r.2 matches Some(w) ==> w.buffer_spec().len() > 0 && w.policy_spec()
                == old(self).policy_spec() && !w.roots_spec() && w.bucket_spec()
                == old(self).bucket_spec(),
            final(self).nodes_spec() == Seq::<ObjectReference>::empty(),
            final(self).slots_spec() == old(self).slots_spec(),
    {
        let ghost h0 = *heap;
        let (may_move, traced) = self.process_slots_with_worker(ctx, heap);
        let ghost q = self.nodes@;
        let scan = self.flush_nodes();
        proof {
            assert(old(self).nodes_spec() =~= Seq::<ObjectReference>::empty());
            assert(slots_traced(
                self.policy,
                &h0,
                self.slots@,
                traced@,
                may_move,
                self.slots@.len() as int,
                *old(ctx),
                Seq::empty(),
                *ctx,
                q,
            ));
        }
        (may_move, traced, scan)
    }
}

// ---------------------------------------------------------------------------
// GCScanObjects
// ---------------------------------------------------------------------------

/// The objects of `objects` that `scanning` scans slot by slot (`want` true) or by
/// tracing their edges (`want` false), in order.
pub open spec fn select_objects<S: Scanning>(
    scanning: S,
    objects: Seq<ObjectReference>,
    want: bool,
) -> Seq<ObjectReference>
    decreases objects.len(),
{
    if objects.len() == 0 {
        Seq::empty()
    } else {
        let prev = select_objects(scanning, objects.drop_last(), want);
        if scanning.slot_enqueuing(objects.last()) == want {
            prev.push(objects.last())
        } else {
            prev
        }
    }
}

/// The slots of all of `objects`, object after object.
pub open spec fn slots_of_all<S: Scanning>(scanning: S, objects: Seq<ObjectReference>) -> Seq<
    Address,
>
    decreases objects.len(),
{
    if objects.len() == 0 {
        Seq::empty()
    } else {
        slots_of_all(scanning, objects.drop_last()) + scanning.object_slots(objects.last())
    }
}

/// The edges of all of `objects`, object after object.
pub open spec fn edges_of_all<S: Scanning>(scanning: S, objects: Seq<ObjectReference>) -> Seq<
    ObjectReference,
>
    decreases objects.len(),
{
    if objects.len() == 0 {
        Seq::empty()
    } else {
        edges_of_all(scanning, objects.drop_last()) + scanning.object_edges(objects.last())
    }
}

/// The slots of all of `packets`, packet after packet.
pub open spec fn packet_slots<T: TracePolicy>(packets: Seq<GCProcessEdges<T>>) -> Seq<Address>
    decreases packets.len(),
{
    if packets.len() == 0 {
        Seq::empty()
    } else {
        packet_slots(packets.drop_last()) + packets.last().slots_spec()
    }
}

/// Slot packets as object scanning creates them: each holds between one slot and a full
/// buffer, traces with `policy`, has no traced objects yet, is no root packet and
/// belongs to `bucket`; all but the last are full.
pub open spec fn scan_packets_formed<T: TracePolicy>(
    packets: Seq<GCProcessEdges<T>>,
    policy: T,
    bucket: WorkBucketStage,
) -> bool {
    &&& forall|i: int|
        #![trigger packets[i]]
        0 <= i < packets.len() ==> {
            &&& 0 < packets[i].slots_spec().len() <= EDGES_WORK_BUFFER_SIZE
            &&& packets[i].policy_spec() == policy
            &&& !packets[i].roots_spec()
            &&& packets[i].bucket_spec() == bucket
            &&& packets[i].nodes_spec() == Seq::<ObjectReference>::empty()
        }
    &&& forall|i: int|
        #![trigger packets[i]]
        0 <= i < packets.len() - 1 ==> packets[i].slots_spec().len() == EDGES_WORK_BUFFER_SIZE
}

/// Whether running the post-scan hook of `policy` for each of `objects`, in order and
/// once each, can take the context from `ctx0` to `ctx1`.
pub open spec fn post_scanned_in_order<T: TracePolicy>(
    policy: T,
    ctx0: T::Context,
    objects: Seq<ObjectReference>,
    ctx1: T::Context,
) -> bool
    decreases objects.len(),
{
    if objects.len() == 0 {
        ctx1 == ctx0
    } else {
        exists|c: T::Context|
            #![trigger policy.post_scan_step(c, objects.last(), ctx1)]
            post_scanned_in_order(policy, ctx0, objects.drop_last(), c) && policy.post_scan_step(
                c,
                objects.last(),
                ctx1,
            )
    }
}

/// Whether scanning `objects` one after the other, the binding tracing the edges of each
/// in order and the post-scan hook of `policy` running once after each, can take the
/// context from `ctx0` to `ctx1` and the queue from `queue0` to `queue1`.
pub open spec fn edges_traced_and_post_scanned<T: TracePolicy, S: Scanning>(
    policy: T,
    scanning: S,
    ctx0: T::Context,
    queue0: Seq<ObjectReference>,
    objects: Seq<ObjectReference>,
    ctx1: T::Context,
    queue1: Seq<ObjectReference>,
) -> bool
    decreases objects.len(),
{
    if objects.len() == 0 {
        ctx1 == ctx0 && queue1 == queue0
    } else {
        exists|c: T::Context, q: Seq<ObjectReference>, c2: T::Context|
            #![trigger traced_in_order(policy, c, q, scanning.object_edges(objects.last()), c2, queue1), policy.post_scan_step(c2, objects.last(), ctx1)]
            edges_traced_and_post_scanned(policy, scanning, ctx0, queue0, objects.drop_last(), c, q)
                && traced_in_order(policy, c, q, scanning.object_edges(objects.last()), c2, queue1)
                && policy.post_scan_step(c2, objects.last(), ctx1)
    }
}

/// Tracing a sequence of objects and then another is tracing their concatenation.
pub proof fn lemma_traced_in_order_concat<T: TracePolicy>(
    policy: T,
    ctx0: T::Context,
    queue0: Seq<ObjectReference>,
    xs: Seq<ObjectReference>,
    ctx1: T::Context,
    queue1: Seq<ObjectReference>,
    ys: Seq<ObjectReference>,
    ctx2: T::Context,
    queue2: Seq<ObjectReference>,
)
    requires
        traced_in_order(policy, ctx0, queue0, xs, ctx1, queue1),
        traced_in_order(policy, ctx1, queue1, ys, ctx2, queue2),
    ensures
        traced_in_order(policy, ctx0, queue0, xs + ys, ctx2, queue2),
    decreases ys.len(),
{
    if ys.len() == 0 {
        assert(xs + ys =~= xs);
    } else {
        let (c, q, r) = choose|c: T::Context, q: Seq<ObjectReference>, r: ObjectReference|
            #![trigger policy.trace_step(c, q, ys.last(), ctx2, queue2, r)]
            traced_in_order(policy, ctx1, queue1, ys.drop_last(), c, q) && policy.trace_step(
                c,
                q,
                ys.last(),
                ctx2,
                queue2,
                r,
            );
        lemma_traced_in_order_concat(policy, ctx0, queue0, xs, ctx1, queue1, ys.drop_last(), c, q);
        assert((xs + ys).drop_last() =~= xs + ys.drop_last());
        assert((xs + ys).last() == ys.last());
        assert(policy.trace_step(c, q, (xs + ys).last(), ctx2, queue2, r));
    }
}

/// Generic scan-objects work packet parameterized by [`TracePolicy`]. Objects whose
/// slots the binding can enqueue are scanned slot by slot; the others are scanned by
/// the binding tracing their edges directly.
pub struct GCScanObjects<T: TracePolicy> {
    /// The trace policy.
    policy: T,
    /// Objects to scan.
    buffer: Vec<ObjectReference>,
    /// Whether these are root objects.
    roots: bool,
    /// Which work bucket this packet belongs to.
    bucket: WorkBucketStage,
}

impl<T: TracePolicy> GCScanObjects<T> {
    /// The trace policy.
    pub closed spec fn policy_spec(&self) -> T {
        self.policy
    }

    /// The objects to scan.
    pub closed spec fn buffer_spec(&self) -> Seq<ObjectReference> {
        self.buffer@
    }

    /// Whether these are root objects.
    pub closed spec fn roots_spec(&self) -> bool {
        self.roots
    }

    /// The work bucket of this packet.
    pub closed spec fn bucket_spec(&self) -> WorkBucketStage {
        self.bucket
    }

    /// The objects to scan.
    pub fn buffer(&self) -> (r: &Vec<ObjectReference>)
        ensures
            r@ == self.buffer_spec(),
    {
        &self.buffer
    }

    /// A packet that scans `buffer`.
    pub fn new(policy: T, buffer: Vec<ObjectReference>, roots: bool, bucket: WorkBucketStage) -> (p:
        Self)
        ensures
            p.policy_spec() == policy,
            p.buffer_spec() == buffer@,
            p.roots_spec() == roots,
            p.bucket_spec() == bucket,
    {
        Self { policy, buffer, roots, bucket }
    }

    /// Visit the slots of one object: each is buffered in `closure`, and every buffer
    /// that fills up becomes a new slot packet at the end of `packets`.
    fn visit_slots(
        &self,
        closure: &mut GCObjectsClosure,
        packets: &mut Vec<GCProcessEdges<T>>,
        slots: &Vec<Address>,
    )
        requires
            self.policy_spec().supported(),
            old(closure).buffer_spec().len() < EDGES_WORK_BUFFER_SIZE,
            old(closure).bucket_spec() == self.bucket_spec(),
            scan_packets_formed(old(packets)@, self.policy_spec(), self.bucket_spec()),
            forall|i: int|
                #![trigger old(packets)@[i]]
                0 <= i < old(packets)@.len() ==> old(packets)@[i].slots_spec().len()
                    == EDGES_WORK_BUFFER_SIZE,
        ensures
            final(closure).buffer_spec().len() < EDGES_WORK_BUFFER_SIZE,
            final(closure).bucket_spec() == self.bucket_spec(),
            scan_packets_formed(final(packets)@, self.policy_spec(), self.bucket_spec()),
            forall|i: int|
                #![trigger final(packets)@[i]]
                0 <= i < final(packets)@.len() ==> final(packets)@[i].slots_spec().len()
                    == EDGES_WORK_BUFFER_SIZE,
            packet_slots(final(packets)@) + final(closure).buffer_spec() == packet_slots(
                old(packets)@,
            ) + old(closure).buffer_spec() + slots@,
    {
        let ghost start = packet_slots(packets@) + closure.buffer_spec();
        let mut k: usize = 0;
        while k < slots.len()
            invariant
                k <= slots@.len(),
                self.policy_spec().supported(),
                closure.buffer_spec().len() < EDGES_WORK_BUFFER_SIZE,
                closure.bucket_spec() == self.bucket_spec(),
                scan_packets_formed(packets@, self.policy_spec(), self.bucket_spec()),
                forall|i: int|
                    #![trigger packets@[i]]
                    0 <= i < packets@.len() ==> packets@[i].slots_spec().len()
                        == EDGES_WORK_BUFFER_SIZE,
                packet_slots(packets@) + closure.buffer_spec() == start + slots@.take(k as int),
            decreases slots@.len() - k,
        {
            let ghost p0 = packets@;
            let ghost b0 = closure.buffer_spec();
            let slot = slots[k];
            let flushed = closure.visit_slot(slot);
            match flushed {
                Some(full) => {
                    let packet = GCProcessEdges::new(full, false, self.policy, self.bucket);
                    packets.push(packet);
                    proof {
                        assert(packets@.drop_last() =~= p0);
                        assert(packet_slots(packets@) == packet_slots(p0) + b0.push(slot));
                    }
                },
                None => {},
            }
            proof {
                assert(slots@.take(k + 1) =~= slots@.take(k as int).push(slot));
                assert(packet_slots(p0) + b0.push(slot) =~= (packet_slots(p0) + b0).push(slot));
                assert(packet_slots(packets@) + closure.buffer_spec() =~= packet_slots(p0) + b0.push(
                    slot,
                ));
            }
            k += 1;
        }
        proof {
            assert(slots@.take(slots@.len() as int) =~= slots@);
            assert(start + slots@ =~= packet_slots(old(packets)@) + old(closure).buffer_spec()
                + slots@);
        }
    }

    /// Scan the objects of the packet, in order. Those that support slot-enqueuing are
    /// scanned first: their slots, in visiting order, are cut into slot packets of at
    /// most a full buffer each. The others are scanned next, the binding tracing their
    /// edges; the objects traced for the first time become a scan packet. The policy's
    /// post-scan hook runs once after each object is scanned.
    pub fn do_work_inner<S: Scanning>(&self, scanning: &S, ctx: &mut T::Context) -> (r: (
        Vec<GCProcessEdges<T>>,
        Option<GCScanObjects<T>>,
    ))
        requires
            self.policy_spec().supported(),
        ensures
            packet_slots(r.0@) == slots_of_all(
                *scanning,
                select_objects(*scanning, self.buffer_spec(), true),
            ),
            scan_packets_formed(r.0@, self.policy_spec(), self.bucket_spec()),
            exists|mid: T::Context, q: Seq<ObjectReference>|
                {
                    &&& #[trigger] post_scanned_in_order(
                        self.policy_spec(),
                        *old(ctx),
                        select_objects(*scanning, self.buffer_spec(), true),
                        mid,
                    )
                    &&& #[trigger] edges_traced_and_post_scanned(
                        self.policy_spec(),
                        *scanning,
                        mid,
                        Seq::empty(),
                        select_objects(*scanning, self.buffer_spec(), false),
                        *final(ctx),
                        q,
                    )
                    &&& q.len() == 0 ==> r.1 is None
                    &&& q.len() > 0 ==> (r.1 matches Some(w) && w.buffer_spec() == q
                        && w.policy_spec() == self.policy_spec() && !w.roots_spec()
                        && w.bucket_spec() == self.bucket_spec())
                },
    {
        let ghost sc = *scanning;
        let ghost c0 = *ctx;
        let mut closure = GCObjectsClosure::new(self.bucket);
        let mut packets: Vec<GCProcessEdges<T>> = Vec::new();
        let mut scan_later: Vec<ObjectReference> = Vec::new();
        let mut i: usize = 0;
        proof {
            assert(packet_slots(packets@) + closure.buffer_spec() =~= Seq::<Address>::empty());
        }
        while i < self.buffer.len()
            invariant
                i <= self.buffer@.len(),
                sc == *scanning,
                self.policy_spec().supported(),
                closure.buffer_spec().len() < EDGES_WORK_BUFFER_SIZE,
                closure.bucket_spec() == self.bucket_spec(),
                scan_packets_formed(packets@, self.policy_spec(), self.bucket_spec()),
                forall|j: int|
                    #![trigger packets@[j]]
                    0 <= j < packets@.len() ==> packets@[j].slots_spec().len()
                        == EDGES_WORK_BUFFER_SIZE,
                packet_slots(packets@) + closure.buffer_spec() == slots_of_all(
                    sc,
                    select_objects(sc, self.buffer@.take(i as int), true),
                ),
                scan_later@ == select_objects(sc, self.buffer@.take(i as int), false),
                post_scanned_in_order(
                    self.policy_spec(),
                    c0,
                    select_objects(sc, self.buffer@.take(i as int), true),
                    *ctx,
                ),
            decreases self.buffer@.len() - i,
        {
            let object = self.buffer[i];
            proof {
                assert(self.buffer@.take(i + 1).drop_last() =~= self.buffer@.take(i as int));
                assert(self.buffer@.take(i + 1).last() == object);
            }
            if scanning.support_slot_enqueuing(object) {
                let slots = scanning.scan_object(object);
                self.visit_slots(&mut closure, &mut packets, &slots);
                let ghost before = *ctx;
                self.policy.post_scan_object(ctx, object);
                proof {
                    let prev = select_objects(sc, self.buffer@.take(i as int), true);
                    let next = select_objects(sc, self.buffer@.take(i + 1), true);
                    assert(next == prev.push(object));
                    assert(next.drop_last() =~= prev);
                    assert(slots_of_all(sc, next) == slots_of_all(sc, prev) + sc.object_slots(
                        object,
                    ));
                    assert(self.policy.post_scan_step(before, next.last(), *ctx));
                    assert(post_scanned_in_order(self.policy, c0, next.drop_last(), before));
                    assert(post_scanned_in_order(self.policy, c0, next, *ctx));
                }
            } else {
                scan_later.push(object);
            }
            i += 1;
        }
        proof {
            assert(self.buffer@.take(self.buffer@.len() as int) =~= self.buffer@);
        }
        let ghost p0 = packets@;
        let ghost b0 = closure.buffer_spec();
        let rest = closure.flush();
        match rest {
            Some(slots) => {
                packets.push(GCProcessEdges::new(slots, false, self.policy, self.bucket));
                proof {
                    assert(packets@.drop_last() =~= p0);
                }
            },
            None => {
                proof {
                    assert(b0 =~= Seq::<Address>::empty());
                    assert(packet_slots(p0) + b0 =~= packet_slots(p0));
                }
            },
        }
        // Objects that do not support slot-enqueuing: the binding traces their edges.
        let tracer_context = GCTracerContext { stage: self.bucket };
        let mut tracer = tracer_context.with_tracer(self.policy);
        let ghost mid = *ctx;
        let mut j: usize = 0;
        proof {
            assert(scan_later@.take(0) =~= Seq::<ObjectReference>::empty());
        }
        while j < scan_later.len()
            invariant
                j <= scan_later@.len(),
                sc == *scanning,
                self.policy_spec().supported(),
                tracer.policy_spec() == self.policy_spec(),
                tracer.stage_spec() == self.bucket_spec(),
                edges_traced_and_post_scanned(
                    self.policy_spec(),
                    sc,
                    mid,
                    Seq::empty(),
                    scan_later@.take(j as int),
                    *ctx,
                    tracer.nodes_spec(),
                ),
            decreases scan_later@.len() - j,
        {
            let object = scan_later[j];
            let ghost c1 = *ctx;
            let ghost q1 = tracer.nodes_spec();
            scanning.scan_object_and_trace_edges(object, &mut tracer, ctx);
            let ghost c2 = *ctx;
            self.policy.post_scan_object(ctx, object);
            proof {
                let next = scan_later@.take(j + 1);
                assert(next.drop_last() =~= scan_later@.take(j as int));
                assert(next.last() == object);
                assert(traced_in_order(
                    self.policy,
                    c1,
                    q1,
                    sc.object_edges(next.last()),
                    c2,
                    tracer.nodes_spec(),
                ));
                assert(self.policy.post_scan_step(c2, next.last(), *ctx));
                assert(edges_traced_and_post_scanned(
                    self.policy,
                    sc,
                    mid,
                    Seq::empty(),
                    next.drop_last(),
                    c1,
                    q1,
                ));
                assert(edges_traced_and_post_scanned(
                    self.policy,
                    sc,
                    mid,
                    Seq::empty(),
                    next,
                    *ctx,
                    tracer.nodes_spec(),
                ));
            }
            j += 1;
        }
        proof {
            assert(scan_later@.take(scan_later@.len() as int) =~= scan_later@);
        }
        let ghost q = tracer.nodes_spec();
        let scan = tracer.finish();
        proof {
            assert(post_scanned_in_order(
                self.policy,
                c0,
                select_objects(sc, self.buffer@, true),
                mid,
            ));
            assert(edges_traced_and_post_scanned(
                self.policy,
                sc,
                mid,
                Seq::empty(),
                select_objects(sc, self.buffer@, false),
                *ctx,
                q,
            ));
            assert(q.len() == 0 ==> scan is None);
            assert(q.len() > 0 ==> (scan matches Some(w) && w.buffer_spec() == q
                && w.policy_spec() == self.policy_spec() && !w.roots_spec()
                && w.bucket_spec() == self.bucket_spec()));
            assert(c0 == *old(ctx));
            assert(sc == *scanning);
            assert(self.buffer_spec() == self.buffer@);
        }
        (packets, scan)
    }

}

// ---------------------------------------------------------------------------
// GCObjectsClosure
// ---------------------------------------------------------------------------

/// A slot visitor that buffers the slots reported by object scanning and flushes them
/// as new `GCProcessEdges` packets whenever the buffer is full.
pub struct GCObjectsClosure {
    buffer: VectorQueue<Address>,
    bucket: WorkBucketStage,
}

impl GCObjectsClosure {
    /// The buffered slots.
    pub closed spec fn buffer_spec(&self) -> Seq<Address> {
        self.buffer@
    }

    /// The bucket of the packets that the closure creates.
    pub closed spec fn bucket_spec(&self) -> WorkBucketStage {
        self.bucket
    }

    /// An empty closure for the given bucket.
    pub fn new(bucket: WorkBucketStage) -> (c: Self)
        ensures
            c.buffer_spec() == Seq::<Address>::empty(),
            c.bucket_spec() == bucket,
    {
        Self { buffer: VectorQueue::new(), bucket }
    }

    /// Flush the buffered slots: they become the slots of a new packet, if there are any.
    pub fn flush(&mut self) -> (r: Option<Vec<Address>>)
        ensures
            old(self).buffer_spec().len() == 0 ==> r is None,
            old(self).buffer_spec().len() > 0 ==> (r matches Some(v) && v@ == old(
                self,
            ).buffer_spec()),
            final(self).buffer_spec() == Seq::<Address>::empty(),
            final(self).bucket_spec() == old(self).bucket_spec(),
    {
        let buf = self.buffer.take();
        if buf.len() != 0 {
            Some(buf)
        } else {
            None
        }
    }

    /// Visit one slot: buffer it, and flush the buffer as a packet once it is full.
    pub fn visit_slot(&mut self, slot: Address) -> (r: Option<Vec<Address>>)
        requires
            old(self).buffer_spec().len() < EDGES_WORK_BUFFER_SIZE,
        ensures
            old(self).buffer_spec().len() + 1 == EDGES_WORK_BUFFER_SIZE ==> {
                &&& r matches Some(v) && v@ == old(self).buffer_spec().push(slot)
                &&& final(self).buffer_spec() == Seq::<Address>::empty()
            },
            old(self).buffer_spec().len() + 1 < EDGES_WORK_BUFFER_SIZE ==> {
                &&& r is None
                &&& final(self).buffer_spec() == old(self).buffer_spec().push(slot)
            },
            final(self).buffer_spec().len() < EDGES_WORK_BUFFER_SIZE,
            final(self).bucket_spec() == old(self).bucket_spec(),
    {
        self.buffer.push(slot);
        if self.buffer.is_full() {
            self.flush()
        } else {
            None
        }
    }
}

/// Visiting slots one by one loses none and reorders none: the packets flushed along
/// the way, followed by what is left in the buffer, are the buffered slots followed by
/// the visited ones, and every flushed packet is exactly full.
pub proof fn lemma_visit_slots_preserves_order(
    c0: GCObjectsClosure,
    c1: GCObjectsClosure,
    slot: Address,
    flushed: Option<Vec<Address>>,
)
    requires
        c0.buffer_spec().len() < EDGES_WORK_BUFFER_SIZE,
        c0.buffer_spec().len() + 1 == EDGES_WORK_BUFFER_SIZE ==> {
            &&& flushed matches Some(v) && v@ == c0.buffer_spec().push(slot)
            &&& c1.buffer_spec() == Seq::<Address>::empty()
        },
        c0.buffer_spec().len() + 1 < EDGES_WORK_BUFFER_SIZE ==> {
            &&& flushed is None
            &&& c1.buffer_spec() == c0.buffer_spec().push(slot)
        },
    ensures
        (match flushed {
            Some(v) => v@,
            None => Seq::<Address>::empty(),
        }) + c1.buffer_spec() == c0.buffer_spec().push(slot),
        flushed matches Some(v) ==> v@.len() == EDGES_WORK_BUFFER_SIZE,
{
    match flushed {
        Some(v) => {
            assert(v@ + c1.buffer_spec() =~= c0.buffer_spec().push(slot));
        },
        None => {
            assert(Seq::<Address>::empty() + c1.buffer_spec() =~= c0.buffer_spec().push(slot));
        },
    }
}

// ---------------------------------------------------------------------------
// GCTracer
// ---------------------------------------------------------------------------

/// Wraps a policy and a node queue so that the binding can trace objects directly
/// (node-enqueuing scanning and weak reference processing).
pub struct GCTracer<T: TracePolicy> {
    /// Traced objects waiting to be scanned.
    nodes: VectorObjectQueue,
    /// The trace policy.
    policy: T,
    /// Which work bucket to add scan work to.
    stage: WorkBucketStage,
}

impl<T: TracePolicy> GCTracer<T> {
    /// The traced objects waiting to be scanned.
    pub closed spec fn nodes_spec(&self) -> Seq<ObjectReference> {
        self.nodes@
    }

    /// The trace policy.
    pub closed spec fn policy_spec(&self) -> T {
        self.policy
    }

    /// The bucket of the scan work that the tracer creates.
    pub closed spec fn stage_spec(&self) -> WorkBucketStage {
        self.stage
    }

    /// Forward the `trace_object` call to the policy.
    pub fn trace_object(&mut self, ctx: &mut T::Context, object: ObjectReference) -> (r:
        ObjectReference)
        requires
            old(self).policy_spec().supported(),
        ensures
            final(self).policy_spec() == old(self).policy_spec(),
            final(self).stage_spec() == old(self).stage_spec(),
            old(self).policy_spec().trace_step(
                *old(ctx),
                old(self).nodes_spec(),
                object,
                *final(ctx),
                final(self).nodes_spec(),
                r,
            ),
    {
        self.policy.trace_object(ctx, &mut self.nodes, object)
    }

    /// Finish tracing: the remaining traced objects, if any, become a `GCScanObjects`
    /// packet for the tracer's bucket.
    pub fn finish(self) -> (r: Option<GCScanObjects<T>>)
        ensures
            self.nodes_spec().len() == 0 ==> r is None,
            self.nodes_spec().len() > 0 ==> (r matches Some(w) && w.buffer_spec()
                == self.nodes_spec() && w.policy_spec() == self.policy_spec() && !w.roots_spec()
                && w.bucket_spec() == self.stage_spec()),
    {
        let nodes = self.nodes.into_vec();
        if nodes.len() != 0 {
            Some(GCScanObjects::new(self.policy, nodes, false, self.stage))
        } else {
            None
        }
    }
}

/// Creates temporary [`GCTracer`]s for a bucket.
#[derive(Clone, Copy)]
pub struct GCTracerContext {
    /// The bucket of the scan work that the tracers create.
    pub stage: WorkBucketStage,
}

impl GCTracerContext {
    /// A fresh tracer that traces with `policy`.
    pub fn with_tracer<T: TracePolicy>(&self, policy: T) -> (t: GCTracer<T>)
        ensures
            t.nodes_spec() == Seq::<ObjectReference>::empty(),
            t.policy_spec() == policy,
            t.stage_spec() == self.stage,
    {
        GCTracer { nodes: VectorObjectQueue::new(), policy, stage: self.stage }
    }
}

// ---------------------------------------------------------------------------
// Root scanning
// ---------------------------------------------------------------------------

/// Creates the work packets for the roots that the binding reports, using the default
/// trace policy for normal roots and the pinning trace policy for pinning roots.
#[derive(Clone, Copy)]
pub struct GCRootsWorkFactory<DT: TracePolicy, PT: TracePolicy> {
    default_policy: DT,
    pinning_policy: PT,
}

impl<DT: TracePolicy, PT: TracePolicy> GCRootsWorkFactory<DT, PT> {
    /// The default trace policy.
    pub closed spec fn default_spec(&self) -> DT {
        self.default_policy
    }

    /// The pinning trace policy.
    pub closed spec fn pinning_spec(&self) -> PT {
        self.pinning_policy
    }

    /// A factory using the given policies.
    pub fn new(default_policy: DT, pinning_policy: PT) -> (f: Self)
        ensures
            f.default_spec() == default_policy,
            f.pinning_spec() == pinning_policy,
    {
        Self { default_policy, pinning_policy }
    }

    /// Root slots are processed in the closure stage with the default policy.
    pub fn create_process_roots_work(&self, slots: Vec<Address>) -> (r: (
        WorkBucketStage,
        GCProcessEdges<DT>,
    ))
        requires
            self.default_spec().supported(),
        ensures
            r.0 == WorkBucketStage::Closure,
            r.1.slots_spec() == slots@,
            r.1.roots_spec(),
            r.1.policy_spec() == self.default_spec(),
            r.1.bucket_spec() == WorkBucketStage::Closure,
            r.1.nodes_spec() == Seq::<ObjectReference>::empty(),
    {
        (
            WorkBucketStage::Closure,
            GCProcessEdges::new(slots, true, self.default_policy, WorkBucketStage::Closure),
        )
    }

    /// Pinning root objects are traced (without moving) in their own stage; their
    /// children are traced with the default policy in the closure stage.
    pub fn create_process_pinning_roots_work(&self, nodes: Vec<ObjectReference>) -> (r: (
        WorkBucketStage,
        GCProcessRootNodes<PT, DT>,
    ))
        ensures
            r.0 == WorkBucketStage::PinningRootsTrace,
            r.1.roots_spec() == nodes@,
            r.1.bucket_spec() == WorkBucketStage::Closure,
            r.1.root_policy_spec() == self.pinning_spec(),
            r.1.object_policy_spec() == self.default_spec(),
    {
        (
            WorkBucketStage::PinningRootsTrace,
            GCProcessRootNodes::new(
                nodes,
                WorkBucketStage::Closure,
                self.pinning_policy,
                self.default_policy,
            ),
        )
    }

    /// Transitively pinning root objects and everything reachable from them are traced
    /// with the pinning policy in the transitive-pinning closure stage.
    pub fn create_process_tpinning_roots_work(&self, nodes: Vec<ObjectReference>) -> (r: (
        WorkBucketStage,
        GCProcessRootNodes<PT, PT>,
    ))
        ensures
            r.0 == WorkBucketStage::TPinningClosure,
            r.1.roots_spec() == nodes@,
            r.1.bucket_spec() == WorkBucketStage::TPinningClosure,
            r.1.root_policy_spec() == self.pinning_spec(),
            r.1.object_policy_spec() == self.pinning_spec(),
    {
        (
            WorkBucketStage::TPinningClosure,
            GCProcessRootNodes::new(
                nodes,
                WorkBucketStage::TPinningClosure,
                self.pinning_policy,
                self.pinning_policy,
            ),
        )
    }
}

/// Whether tracing `objects` in order with `policy`, from the context `ctx0` and the
/// queue `queue0`, can end with the context `ctx1` and the queue `queue1`.
pub open spec fn traced_in_order<T: TracePolicy>(
    policy: T,
    ctx0: T::Context,
    queue0: Seq<ObjectReference>,
    objects: Seq<ObjectReference>,
    ctx1: T::Context,
    queue1: Seq<ObjectReference>,
) -> bool
    decreases objects.len(),
{
    if objects.len() == 0 {
        ctx1 == ctx0 && queue1 == queue0
    } else {
        exists|c: T::Context, q: Seq<ObjectReference>, r: ObjectReference|
            #![trigger policy.trace_step(c, q, objects.last(), ctx1, queue1, r)]
            traced_in_order(policy, ctx0, queue0, objects.drop_last(), c, q)
                && policy.trace_step(c, q, objects.last(), ctx1, queue1, r)
    }
}

/// Process root nodes: the root objects are traced with the root-to-object policy
/// (they must not move), and the objects traced for the first time are scanned with
/// the object-to-object policy.
pub struct GCProcessRootNodes<R2OT: TracePolicy, O2OT: TracePolicy> {
    roots: Vec<ObjectReference>,
    bucket: WorkBucketStage,
    root_policy: R2OT,
    object_policy: O2OT,
}

impl<R2OT: TracePolicy, O2OT: TracePolicy> GCProcessRootNodes<R2OT, O2OT> {
    /// The root objects.
    pub closed spec fn roots_spec(&self) -> Seq<ObjectReference> {
        self.roots@
    }

    /// The bucket of the scan work.
    pub closed spec fn bucket_spec(&self) -> WorkBucketStage {
        self.bucket
    }

    /// The policy that traces the roots.
    pub closed spec fn root_policy_spec(&self) -> R2OT {
        self.root_policy
    }

    /// The policy that traces the children of the roots.
    pub closed spec fn object_policy_spec(&self) -> O2OT {
        self.object_policy
    }

    /// A packet for the given root objects.
    pub fn new(
        nodes: Vec<ObjectReference>,
        bucket: WorkBucketStage,
        root_policy: R2OT,
        object_policy: O2OT,
    ) -> (p: Self)
        ensures
            p.roots_spec() == nodes@,
            p.bucket_spec() == bucket,
            p.root_policy_spec() == root_policy,
            p.object_policy_spec() == object_policy,
    {
        Self { roots: nodes, bucket, root_policy, object_policy }
    }

    /// The scan packet for the root objects that tracing enqueued: none if there are
    /// none, else a packet that scans them with the object policy in the packet's bucket.
    pub fn scan_root_objects(&self, nodes: Vec<ObjectReference>) -> (r: Option<GCScanObjects<O2OT>>)
        ensures
            nodes@.len() == 0 ==> r is None,
            nodes@.len() > 0 ==> (r matches Some(w) && w.buffer_spec() == nodes@ && w.policy_spec()
                == self.object_policy_spec() && !w.roots_spec() && w.bucket_spec()
                == self.bucket_spec()),
    {
        if nodes.len() != 0 {
            Some(GCScanObjects::new(self.object_policy, nodes, false, self.bucket))
        } else {
            None
        }
    }

    /// Trace every root object, in order, with the root policy; the objects that tracing
    /// enqueued become the scan packet of `scan_root_objects`.
    pub fn do_work(&self, ctx: &mut R2OT::Context) -> (r: Option<GCScanObjects<O2OT>>)
        requires
            self.root_policy_spec().supported(),
        ensures
            r matches Some(w) ==> w.buffer_spec().len() > 0 && w.policy_spec()
                == self.object_policy_spec() && !w.roots_spec() && w.bucket_spec()
                == self.bucket_spec(),
            exists|q: Seq<ObjectReference>|
                {
                    &&& traced_in_order(
                        self.root_policy_spec(),
                        *old(ctx),
                        Seq::empty(),
                        self.roots_spec(),
                        *final(ctx),
                        q,
                    )
                    &&& q.len() == 0 ==> r is None
                    &&& q.len() > 0 ==> (r matches Some(w) && w.buffer_spec() == q
                        && w.policy_spec() == self.object_policy_spec() && !w.roots_spec()
                        && w.bucket_spec() == self.bucket_spec())
                },
    {
        let ghost c0 = *ctx;
        let mut nodes = VectorObjectQueue::new();
        let mut i: usize = 0;
        while i < self.roots.len()
            invariant
                self.root_policy.supported(),
                i <= self.roots@.len(),
                traced_in_order(self.root_policy, c0, Seq::empty(), self.roots@.take(i as int), *ctx, nodes@),
            decreases self.roots@.len() - i,
        {
            let object = self.roots[i];
            let ghost c = *ctx;
            let ghost q = nodes@;
            let new_object = self.root_policy.trace_object(ctx, &mut nodes, object);
            proof {
                let t = self.roots@.take(i + 1);
                assert(t.drop_last() =~= self.roots@.take(i as int));
                assert(t.last() == object);
                assert(self.root_policy.trace_step(c, q, t.last(), *ctx, nodes@, new_object));
            }
            i += 1;
        }
        proof {
            assert(self.roots@.take(self.roots@.len() as int) =~= self.roots@);
        }
        let ghost q_end = nodes@;
        let traced = nodes.take();
        let r = self.scan_root_objects(traced);
        assert(traced_in_order(self.root_policy, c0, Seq::empty(), self.roots@, *ctx, q_end));
        r
    }
}

// ---------------------------------------------------------------------------
// Scheduling work packets
// ---------------------------------------------------------------------------

/// The progress of a collection.
#[derive(Clone, Copy, Debug, PartialEq, Eq, Structural)]
pub enum GcStatus {
    /// No collection is running.
    NotInGC,
    /// The collection is preparing.
    GcPrepare,
    /// The collection proper (after the stacks are scanned).
    GcProper,
}

/// The work packets that the scheduling packets create. Mutators are named by their
/// index among the binding's mutators.
#[derive(Clone, Copy, Debug, PartialEq, Eq, Structural)]
pub enum WorkPacket {
    /// Prepare one mutator.
    PrepareMutator(usize),
    /// Prepare one collector (GC worker).
    PrepareCollector,
    /// Release one mutator.
    ReleaseMutator(usize),
    /// Release one collector (GC worker).
    ReleaseCollector,
    /// Scan the roots of one mutator.
    ScanMutatorRoots(usize),
    /// Scan the roots that the binding keeps outside mutators.
    ScanVMSpecificRoots,
    /// Let the binding process weak references again.
    VMProcessWeakRefs,
}

/// What a scheduling packet asks the collector, the plan, the binding or the scheduler
/// to do, in order.
#[derive(Clone, Copy, Debug, PartialEq, Eq, Structural)]
pub enum GcAction {
    /// Tell the GC trigger that a collection starts.
    OnGcStart,
    /// Tell the GC trigger that a collection releases.
    OnGcRelease,
    /// Tell the plan that this is an emergency collection.
    NotifyEmergencyCollection,
    /// Set the collection status.
    SetGcStatus(GcStatus),
    /// Let the plan schedule the work of the collection.
    PlanScheduleCollection,
    /// Prepare the plan.
    PlanPrepare,
    /// Release the plan.
    PlanRelease,
    /// Prepare the plan's state of the current worker.
    PlanPrepareWorker,
    /// Prepare the copy context of the current worker.
    CopyContextPrepare,
    /// Release the copy context of the current worker.
    CopyContextRelease,
    /// Prepare a mutator.
    MutatorPrepare(usize),
    /// Release a mutator.
    MutatorRelease(usize),
    /// Flush a mutator.
    MutatorFlush(usize),
    /// Get the global state ready for stack scanning.
    PrepareForStackScanning,
    /// Let the binding stop all mutators.
    StopAllMutators,
    /// Tell the plan and the scheduler that the mutators are paused.
    NotifyMutatorsPaused,
    /// Let the binding scan the roots in a mutator's thread.
    ScanRootsInMutatorThread(usize),
    /// Tell the binding that the initial scan of all thread stacks is complete.
    NotifyInitialThreadScanComplete,
    /// Let the binding scan its own roots.
    ScanVMSpecificRoots,
    /// Let the binding process weak references, tracing in the given stage.
    ProcessWeakRefs(WorkBucketStage),
    /// Let the binding forward weak references, tracing in the given stage.
    ForwardWeakRefs(WorkBucketStage),
    /// Let the binding finish after forwarding.
    PostForwarding,
    /// Add a packet to a bucket.
    AddWork(WorkBucketStage, WorkPacket),
    /// Add a packet to the designated queue of a worker.
    AddDesignatedWork(usize, WorkPacket),
    /// Make a packet the sentinel of a bucket.
    SetSentinel(WorkBucketStage, WorkPacket),
    /// Set the unlog bits of the objects in the common plan's spaces.
    SetCommonSideLogBits,
    /// Clear the unlog bits of the objects in the common plan's spaces.
    ClearCommonSideLogBits,
    /// Reset the scheduler's state for another round of work.
    ResetSchedulerState,
    /// Enter sanity-checking mode.
    SanityBegin,
    /// Leave sanity-checking mode.
    SanityEnd,
}

/// One packet per mutator in a bucket, in mutator order.
pub open spec fn per_mutator_work(
    bucket: WorkBucketStage,
    mutators: Seq<usize>,
    prepare: bool,
) -> Seq<GcAction> {
    Seq::new(
        mutators.len(),
        |i: int|
            GcAction::AddWork(
                bucket,
                if prepare {
                    WorkPacket::PrepareMutator(mutators[i])
                } else {
                    WorkPacket::ReleaseMutator(mutators[i])
                },
            ),
    )
}

/// One designated packet per worker, in worker order.
pub open spec fn per_worker_work(num_workers: nat, prepare: bool) -> Seq<GcAction> {
    Seq::new(
        num_workers,
        |w: int|
            GcAction::AddDesignatedWork(
                w as usize,
                if prepare {
                    WorkPacket::PrepareCollector
                } else {
                    WorkPacket::ReleaseCollector
                },
            ),
    )
}

/// Append one packet per mutator to `actions`.
fn push_per_mutator_work(
    actions: &mut Vec<GcAction>,
    bucket: WorkBucketStage,
    mutators: &Vec<usize>,
    prepare: bool,
)
    ensures
        final(actions)@ == old(actions)@ + per_mutator_work(bucket, mutators@, prepare),
{
    let ghost a0 = actions@;
    let mut i: usize = 0;
    while i < mutators.len()
        invariant
            i <= mutators@.len(),
            actions@ == a0 + per_mutator_work(bucket, mutators@.take(i as int), prepare),
        decreases mutators@.len() - i,
    {
        let m = mutators[i];
        let packet = if prepare {
            WorkPacket::PrepareMutator(m)
        } else {
            WorkPacket::ReleaseMutator(m)
        };
        actions.push(GcAction::AddWork(bucket, packet));
        assert(per_mutator_work(bucket, mutators@.take(i + 1), prepare) =~= per_mutator_work(
            bucket,
            mutators@.take(i as int),
            prepare,
        ).push(GcAction::AddWork(bucket, packet)));
        i += 1;
    }
    assert(mutators@.take(mutators@.len() as int) =~= mutators@);
}

/// Append one designated packet per worker to `actions`.
fn push_per_worker_work(actions: &mut Vec<GcAction>, num_workers: usize, prepare: bool)
    ensures
        final(actions)@ == old(actions)@ + per_worker_work(num_workers as nat, prepare),
{
    let ghost a0 = actions@;
    let mut w: usize = 0;
    while w < num_workers
        invariant
            w <= num_workers,
            actions@ == a0 + per_worker_work(w as nat, prepare),
        decreases num_workers - w,
    {
        let packet = if prepare {
            WorkPacket::PrepareCollector
        } else {
            WorkPacket::ReleaseCollector
        };
        actions.push(GcAction::AddDesignatedWork(w, packet));
        assert(per_worker_work((w + 1) as nat, prepare) =~= per_worker_work(w as nat, prepare).push(
            GcAction::AddDesignatedWork(w, packet),
        ));
        w += 1;
    }
}

/// The first packet of a collection: it starts the collection and lets the plan
/// schedule its work.
pub struct ScheduleCollection;

impl ScheduleCollection {
    /// The actions of the packet, given whether the collection kind determined after
    /// the GC trigger was told of the start is an emergency.
    pub fn do_work(&self, is_emergency: bool) -> (r: Vec<GcAction>)
        ensures
            r@ == seq![GcAction::OnGcStart] + (if is_emergency {
                seq![GcAction::NotifyEmergencyCollection]
            } else {
                Seq::empty()
            }) + seq![GcAction::SetGcStatus(GcStatus::GcPrepare), GcAction::PlanScheduleCollection],
    {
        let mut r: Vec<GcAction> = Vec::new();
        r.push(GcAction::OnGcStart);
        if is_emergency {
            r.push(GcAction::NotifyEmergencyCollection);
        }
        r.push(GcAction::SetGcStatus(GcStatus::GcPrepare));
        r.push(GcAction::PlanScheduleCollection);
        proof {
            if is_emergency {
                assert(r@ =~= seq![GcAction::OnGcStart] + seq![
                    GcAction::NotifyEmergencyCollection,
                ] + seq![
                    GcAction::SetGcStatus(GcStatus::GcPrepare),
                    GcAction::PlanScheduleCollection,
                ]);
            } else {
                assert(r@ =~= seq![GcAction::OnGcStart] + Seq::<GcAction>::empty() + seq![
                    GcAction::SetGcStatus(GcStatus::GcPrepare),
                    GcAction::PlanScheduleCollection,
                ]);
            }
        }
        r
    }
}

/// The global GC preparation work: it prepares the plan, then the mutators (if the
/// plan asks for it) and every collector.
pub struct Prepare {
    /// The plan to prepare.
    pub plan: OpaquePointer,
}

impl Prepare {
    /// The packet that prepares `plan`.
    pub fn new(plan: OpaquePointer) -> (p: Self)
        ensures
            p.plan == plan,
    {
        Self { plan }
    }

    /// The actions of the packet, for the given mutators and number of workers.
    pub fn do_work(
        &self,
        needs_prepare_mutator: bool,
        mutators: &Vec<usize>,
        num_workers: usize,
    ) -> (r: Vec<GcAction>)
        ensures
            r@ == seq![GcAction::PlanPrepare] + (if needs_prepare_mutator {
                per_mutator_work(WorkBucketStage::Prepare, mutators@, true)
            } else {
                Seq::empty()
            }) + per_worker_work(num_workers as nat, true),
    {
        let mut r: Vec<GcAction> = Vec::new();
        r.push(GcAction::PlanPrepare);
        if needs_prepare_mutator {
            push_per_mutator_work(&mut r, WorkBucketStage::Prepare, mutators, true);
        }
        let ghost mid = r@;
        push_per_worker_work(&mut r, num_workers, true);
        proof {
            if !needs_prepare_mutator {
                assert(mid =~= seq![GcAction::PlanPrepare] + Seq::<GcAction>::empty());
            }
        }
        r
    }
}

/// The mutator GC preparation work.
pub struct PrepareMutator {
    /// The mutator to prepare.
    pub mutator: usize,
}

impl PrepareMutator {
    /// The packet that prepares `mutator`.
    pub fn new(mutator: usize) -> (p: Self)
        ensures
            p.mutator == mutator,
    {
        Self { mutator }
    }

    /// The actions of the packet.
    pub fn do_work(&self) -> (r: Vec<GcAction>)
        ensures
            r@ == seq![GcAction::MutatorPrepare(self.mutator)],
    {
        let mut r: Vec<GcAction> = Vec::new();
        r.push(GcAction::MutatorPrepare(self.mutator));
        r
    }
}

/// The collector GC preparation work.
pub struct PrepareCollector;

impl PrepareCollector {
    /// The actions of the packet.
    pub fn do_work(&self) -> (r: Vec<GcAction>)
        ensures
            r@ == seq![GcAction::CopyContextPrepare, GcAction::PlanPrepareWorker],
    {
        let mut r: Vec<GcAction> = Vec::new();
        r.push(GcAction::CopyContextPrepare);
        r.push(GcAction::PlanPrepareWorker);
        r
    }
}

/// The global GC release work: it releases the plan, then every mutator and every
/// collector.
pub struct Release {
    /// The plan to release.
    pub plan: OpaquePointer,
}

impl Release {
    /// The packet that releases `plan`.
    pub fn new(plan: OpaquePointer) -> (p: Self)
        ensures
            p.plan == plan,
    {
        Self { plan }
    }

    /// The actions of the packet, for the given mutators and number of workers.
    pub fn do_work(&self, mutators: &Vec<usize>, num_workers: usize) -> (r: Vec<GcAction>)
        ensures
            r@ == seq![GcAction::OnGcRelease, GcAction::PlanRelease] + per_mutator_work(
                WorkBucketStage::Release,
                mutators@,
                false,
            ) + per_worker_work(num_workers as nat, false),
    {
        let mut r: Vec<GcAction> = Vec::new();
        r.push(GcAction::OnGcRelease);
        r.push(GcAction::PlanRelease);
        proof {
            assert(r@ =~= seq![GcAction::OnGcRelease, GcAction::PlanRelease]);
        }
        push_per_mutator_work(&mut r, WorkBucketStage::Release, mutators, false);
        push_per_worker_work(&mut r, num_workers, false);
        r
    }
}

/// The mutator release work.
pub struct ReleaseMutator {
    /// The mutator to release.
    pub mutator: usize,
}

impl ReleaseMutator {
    /// The packet that releases `mutator`.
    pub fn new(mutator: usize) -> (p: Self)
        ensures
            p.mutator == mutator,
    {
        Self { mutator }
    }

    /// The actions of the packet.
    pub fn do_work(&self) -> (r: Vec<GcAction>)
        ensures
            r@ == seq![GcAction::MutatorRelease(self.mutator)],
    {
        let mut r: Vec<GcAction> = Vec::new();
        r.push(GcAction::MutatorRelease(self.mutator));
        r
    }
}

/// The collector release work.
pub struct ReleaseCollector;

impl ReleaseCollector {
    /// The actions of the packet.
    pub fn do_work(&self) -> (r: Vec<GcAction>)
        ensures
            r@ == seq![GcAction::CopyContextRelease],
    {
        let mut r: Vec<GcAction> = Vec::new();
        r.push(GcAction::CopyContextRelease);
        r
    }
}

/// The actions for one stopped mutator: flush it, and scan its roots.
pub open spec fn stopped_mutator_actions(flush_mutator: bool, skip_mutator_roots: bool, m: usize) -> Seq<
    GcAction,
> {
    (if flush_mutator {
        seq![GcAction::MutatorFlush(m)]
    } else {
        Seq::empty()
    }) + (if !skip_mutator_roots {
        seq![GcAction::AddWork(WorkBucketStage::Prepare, WorkPacket::ScanMutatorRoots(m))]
    } else {
        Seq::empty()
    })
}

/// The actions for the stopped mutators, in mutator order.
pub open spec fn stopped_mutators_actions(
    flush_mutator: bool,
    skip_mutator_roots: bool,
    mutators: Seq<usize>,
) -> Seq<GcAction>
    decreases mutators.len(),
{
    if mutators.len() == 0 {
        Seq::empty()
    } else {
        stopped_mutators_actions(flush_mutator, skip_mutator_roots, mutators.drop_last())
            + stopped_mutator_actions(flush_mutator, skip_mutator_roots, mutators.last())
    }
}

/// Stop all mutators.
pub struct StopMutators {
    /// If this is true, no `ScanMutatorRoots` packets are created for the mutators.
    skip_mutator_roots: bool,
    /// Flush mutators once they are stopped.
    flush_mutator: bool,
}

impl StopMutators {
    /// Whether no `ScanMutatorRoots` packets are created.
    pub closed spec fn skips_mutator_roots(&self) -> bool {
        self.skip_mutator_roots
    }

    /// Whether mutators are flushed once stopped.
    pub closed spec fn flushes_mutator(&self) -> bool {
        self.flush_mutator
    }

    /// The packet that stops the mutators and scans their roots.
    pub fn new() -> (p: Self)
        ensures
            !p.skips_mutator_roots(),
            !p.flushes_mutator(),
    {
        Self { skip_mutator_roots: false, flush_mutator: false }
    }

    /// The packet that stops the mutators and flushes them, without scanning their roots.
    pub fn new_no_scan_roots() -> (p: Self)
        ensures
            p.skips_mutator_roots(),
            p.flushes_mutator(),
    {
        Self { skip_mutator_roots: true, flush_mutator: true }
    }

    /// The actions of the packet, for the mutators that the binding stops.
    pub fn do_work(&self, mutators: &Vec<usize>) -> (r: Vec<GcAction>)
        ensures
            r@ == seq![GcAction::PrepareForStackScanning, GcAction::StopAllMutators]
                + stopped_mutators_actions(
                self.flushes_mutator(),
                self.skips_mutator_roots(),
                mutators@,
            ) + seq![
                GcAction::NotifyMutatorsPaused,
                GcAction::AddWork(WorkBucketStage::Prepare, WorkPacket::ScanVMSpecificRoots),
            ],
    {
        let mut r: Vec<GcAction> = Vec::new();
        r.push(GcAction::PrepareForStackScanning);
        r.push(GcAction::StopAllMutators);
        let ghost head = r@;
        let mut i: usize = 0;
        while i < mutators.len()
            invariant
                i <= mutators@.len(),
                head == seq![GcAction::PrepareForStackScanning, GcAction::StopAllMutators],
                r@ == head + stopped_mutators_actions(
                    self.flush_mutator,
                    self.skip_mutator_roots,
                    mutators@.take(i as int),
                ),
            decreases mutators@.len() - i,
        {
            let m = mutators[i];
            let ghost before = r@;
            if self.flush_mutator {
                r.push(GcAction::MutatorFlush(m));
            }
            if !self.skip_mutator_roots {
                r.push(GcAction::AddWork(WorkBucketStage::Prepare, WorkPacket::ScanMutatorRoots(m)));
            }
            assert(mutators@.take(i + 1).drop_last() =~= mutators@.take(i as int));
            assert(r@ =~= before + stopped_mutator_actions(
                self.flush_mutator,
                self.skip_mutator_roots,
                m,
            ));
            i += 1;
        }
        assert(mutators@.take(mutators@.len() as int) =~= mutators@);
        r.push(GcAction::NotifyMutatorsPaused);
        r.push(GcAction::AddWork(WorkBucketStage::Prepare, WorkPacket::ScanVMSpecificRoots));
        r
    }
}

/// Delegate weak reference processing to the binding.
pub struct VMProcessWeakRefs;

impl VMProcessWeakRefs {
    /// The packet.
    pub fn new() -> (p: Self) {
        VMProcessWeakRefs
    }

    /// The actions of the packet, given whether the binding asked to process weak
    /// references again after the current transitive closure.
    pub fn do_work(&self, need_to_repeat: bool) -> (r: Vec<GcAction>)
        ensures
            r@ == seq![GcAction::ProcessWeakRefs(WorkBucketStage::VMRefClosure)] + (if need_to_repeat {
                seq![
                    GcAction::SetSentinel(
                        WorkBucketStage::VMRefClosure,
                        WorkPacket::VMProcessWeakRefs,
                    ),
                ]
            } else {
                Seq::empty()
            }),
    {
        let mut r: Vec<GcAction> = Vec::new();
        r.push(GcAction::ProcessWeakRefs(WorkBucketStage::VMRefClosure));
        if need_to_repeat {
            r.push(GcAction::SetSentinel(WorkBucketStage::VMRefClosure, WorkPacket::VMProcessWeakRefs));
        }
        proof {
            if need_to_repeat {
                assert(r@ =~= seq![GcAction::ProcessWeakRefs(WorkBucketStage::VMRefClosure)] + seq![
                    GcAction::SetSentinel(
                        WorkBucketStage::VMRefClosure,
                        WorkPacket::VMProcessWeakRefs,
                    ),
                ]);
            } else {
                assert(r@ =~= seq![GcAction::ProcessWeakRefs(WorkBucketStage::VMRefClosure)]
                    + Seq::<GcAction>::empty());
            }
        }
        r
    }
}

/// Delegate forwarding of weak references to the binding.
pub struct VMForwardWeakRefs;

impl VMForwardWeakRefs {
    /// The packet.
    pub fn new() -> (p: Self) {
        VMForwardWeakRefs
    }

    /// The actions of the packet.
    pub fn do_work(&self) -> (r: Vec<GcAction>)
        ensures
            r@ == seq![GcAction::ForwardWeakRefs(WorkBucketStage::VMRefForwarding)],
    {
        let mut r: Vec<GcAction> = Vec::new();
        r.push(GcAction::ForwardWeakRefs(WorkBucketStage::VMRefForwarding));
        r
    }
}

/// Let the binding finish after forwarding.
pub struct VMPostForwarding;

impl VMPostForwarding {
    /// The actions of the packet.
    pub fn do_work(&self) -> (r: Vec<GcAction>)
        ensures
            r@ == seq![GcAction::PostForwarding],
    {
        let mut r: Vec<GcAction> = Vec::new();
        r.push(GcAction::PostForwarding);
        r
    }
}

/// Scan the roots of one mutator.
pub struct ScanMutatorRoots(pub usize);

impl ScanMutatorRoots {
    /// The actions of the packet, given whether this was the last mutator whose stack
    /// was still to be scanned.
    pub fn do_work(&self, all_stacks_scanned: bool) -> (r: Vec<GcAction>)
        ensures
            r@ == seq![GcAction::ScanRootsInMutatorThread(self.0), GcAction::MutatorFlush(self.0)]
                + (if all_stacks_scanned {
                seq![
                    GcAction::NotifyInitialThreadScanComplete,
                    GcAction::SetGcStatus(GcStatus::GcProper),
                ]
            } else {
                Seq::empty()
            }),
    {
        let mut r: Vec<GcAction> = Vec::new();
        r.push(GcAction::ScanRootsInMutatorThread(self.0));
        r.push(GcAction::MutatorFlush(self.0));
        let ghost head = r@;
        if all_stacks_scanned {
            r.push(GcAction::NotifyInitialThreadScanComplete);
            r.push(GcAction::SetGcStatus(GcStatus::GcProper));
        }
        proof {
            if all_stacks_scanned {
                assert(r@ =~= head + seq![
                    GcAction::NotifyInitialThreadScanComplete,
                    GcAction::SetGcStatus(GcStatus::GcProper),
                ]);
            } else {
                assert(r@ =~= head + Seq::<GcAction>::empty());
            }
        }
        r
    }
}

/// Scan the roots that the binding keeps outside mutators.
pub struct ScanVMSpecificRoots;

impl ScanVMSpecificRoots {
    /// The packet.
    pub fn new() -> (p: Self) {
        ScanVMSpecificRoots
    }

    /// The actions of the packet.
    pub fn do_work(&self) -> (r: Vec<GcAction>)
        ensures
            r@ == seq![GcAction::ScanVMSpecificRoots],
    {
        let mut r: Vec<GcAction> = Vec::new();
        r.push(GcAction::ScanVMSpecificRoots);
        r
    }
}

} // verus!
