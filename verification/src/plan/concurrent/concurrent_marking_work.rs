use vstd::prelude::*;

use super::Pause;
use crate::plan::tracing::{appended, ObjectQueue, SlotIterator, VectorQueue, EDGES_WORK_BUFFER_SIZE};
use crate::policy::gc_work::{PolicyTraceObject, TraceKind};
use crate::scheduler::gc_work::load_slot;
use crate::util::address::{Address, ObjectReference};
use crate::util::metadata::side_metadata::SideTable;
use crate::vm::Scanning;

verus! {

broadcast use {
    ObjectReference::lemma_from_value,
    ObjectReference::lemma_value_injective,
    Seq::lemma_flatten_push,
};

/// The size beyond which the buffer of objects found by concurrent marking is flushed
/// as a new packet.
pub const SATB_BUFFER_SIZE: usize = 8192;

/// Whether concurrent marking may keep draining the objects it found itself: only in
/// the final-mark pause, or outside any pause.
pub open spec fn may_drain(pause: Option<Pause>) -> bool {
    pause == Some(Pause::FinalMark) || pause is None
}

/// Whether tracing `object` with `plan` and the trace kind `K` can enqueue exactly
/// `enqueued`, whatever reference it gives back.
pub open spec fn traced_enqueues<P: PolicyTraceObject, K: TraceKind>(
    plan: P,
    object: ObjectReference,
    enqueued: Seq<ObjectReference>,
) -> bool {
    exists|res: ObjectReference| #[trigger] plan.trace_result::<K>(object, res, enqueued)
}

/// Concurrent marking: marks a batch of objects, scans the ones marked for the first
/// time, and keeps the objects found in their fields for more marking.
pub struct ConcurrentTraceObjects<P: PolicyTraceObject + Copy, K: TraceKind> {
    plan: P,
    kind: K,
    // objects to mark and scan
    objects: Option<Vec<ObjectReference>>,
    // recursively generated objects
    next_objects: VectorQueue<ObjectReference>,
}

/// The object queue that marking hands to the plan: it collects the objects marked for
/// the first time, which are then scanned.
pub struct ConcurrentTraceObjectsTracer {
    enqueued: Vec<ObjectReference>,
}

impl ConcurrentTraceObjectsTracer {
    /// The objects enqueued so far.
    pub closed spec fn enqueued_spec(&self) -> Seq<ObjectReference> {
        self.enqueued@
    }
}

impl ObjectQueue for ConcurrentTraceObjectsTracer {
    open spec fn queued(&self) -> Seq<ObjectReference> {
        self.enqueued_spec()
    }

    fn enqueue(&mut self, object: ObjectReference)
        ensures
            final(self).enqueued_spec() == old(self).enqueued_spec().push(object),
    {
        self.enqueued.push(object);
    }
}

impl<P: PolicyTraceObject + Copy, K: TraceKind> ConcurrentTraceObjects<P, K> {
    /// The plan that marks the objects.
    pub closed spec fn plan_spec(&self) -> P {
        self.plan
    }

    /// The objects still to mark in the first round.
    pub closed spec fn objects_spec(&self) -> Option<Seq<ObjectReference>> {
        match self.objects {
            Some(v) => Some(v@),
            None => None,
        }
    }

    /// The objects found in the fields of scanned objects.
    pub closed spec fn next_objects_spec(&self) -> Seq<ObjectReference> {
        self.next_objects@
    }

    /// A packet that marks `objects` with `plan`.
    pub fn new(objects: Vec<ObjectReference>, plan: P, kind: K) -> (w: Self)
        ensures
            w.plan_spec() == plan,
            w.objects_spec() == Some(objects@),
            w.next_objects_spec() == Seq::<ObjectReference>::empty(),
    {
        Self { plan, kind, objects: Some(objects), next_objects: VectorQueue::default() }
    }

    /// Flush the found objects, if any, as a new packet for the concurrent bucket.
    pub fn flush(&mut self) -> (r: Option<ConcurrentTraceObjects<P, K>>)
        ensures
            old(self).next_objects_spec().len() == 0 ==> r is None,
            old(self).next_objects_spec().len() > 0 ==> (r matches Some(w) && w.objects_spec()
                == Some(old(self).next_objects_spec()) && w.plan_spec() == old(self).plan_spec()
                && w.next_objects_spec().len() == 0),
            final(self).next_objects_spec() == Seq::<ObjectReference>::empty(),
            final(self).plan_spec() == old(self).plan_spec(),
            final(self).objects_spec() == old(self).objects_spec(),
    {
        if !self.next_objects.is_empty() {
            let objects = self.next_objects.take();
            Some(Self::new(objects, self.plan, self.kind))
        } else {
            None
        }
    }

    /// Mark one object with the plan; returns the object and the objects that the plan
    /// marked for the first time, which are to be scanned. No object is copied.
    pub fn trace_object(&mut self, object: ObjectReference) -> (r: (
        ObjectReference,
        Vec<ObjectReference>,
    ))
        ensures
            r.0 == object,
            traced_enqueues::<P, K>(old(self).plan_spec(), object, r.1@),
            final(self).plan_spec() == old(self).plan_spec(),
            final(self).next_objects_spec() == old(self).next_objects_spec(),
            final(self).objects_spec() == old(self).objects_spec(),
    {
        let mut tracer = ConcurrentTraceObjectsTracer { enqueued: Vec::new() };
        let new_object = self.plan.trace_object::<ConcurrentTraceObjectsTracer, K>(
            &mut tracer,
            object,
        );
        let enqueued = tracer.enqueued;
        proof {
            assert(appended(Seq::empty(), enqueued@) =~= enqueued@);
            assert(self.plan_spec().trace_result::<K>(object, new_object, enqueued@));
            assert(traced_enqueues::<P, K>(self.plan_spec(), object, enqueued@));
        }
        (object, enqueued)
    }

    /// Take the objects to mark in the first round.
    pub fn take_objects(&mut self) -> (r: Option<Vec<ObjectReference>>)
        ensures
            old(self).objects_spec() matches Some(s) ==> (r matches Some(v) && v@ == s),
            old(self).objects_spec() is None ==> r is None,
            final(self).objects_spec() is None,
            final(self).plan_spec() == old(self).plan_spec(),
            final(self).next_objects_spec() == old(self).next_objects_spec(),
    {
        self.objects.take()
    }

    /// Record the fields of a scanned object: each non-empty field's object is kept for
    /// more marking; whenever more than `SATB_BUFFER_SIZE` objects are kept, they are
    /// flushed as a new packet. Returns the flushed packets, in order.
    pub fn scan_and_enqueue(&mut self, fields: &Vec<Option<ObjectReference>>) -> (r: Vec<
        ConcurrentTraceObjects<P, K>,
    >)
        requires
            old(self).next_objects_spec().len() <= SATB_BUFFER_SIZE,
        ensures
            flushed_objects(r@) + final(self).next_objects_spec() == old(self).next_objects_spec()
                + present_fields(fields@),
            final(self).next_objects_spec().len() <= SATB_BUFFER_SIZE,
            forall|i: int|
                0 <= i < r@.len() ==> (#[trigger] r@[i]).plan_spec() == old(self).plan_spec()
                    && r@[i].objects_spec() is Some && r@[i].objects_spec().unwrap().len()
                    == SATB_BUFFER_SIZE + 1,
            final(self).plan_spec() == old(self).plan_spec(),
            final(self).objects_spec() == old(self).objects_spec(),
    {
        let mut flushed: Vec<ConcurrentTraceObjects<P, K>> = Vec::new();
        let mut i: usize = 0;
        while i < fields.len()
            invariant
                i <= fields@.len(),
                self.plan == old(self).plan,
                self.objects_spec() == old(self).objects_spec(),
                self.next_objects@.len() <= SATB_BUFFER_SIZE,
                flushed_objects(flushed@) + self.next_objects@ == old(self).next_objects@
                    + present_fields(fields@.take(i as int)),
                forall|j: int|
                    0 <= j < flushed@.len() ==> (#[trigger] flushed@[j]).plan_spec() == self.plan
                        && flushed@[j].objects_spec() is Some
                        && flushed@[j].objects_spec().unwrap().len() == SATB_BUFFER_SIZE + 1,
            decreases fields@.len() - i,
        {
            assert(fields@.take(i + 1).drop_last() =~= fields@.take(i as int));
            assert(fields@.take(i + 1).last() == fields@[i as int]);
            let ghost pf0 = present_fields(fields@.take(i as int));
            let ghost before_f = flushed@;
            let ghost before_n = self.next_objects@;
            match fields[i] {
                None => {
                    assert(present_fields(fields@.take(i + 1)) == pf0);
                },
                Some(t) => {
                    assert(present_fields(fields@.take(i + 1)) == pf0.push(t));
                    self.next_objects.push(t);
                    assert(flushed_objects(before_f) + before_n == old(self).next_objects@ + pf0);
                    assert((flushed_objects(before_f) + before_n).push(t) =~= flushed_objects(
                        before_f,
                    ) + before_n.push(t));
                    assert((old(self).next_objects@ + pf0).push(t) =~= old(self).next_objects@
                        + pf0.push(t));
                    if self.next_objects.len() > SATB_BUFFER_SIZE {
                        let ghost full = self.next_objects@;
                        let w = self.flush();
                        match w {
                            Some(w) => {
                                flushed.push(w);
                                proof {
                                    lemma_flushed_objects_push(before_f, w);
                                    assert(flushed@ =~= before_f.push(w));
                                    assert(flushed_objects(flushed@) + self.next_objects@
                                        =~= flushed_objects(before_f) + full);
                                }
                            },
                            None => {},
                        }
                    }
                },
            }
            i += 1;
        }
        assert(fields@.take(fields@.len() as int) =~= fields@);
        flushed
    }

    /// The next batch of found objects to mark in this packet, if marking may go on in
    /// the current pause and objects were found.
    pub fn next_batch(&mut self, pause: Option<Pause>) -> (r: Option<Vec<ObjectReference>>)
        ensures
            may_drain(pause) && old(self).next_objects_spec().len() > 0 ==> {
                &&& r matches Some(v) && v@ == old(self).next_objects_spec()
                &&& final(self).next_objects_spec() == Seq::<ObjectReference>::empty()
            },
            !(may_drain(pause) && old(self).next_objects_spec().len() > 0) ==> {
                &&& r is None
                &&& final(self).next_objects_spec() == old(self).next_objects_spec()
            },
            final(self).plan_spec() == old(self).plan_spec(),
            final(self).objects_spec() == old(self).objects_spec(),
    {
        let drain = match pause {
            None => true,
            Some(Pause::FinalMark) => true,
            _ => false,
        };
        if drain && !self.next_objects.is_empty() {
            Some(self.next_objects.take())
        } else {
            None
        }
    }
}

/// The objects of the non-empty fields, in order.
pub open spec fn present_fields(fields: Seq<Option<ObjectReference>>) -> Seq<ObjectReference>
    decreases fields.len(),
{
    if fields.len() == 0 {
        Seq::empty()
    } else {
        let prev = present_fields(fields.drop_last());
        match fields.last() {
            Some(o) => prev.push(o),
            None => prev,
        }
    }
}

/// The objects of the flushed packets, in order.
pub open spec fn flushed_objects<P: PolicyTraceObject + Copy, K: TraceKind>(
    packets: Seq<ConcurrentTraceObjects<P, K>>,
) -> Seq<ObjectReference>
    decreases packets.len(),
{
    if packets.len() == 0 {
        Seq::empty()
    } else {
        flushed_objects(packets.drop_last()) + match packets.last().objects_spec() {
            Some(s) => s,
            None => Seq::empty(),
        }
    }
}

proof fn lemma_flushed_objects_push<P: PolicyTraceObject + Copy, K: TraceKind>(
    packets: Seq<ConcurrentTraceObjects<P, K>>,
    w: ConcurrentTraceObjects<P, K>,
)
    ensures
        flushed_objects(packets.push(w)) == flushed_objects(packets) + match w.objects_spec() {
            Some(s) => s,
            None => Seq::empty(),
        },
{
    assert(packets.push(w).drop_last() =~= packets);
}

/// The packets flushed one after the other hold the objects of each, in order.
proof fn lemma_flushed_objects_concat<P: PolicyTraceObject + Copy, K: TraceKind>(
    a: Seq<ConcurrentTraceObjects<P, K>>,
    b: Seq<ConcurrentTraceObjects<P, K>>,
)
    ensures
        flushed_objects(a + b) == flushed_objects(a) + flushed_objects(b),
    decreases b.len(),
{
    if b.len() == 0 {
        assert(a + b =~= a);
        assert(flushed_objects(a) + flushed_objects(b) =~= flushed_objects(a));
    } else {
        lemma_flushed_objects_concat(a, b.drop_last());
        assert((a + b).drop_last() =~= a + b.drop_last());
        assert((a + b).last() == b.last());
        let tail = match b.last().objects_spec() {
            Some(s) => s,
            None => Seq::empty(),
        };
        assert(flushed_objects(a) + flushed_objects(b.drop_last()) + tail =~= flushed_objects(a) + (
        flushed_objects(b.drop_last()) + tail));
    }
}

/// Whether the binding can scan every object slot by slot, and every slot it reports
/// lies in `heap`: concurrent marking iterates the fields of every object it marks.
pub open spec fn scans_all_slots<S: Scanning>(scanning: S, heap: &SideTable<usize>) -> bool {
    &&& forall|o: ObjectReference| #[trigger] scanning.slot_enqueuing(o)
    &&& forall|o: ObjectReference, i: int|
        0 <= i < scanning.object_slots(o).len() ==> heap.covers(
            #[trigger] scanning.object_slots(o)[i],
        )
}

/// The objects found in the fields of `objects` when they are scanned, object after
/// object.
pub open spec fn found_in_fields<S: Scanning>(
    scanning: S,
    heap: &SideTable<usize>,
    objects: Seq<ObjectReference>,
) -> Seq<ObjectReference>
    decreases objects.len(),
{
    if objects.len() == 0 {
        Seq::empty()
    } else {
        found_in_fields(scanning, heap, objects.drop_last()) + loaded_objects(
            heap,
            scanning.object_slots(objects.last()),
        )
    }
}

/// Whether tracing each of `objects` with `plan` can enqueue, as the objects that the
/// plan marks for the first time, the matching entry of `enqueued`.
pub open spec fn marked_enqueues<P: PolicyTraceObject, K: TraceKind>(
    plan: P,
    objects: Seq<ObjectReference>,
    enqueued: Seq<Seq<ObjectReference>>,
) -> bool {
    &&& enqueued.len() == objects.len()
    &&& forall|i: int|
        0 <= i < objects.len() ==> #[trigger] traced_enqueues::<P, K>(
            plan,
            objects[i],
            enqueued[i],
        )
}

/// Scanning two sequences of objects one after the other finds what scanning each finds.
proof fn lemma_found_in_fields_concat<S: Scanning>(
    scanning: S,
    heap: &SideTable<usize>,
    a: Seq<ObjectReference>,
    b: Seq<ObjectReference>,
)
    ensures
        found_in_fields(scanning, heap, a + b) == found_in_fields(scanning, heap, a)
            + found_in_fields(scanning, heap, b),
    decreases b.len(),
{
    if b.len() == 0 {
        assert(a + b =~= a);
        assert(found_in_fields(scanning, heap, a) + found_in_fields(scanning, heap, b)
            =~= found_in_fields(scanning, heap, a));
    } else {
        lemma_found_in_fields_concat(scanning, heap, a, b.drop_last());
        assert((a + b).drop_last() =~= a + b.drop_last());
        assert((a + b).last() == b.last());
        let l = loaded_objects(heap, scanning.object_slots(b.last()));
        assert(found_in_fields(scanning, heap, a) + found_in_fields(scanning, heap, b.drop_last())
            + l =~= found_in_fields(scanning, heap, a) + (found_in_fields(
            scanning,
            heap,
            b.drop_last(),
        ) + l));
    }
}

/// Load the object held in each of `slots` (none for an empty slot).
fn load_fields(heap: &SideTable<usize>, slots: &Vec<Address>) -> (r: Vec<Option<ObjectReference>>)
    requires
        forall|i: int| 0 <= i < slots@.len() ==> #[trigger] heap.covers(slots@[i]),
    ensures
        present_fields(r@) == loaded_objects(heap, slots@),
{
    let mut fields: Vec<Option<ObjectReference>> = Vec::new();
    let mut i: usize = 0;
    while i < slots.len()
        invariant
            i <= slots@.len(),
            forall|j: int| 0 <= j < slots@.len() ==> #[trigger] heap.covers(slots@[j]),
            present_fields(fields@) == loaded_objects(heap, slots@.take(i as int)),
        decreases slots@.len() - i,
    {
        let ghost f0 = fields@;
        assert(slots@.take(i + 1).drop_last() =~= slots@.take(i as int));
        assert(slots@.take(i + 1).last() == slots@[i as int]);
        let field = load_slot(heap, slots[i]);
        fields.push(field);
        assert(fields@.drop_last() =~= f0);
        match field {
            Some(o) => {
                let ghost w = heap.entry(slots@[i as int]);
                assert(ObjectReference::from_value(w).value() == w);
                assert(o == ObjectReference::from_value(w));
            },
            None => {},
        }
        i += 1;
    }
    assert(slots@.take(slots@.len() as int) =~= slots@);
    fields
}

impl<P: PolicyTraceObject + Copy, K: TraceKind> ConcurrentTraceObjects<P, K> {
    /// Scan an object that marking found for the first time: the objects in its fields
    /// are kept for more marking (see `scan_and_enqueue`), and the plan's post-scan hook
    /// runs. Returns the packets flushed meanwhile.
    pub fn scan_object<S: Scanning>(
        &mut self,
        object: ObjectReference,
        scanning: &S,
        heap: &SideTable<usize>,
    ) -> (r: Vec<ConcurrentTraceObjects<P, K>>)
        requires
            old(self).next_objects_spec().len() <= SATB_BUFFER_SIZE,
            scans_all_slots(*scanning, heap),
        ensures
            flushed_objects(r@) + final(self).next_objects_spec() == old(self).next_objects_spec()
                + loaded_objects(heap, scanning.object_slots(object)),
            old(self).plan_spec().post_scanned(object),
            final(self).next_objects_spec().len() <= SATB_BUFFER_SIZE,
            forall|i: int|
                0 <= i < r@.len() ==> (#[trigger] r@[i]).plan_spec() == old(self).plan_spec()
                    && r@[i].objects_spec() is Some && r@[i].objects_spec().unwrap().len()
                    == SATB_BUFFER_SIZE + 1,
            final(self).plan_spec() == old(self).plan_spec(),
            final(self).objects_spec() == old(self).objects_spec(),
    {
        assert(scanning.slot_enqueuing(object));
        let slots = SlotIterator::iterate_fields(scanning, object);
        let fields = load_fields(heap, &slots);
        let flushed = self.scan_and_enqueue(&fields);
        self.plan.post_scan_object(object);
        flushed
    }

    /// Mark `objects` one after the other; each object that the plan marks for the
    /// first time is scanned, and the objects in its fields are kept for more marking.
    /// Returns the packets flushed meanwhile.
    pub fn mark_objects<S: Scanning>(
        &mut self,
        objects: &Vec<ObjectReference>,
        scanning: &S,
        heap: &SideTable<usize>,
    ) -> (r: Vec<ConcurrentTraceObjects<P, K>>)
        requires
            old(self).next_objects_spec().len() <= SATB_BUFFER_SIZE,
            scans_all_slots(*scanning, heap),
        ensures
            exists|enqueued: Seq<Seq<ObjectReference>>|
                {
                    &&& #[trigger] marked_enqueues::<P, K>(
                        old(self).plan_spec(),
                        objects@,
                        enqueued,
                    )
                    &&& flushed_objects(r@) + final(self).next_objects_spec() == old(
                        self,
                    ).next_objects_spec() + found_in_fields(*scanning, heap, enqueued.flatten())
                    &&& forall|i: int|
                        0 <= i < enqueued.flatten().len() ==> old(self).plan_spec().post_scanned(
                            #[trigger] enqueued.flatten()[i],
                        )
                },
            final(self).next_objects_spec().len() <= SATB_BUFFER_SIZE,
            forall|i: int|
                0 <= i < r@.len() ==> (#[trigger] r@[i]).plan_spec() == old(self).plan_spec()
                    && r@[i].objects_spec() is Some && r@[i].objects_spec().unwrap().len()
                    == SATB_BUFFER_SIZE + 1,
            final(self).plan_spec() == old(self).plan_spec(),
            final(self).objects_spec() == old(self).objects_spec(),
    {
        let ghost sc = *scanning;
        let ghost n0 = self.next_objects_spec();
        let ghost plan = self.plan_spec();
        let ghost mut enqs: Seq<Seq<ObjectReference>> = Seq::empty();
        let mut flushed: Vec<ConcurrentTraceObjects<P, K>> = Vec::new();
        let mut i: usize = 0;
        assert(n0 + found_in_fields(sc, heap, enqs.flatten()) =~= n0);
        assert(flushed_objects(flushed@) + n0 =~= n0);
        while i < objects.len()
            invariant
                i <= objects@.len(),
                sc == *scanning,
                scans_all_slots(sc, heap),
                self.plan_spec() == plan,
                self.objects_spec() == old(self).objects_spec(),
                self.next_objects_spec().len() <= SATB_BUFFER_SIZE,
                n0 == old(self).next_objects_spec(),
                marked_enqueues::<P, K>(plan, objects@.take(i as int), enqs),
                forall|x: int|
                    0 <= x < enqs.flatten().len() ==> plan.post_scanned(
                        #[trigger] enqs.flatten()[x],
                    ),
                flushed_objects(flushed@) + self.next_objects_spec() == n0 + found_in_fields(
                    sc,
                    heap,
                    enqs.flatten(),
                ),
                forall|j: int|
                    0 <= j < flushed@.len() ==> (#[trigger] flushed@[j]).plan_spec() == plan
                        && flushed@[j].objects_spec() is Some
                        && flushed@[j].objects_spec().unwrap().len() == SATB_BUFFER_SIZE + 1,
            decreases objects@.len() - i,
        {
            let object = objects[i];
            let (_, enqueued) = self.trace_object(object);
            let ghost f0 = found_in_fields(sc, heap, enqs.flatten());
            let mut j: usize = 0;
            assert(found_in_fields(sc, heap, enqueued@.take(0)) =~= Seq::<ObjectReference>::empty());
            assert(f0 + found_in_fields(sc, heap, enqueued@.take(0)) =~= f0);
            while j < enqueued.len()
                invariant
                    j <= enqueued@.len(),
                    sc == *scanning,
                    scans_all_slots(sc, heap),
                    self.plan_spec() == plan,
                    self.objects_spec() == old(self).objects_spec(),
                    self.next_objects_spec().len() <= SATB_BUFFER_SIZE,
                    flushed_objects(flushed@) + self.next_objects_spec() == n0 + f0
                        + found_in_fields(sc, heap, enqueued@.take(j as int)),
                    forall|x: int| 0 <= x < j ==> plan.post_scanned(#[trigger] enqueued@[x]),
                    forall|k: int|
                        0 <= k < flushed@.len() ==> (#[trigger] flushed@[k]).plan_spec() == plan
                            && flushed@[k].objects_spec() is Some
                            && flushed@[k].objects_spec().unwrap().len() == SATB_BUFFER_SIZE + 1,
                decreases enqueued@.len() - j,
            {
                let e = enqueued[j];
                let ghost before = flushed@;
                let ghost next0 = self.next_objects_spec();
                let mut more = self.scan_object(e, scanning, heap);
                let ghost more0 = more@;
                flushed.append(&mut more);
                proof {
                    lemma_flushed_objects_concat(before, more0);
                    assert(enqueued@.take(j + 1).drop_last() =~= enqueued@.take(j as int));
                    assert(enqueued@.take(j + 1).last() == e);
                    let g = found_in_fields(sc, heap, enqueued@.take(j as int));
                    let l = loaded_objects(heap, sc.object_slots(e));
                    assert(flushed_objects(flushed@) + self.next_objects_spec() =~= flushed_objects(
                        before,
                    ) + (flushed_objects(more0) + self.next_objects_spec()));
                    assert(flushed_objects(before) + (next0 + l) =~= (flushed_objects(before)
                        + next0) + l);
                    assert(n0 + f0 + g + l =~= n0 + f0 + (g + l));
                    assert forall|k: int| 0 <= k < flushed@.len() implies (#[trigger] flushed@[k]).plan_spec() == plan
                        && flushed@[k].objects_spec() is Some
                        && flushed@[k].objects_spec().unwrap().len() == SATB_BUFFER_SIZE + 1 by {
                        if k >= before.len() {
                            assert(flushed@[k] == more0[k - before.len()]);
                        } else {
                            assert(flushed@[k] == before[k]);
                        }
                    }
                }
                j += 1;
            }
            proof {
                assert(enqueued@.take(enqueued@.len() as int) =~= enqueued@);
                let e0 = enqs;
                enqs = enqs.push(enqueued@);
                lemma_found_in_fields_concat(sc, heap, e0.flatten(), enqueued@);
                assert(enqs.flatten() == e0.flatten() + enqueued@);
                assert forall|x: int| 0 <= x < enqs.flatten().len() implies plan.post_scanned(
                    #[trigger] enqs.flatten()[x],
                ) by {
                    if x < e0.flatten().len() {
                        assert(enqs.flatten()[x] == e0.flatten()[x]);
                    } else {
                        assert(enqs.flatten()[x] == enqueued@[x - e0.flatten().len()]);
                    }
                }
                assert(objects@.take(i + 1) =~= objects@.take(i as int).push(object));
                assert forall|k: int| 0 <= k < i + 1 implies #[trigger] traced_enqueues::<P, K>(
                    plan,
                    objects@.take(i + 1)[k],
                    enqs[k],
                ) by {
                    if k < i {
                        assert(objects@.take(i + 1)[k] == objects@.take(i as int)[k]);
                        assert(enqs[k] == e0[k]);
                    }
                }
                assert(n0 + f0 + found_in_fields(sc, heap, enqueued@) =~= n0 + found_in_fields(
                    sc,
                    heap,
                    enqs.flatten(),
                ));
            }
            i += 1;
        }
        assert(objects@.take(objects@.len() as int) =~= objects@);
        flushed
    }

    /// One round of marking. The first round marks the packet's own objects. Each later
    /// round marks the objects found so far, if there are any and the current pause
    /// `pause` lets marking go on (see `may_drain`). Returns the packets flushed
    /// meanwhile, or nothing if no round was left to run: the packet is then done, and
    /// what it still holds is flushed with `flush`.
    pub fn mark_round<S: Scanning>(
        &mut self,
        pause: Option<Pause>,
        scanning: &S,
        heap: &SideTable<usize>,
    ) -> (r: Option<Vec<ConcurrentTraceObjects<P, K>>>)
        requires
            old(self).next_objects_spec().len() <= SATB_BUFFER_SIZE,
            scans_all_slots(*scanning, heap),
        ensures
            final(self).next_objects_spec().len() <= SATB_BUFFER_SIZE,
            final(self).plan_spec() == old(self).plan_spec(),
            final(self).objects_spec() is None,
            old(self).objects_spec() is None && !(may_drain(pause)
                && old(self).next_objects_spec().len() > 0) ==> {
                &&& r is None
                &&& final(self).next_objects_spec() == old(self).next_objects_spec()
            },
            r matches Some(packets) ==> (old(self).objects_spec() matches Some(objects) ==> exists|
                enqueued: Seq<Seq<ObjectReference>>,
            |
                {
                    &&& #[trigger] marked_enqueues::<P, K>(
                        old(self).plan_spec(),
                        objects,
                        enqueued,
                    )
                    &&& flushed_objects(packets@) + final(self).next_objects_spec() == old(
                        self,
                    ).next_objects_spec() + found_in_fields(*scanning, heap, enqueued.flatten())
                    &&& forall|i: int|
                        0 <= i < enqueued.flatten().len() ==> old(self).plan_spec().post_scanned(
                            #[trigger] enqueued.flatten()[i],
                        )
                }),
            r matches Some(packets) ==> (old(self).objects_spec() is None ==> exists|
                enqueued: Seq<Seq<ObjectReference>>,
            |
                {
                    &&& #[trigger] marked_enqueues::<P, K>(
                        old(self).plan_spec(),
                        old(self).next_objects_spec(),
                        enqueued,
                    )
                    &&& flushed_objects(packets@) + final(self).next_objects_spec()
                        == found_in_fields(*scanning, heap, enqueued.flatten())
                    &&& forall|i: int|
                        0 <= i < enqueued.flatten().len() ==> old(self).plan_spec().post_scanned(
                            #[trigger] enqueued.flatten()[i],
                        )
                }),
            r matches Some(packets) ==> forall|i: int|
                0 <= i < packets@.len() ==> (#[trigger] packets@[i]).plan_spec() == old(
                    self,
                ).plan_spec() && packets@[i].objects_spec() is Some
                    && packets@[i].objects_spec().unwrap().len() == SATB_BUFFER_SIZE + 1,
            old(self).objects_spec() is Some ==> r is Some,
            old(self).objects_spec() is None && may_drain(pause) && old(
                self,
            ).next_objects_spec().len() > 0 ==> r is Some,
    {
        match self.take_objects() {
            Some(objects) => {
                let ghost plan = self.plan_spec();
                let ghost kept = self.next_objects_spec();
                let packets = self.mark_objects(&objects, scanning, heap);
                proof {
                    let enqueued = choose|enqueued: Seq<Seq<ObjectReference>>|
                        #[trigger] marked_enqueues::<P, K>(plan, objects@, enqueued)
                            && flushed_objects(packets@) + self.next_objects_spec() == kept
                            + found_in_fields(*scanning, heap, enqueued.flatten()) && forall|i: int|
                            0 <= i < enqueued.flatten().len() ==> plan.post_scanned(
                                #[trigger] enqueued.flatten()[i],
                            );
                    assert(marked_enqueues::<P, K>(plan, objects@, enqueued));
                }
                Some(packets)
            },
            None => match self.next_batch(pause) {
                Some(objects) => {
                    let ghost plan = self.plan_spec();
                    let packets = self.mark_objects(&objects, scanning, heap);
                    proof {
                        let enqueued = choose|enqueued: Seq<Seq<ObjectReference>>|
                            #[trigger] marked_enqueues::<P, K>(plan, objects@, enqueued)
                                && flushed_objects(packets@) + self.next_objects_spec()
                                == Seq::<ObjectReference>::empty() + found_in_fields(
                                *scanning,
                                heap,
                                enqueued.flatten(),
                            ) && forall|i: int|
                                0 <= i < enqueued.flatten().len() ==> plan.post_scanned(
                                    #[trigger] enqueued.flatten()[i],
                                );
                        assert(marked_enqueues::<P, K>(plan, objects@, enqueued));
                        assert(Seq::<ObjectReference>::empty() + found_in_fields(
                            *scanning,
                            heap,
                            enqueued.flatten(),
                        ) =~= found_in_fields(*scanning, heap, enqueued.flatten()));
                    }
                    Some(packets)
                },
                None => None,
            },
        }
    }
}

/// Process a SATB mod-buffer: its objects are marked concurrently.
pub struct ProcessModBufSATB {
    nodes: Option<Vec<ObjectReference>>,
}

impl ProcessModBufSATB {
    /// The recorded objects, if not yet taken.
    pub closed spec fn nodes_spec(&self) -> Option<Seq<ObjectReference>> {
        match self.nodes {
            Some(v) => Some(v@),
            None => None,
        }
    }

    /// A packet for the recorded objects `nodes`.
    pub fn new(nodes: Vec<ObjectReference>) -> (p: Self)
        ensures
            p.nodes_spec() == Some(nodes@),
    {
        Self { nodes: Some(nodes) }
    }

    /// The marking packet for the recorded objects, if there are any.
    pub fn do_work<P: PolicyTraceObject + Copy, K: TraceKind>(&mut self, plan: P, kind: K) -> (r:
        Option<ConcurrentTraceObjects<P, K>>)
        ensures
            final(self).nodes_spec() is None,
            (old(self).nodes_spec() matches Some(s) && s.len() > 0) ==> (r matches Some(w)
                && w.objects_spec() == old(self).nodes_spec() && w.plan_spec() == plan),
            !(old(self).nodes_spec() matches Some(s) && s.len() > 0) ==> r is None,
    {
        match self.nodes.take() {
            Some(nodes) => {
                if nodes.len() == 0 {
                    None
                } else {
                    Some(ConcurrentTraceObjects::new(nodes, plan, kind))
                }
            },
            None => None,
        }
    }
}

/// The objects held in the non-empty slots, in slot order.
pub open spec fn loaded_objects(heap: &SideTable<usize>, slots: Seq<Address>) -> Seq<
    ObjectReference,
>
    decreases slots.len(),
{
    if slots.len() == 0 {
        Seq::empty()
    } else {
        let prev = loaded_objects(heap, slots.drop_last());
        let w = heap.entry(slots.last());
        if w != 0 {
            prev.push(ObjectReference::from_value(w))
        } else {
            prev
        }
    }
}

/// The batches are all non-empty and hold at most `capacity` objects, and all but the
/// last hold exactly `capacity`.
pub open spec fn well_batched(batches: Seq<Seq<ObjectReference>>, capacity: nat) -> bool {
    &&& forall|i: int| 0 <= i < batches.len() ==> 0 < #[trigger] batches[i].len() <= capacity
    &&& forall|i: int| 0 <= i < batches.len() - 1 ==> #[trigger] batches[i].len() == capacity
}

/// Process root slots for concurrent marking: the objects in the root slots are
/// handed out in batches, each of which becomes a `ConcurrentTraceObjects` packet.
pub struct ProcessRootSlots {
    slots: Vec<Address>,
}

impl ProcessRootSlots {
    /// The root slots.
    pub closed spec fn slots_spec(&self) -> Seq<Address> {
        self.slots@
    }

    /// A packet for the given root slots.
    pub fn new(slots: Vec<Address>) -> (p: Self)
        ensures
            p.slots_spec() == slots@,
    {
        Self { slots }
    }

    /// Load the root slots and batch the objects found for concurrent marking. In the
    /// final-mark pause there is nothing to do; otherwise the pause is the initial mark.
    /// The slots are taken out of the packet.
    pub fn process_slots(&mut self, pause: Pause, heap: &SideTable<usize>) -> (r: Vec<
        Vec<ObjectReference>,
    >)
        requires
            pause == Pause::FinalMark || pause == Pause::InitialMark,
            forall|i: int| 0 <= i < old(self).slots_spec().len() ==> #[trigger] heap.covers(
                old(self).slots_spec()[i],
            ),
        ensures
            pause == Pause::FinalMark ==> r@.len() == 0 && final(self).slots_spec() == old(
                self,
            ).slots_spec(),
            pause == Pause::InitialMark ==> {
                let batches = r@.map_values(|v: Vec<ObjectReference>| v@);
                &&& batches.flatten() == loaded_objects(heap, old(self).slots_spec())
                &&& well_batched(batches, EDGES_WORK_BUFFER_SIZE as nat)
                &&& final(self).slots_spec() == Seq::<Address>::empty()
            },
    {
        let mut batches: Vec<Vec<ObjectReference>> = Vec::new();
        if pause == Pause::FinalMark {
            return batches;
        }
        let mut slots: Vec<Address> = Vec::new();
        std::mem::swap(&mut slots, &mut self.slots);
        assert(slots@ == old(self).slots@);
        let mut root_objects: Vec<ObjectReference> = Vec::new();
        assert forall|j: int| 0 <= j < slots@.len() implies #[trigger] heap.covers(slots@[j]) by {
            assert(heap.covers(old(self).slots_spec()[j]));
        }
        let mut i: usize = 0;
        while i < slots.len()
            invariant
                i <= slots@.len(),
                slots@ == old(self).slots@,
                forall|j: int| 0 <= j < slots@.len() ==> #[trigger] heap.covers(slots@[j]),
                batches@.map_values(|v: Vec<ObjectReference>| v@).flatten() + root_objects@
                    == loaded_objects(heap, slots@.take(i as int)),
                forall|j: int|
                    0 <= j < batches@.len() ==> (#[trigger] batches@[j])@.len()
                        == EDGES_WORK_BUFFER_SIZE,
                root_objects@.len() < EDGES_WORK_BUFFER_SIZE,
            decreases slots@.len() - i,
        {
            assert(slots@.take(i + 1).drop_last() =~= slots@.take(i as int));
            assert(slots@.take(i + 1).last() == slots@[i as int]);
            let slot = slots[i];
            let ghost b0 = batches@.map_values(|v: Vec<ObjectReference>| v@);
            let ghost r0 = root_objects@;
            let ghost lo0 = loaded_objects(heap, slots@.take(i as int));
            match load_slot(heap, slot) {
                Some(object) => {
                    assert(ObjectReference::from_value(heap.entry(slot)).value() == heap.entry(slot));
                    assert(object == ObjectReference::from_value(heap.entry(slot)));
                    assert(loaded_objects(heap, slots@.take(i + 1)) == lo0.push(object));
                    root_objects.push(object);
                    assert(b0.flatten() + r0.push(object) =~= lo0.push(object));
                    if root_objects.len() == EDGES_WORK_BUFFER_SIZE {
                        let mut buffer: Vec<ObjectReference> = Vec::new();
                        std::mem::swap(&mut buffer, &mut root_objects);
                        let ghost full = buffer@;
                        batches.push(buffer);
                        proof {
                            assert(batches@.map_values(|v: Vec<ObjectReference>| v@) =~= b0.push(
                                full,
                            ));
                            assert(b0.push(full).flatten() =~= b0.flatten() + full);
                            assert(root_objects@ =~= Seq::<ObjectReference>::empty());
                            assert(b0.flatten() + full + root_objects@ =~= b0.flatten() + full);
                        }
                    }
                },
                None => {
                    assert(loaded_objects(heap, slots@.take(i + 1)) == lo0);
                },
            }
            i += 1;
        }
        assert(slots@.take(slots@.len() as int) =~= slots@);
        if root_objects.len() != 0 {
            let ghost b0 = batches@.map_values(|v: Vec<ObjectReference>| v@);
            let ghost last = root_objects@;
            batches.push(root_objects);
            proof {
                assert(batches@.map_values(|v: Vec<ObjectReference>| v@) =~= b0.push(last));
            }
        } else {
            assert(root_objects@ =~= Seq::<ObjectReference>::empty());
            assert(batches@.map_values(|v: Vec<ObjectReference>| v@).flatten()
                =~= batches@.map_values(|v: Vec<ObjectReference>| v@).flatten() + root_objects@);
        }
        batches
    }
}

} // verus!
