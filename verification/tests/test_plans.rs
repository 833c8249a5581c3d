use mmtk::plan::concurrent::concurrent_marking_work::{
    ConcurrentTraceObjects, ProcessModBufSATB, ProcessRootSlots, SATB_BUFFER_SIZE,
};
use mmtk::plan::concurrent::Pause;
use mmtk::plan::generational::gc_work::{
    ForwardingCache, GenNurseryProcessEdges, ProcessModBuf, ProcessRegionModBuf, UNLOGGED,
};
use mmtk::plan::generational::GenerationalPlanExt;
use mmtk::plan::tracing::{ObjectQueue, TracePolicy, VectorQueue, EDGES_WORK_BUFFER_SIZE};
use mmtk::plan::tracing::{MatureTracePolicy, NurseryTracePolicy, UnsupportedTracePolicy};
use mmtk::policy::gc_work::{DefaultTrace, PolicyTraceObject, TraceKind};
use mmtk::scheduler::work_bucket::WorkBucketStage;
use mmtk::scheduler::GCWorkContext;
use mmtk::plan::marksweep::gc_work::MSGCWorkContext;
use mmtk::plan::generational::copying::gc_work::GenCopyNurseryGCWorkContext;
use mmtk::util::address::{Address, ObjectReference};
use mmtk::util::metadata::side_metadata::SideTable;
use vstd::seq::Seq;
use mmtk::scheduler::gc_work::GCTracer;
use mmtk::vm::Scanning;

fn obj(a: usize) -> ObjectReference {
    ObjectReference::from_raw_address(Address::from_usize(a)).unwrap()
}

/// A plan that marks in place and enqueues every object it traces.
#[derive(Clone, Copy)]
struct InPlacePlan;

impl PolicyTraceObject for InPlacePlan {
    fn trace_result<K: TraceKind>(
        &self,
        object: ObjectReference,
        result: ObjectReference,
        _enqueued: Seq<ObjectReference>,
    ) -> bool {
        result == object
    }

    fn moves_objects<K: TraceKind>(&self) -> bool {
        false
    }

    fn trace_object<Q: ObjectQueue, K: TraceKind>(
        &self,
        queue: &mut Q,
        object: ObjectReference,
    ) -> ObjectReference {
        queue.enqueue(object);
        object
    }

    fn may_move_objects<K: TraceKind>(&self) -> bool {
        false
    }
    fn post_scanned(&self, _object: ObjectReference) -> bool {
        true
    }

    fn post_scan_object(&self, _object: ObjectReference) {}
}

/// A nursery that copies every object 0x1000 bytes up.
#[derive(Clone, Copy)]
struct CopyingNursery;

impl PolicyTraceObject for CopyingNursery {
    fn trace_result<K: TraceKind>(
        &self,
        object: ObjectReference,
        result: ObjectReference,
        _enqueued: Seq<ObjectReference>,
    ) -> bool {
        result == object
    }

    fn moves_objects<K: TraceKind>(&self) -> bool {
        true
    }

    fn trace_object<Q: ObjectQueue, K: TraceKind>(
        &self,
        queue: &mut Q,
        object: ObjectReference,
    ) -> ObjectReference {
        queue.enqueue(object);
        object
    }

    fn may_move_objects<K: TraceKind>(&self) -> bool {
        true
    }
    fn post_scanned(&self, _object: ObjectReference) -> bool {
        true
    }

    fn post_scan_object(&self, _object: ObjectReference) {}
}

impl GenerationalPlanExt for CopyingNursery {
    fn nursery_trace_result<K: TraceKind>(
        &self,
        object: ObjectReference,
        result: ObjectReference,
        _enqueued: Seq<ObjectReference>,
    ) -> bool {
        result.to_raw_address().as_usize() == object.to_raw_address().as_usize() + 0x1000
    }

    fn trace_object_nursery<Q: ObjectQueue, K: TraceKind>(
        &self,
        queue: &mut Q,
        object: ObjectReference,
    ) -> ObjectReference {
        let moved = obj(object.to_raw_address().as_usize() + 0x1000);
        queue.enqueue(moved);
        moved
    }
}

#[test]
fn vector_queue_operations() {
    let mut q: VectorQueue<ObjectReference> = VectorQueue::new();
    assert!(q.is_empty());
    q.push(obj(8));
    q.enqueue(obj(16));
    assert_eq!(q.len(), 2);
    assert!(!q.is_full());
    assert_eq!(q.take(), vec![obj(8), obj(16)]);
    assert!(q.is_empty());
    for i in 0..EDGES_WORK_BUFFER_SIZE {
        q.push(obj(8 * (i + 1)));
    }
    assert!(q.is_full());
    q.clear();
    assert_eq!(q.len(), 0);
    let q2: VectorQueue<u8> = VectorQueue::default();
    assert_eq!(q2.into_vec(), Vec::<u8>::new());
}

#[test]
fn forwarding_cache_lookups() {
    let mut c = ForwardingCache::new();
    assert_eq!(c.lookup(0x8000), None);
    c.record(0x8000, 0x9000);
    assert_eq!(c.lookup(0x8000), Some(0x9000));
    // An object that was not moved is not cached.
    c.record(0x8008, 0x8008);
    assert_eq!(c.lookup(0x8008), None);
    // Zero is never a cached object.
    c.record(0, 0x10);
    assert_eq!(c.lookup(0), None);
}

#[test]
fn nursery_slots_are_forwarded_and_cached() {
    let mut heap: SideTable<usize> = SideTable::new(Address::from_usize(0x100), 8, 4, 0);
    heap.store(Address::from_usize(0x100), 0x8000);
    heap.store(Address::from_usize(0x108), 0x8000);
    let slots = vec![Address::from_usize(0x100), Address::from_usize(0x108), Address::from_usize(0x110)];
    let mut w = GenNurseryProcessEdges::new(slots, false, CopyingNursery, DefaultTrace, WorkBucketStage::Closure);
    // First slot: traced and forwarded.
    assert_eq!(w.process_slot(&mut heap, Address::from_usize(0x100)), Some(obj(0x9000)));
    assert_eq!(heap.get(0), 0x9000);
    // Second slot with the same object: updated from the cache, not traced again.
    assert_eq!(w.process_slot(&mut heap, Address::from_usize(0x108)), None);
    assert_eq!(heap.get(1), 0x9000);
    // Empty slot.
    assert_eq!(w.process_slot(&mut heap, Address::from_usize(0x110)), None);
    assert_eq!(heap.get(2), 0);
}

#[test]
fn modbuf_unlogs_objects_in_nursery_gcs() {
    let mut log: SideTable<u8> = SideTable::new(Address::from_usize(0x1000), 8, 8, 0);
    let mut p = ProcessModBuf::new(vec![obj(0x1008), obj(0x1020)]);
    assert_eq!(p.do_work(false, &mut log), None);
    assert!((0..8).all(|i| log.get(i) == 0));
    assert_eq!(p.do_work(true, &mut log), Some(vec![obj(0x1008), obj(0x1020)]));
    assert_eq!(log.get(1), UNLOGGED);
    assert_eq!(log.get(4), UNLOGGED);
    assert_eq!(log.get(0), 0);
}

#[test]
fn region_modbuf_hands_out_all_slots() {
    let a = Address::from_usize;
    let p = ProcessRegionModBuf::new(vec![vec![a(8), a(16)], vec![], vec![a(32)]]);
    assert_eq!(p.do_work(false), None);
    assert_eq!(p.do_work(true), Some(vec![a(8), a(16), a(32)]));
}

#[test]
fn pause_bytes() {
    for p in [None, Some(Pause::Full), Some(Pause::InitialMark), Some(Pause::FinalMark)] {
        assert_eq!(Pause::from_u8(Pause::to_u8(p)), p);
    }
    assert_eq!(Pause::to_u8(None), 0);
    assert_eq!(Pause::to_u8(Some(Pause::FinalMark)), 3);
    assert_eq!(Pause::default(), Pause::Full);
}

#[test]
fn concurrent_marking_drains_only_when_allowed() {
    let mut w = ConcurrentTraceObjects::new(vec![obj(0x10)], InPlacePlan, DefaultTrace);
    assert_eq!(w.take_objects(), Some(vec![obj(0x10)]));
    assert_eq!(w.take_objects(), None);
    let (o, marked) = w.trace_object(obj(0x10));
    assert_eq!(o, obj(0x10));
    assert_eq!(marked, vec![obj(0x10)]);
    let flushed = w.scan_and_enqueue(&vec![Some(obj(0x20)), None, Some(obj(0x30))]);
    assert!(flushed.is_empty());
    assert_eq!(w.next_batch(Some(Pause::InitialMark)), None);
    assert_eq!(w.next_batch(Some(Pause::Full)), None);
    assert_eq!(w.next_batch(Some(Pause::FinalMark)), Some(vec![obj(0x20), obj(0x30)]));
    assert_eq!(w.next_batch(None), None);
    w.scan_and_enqueue(&vec![Some(obj(0x40))]);
    let mut rest = w.flush().unwrap();
    assert_eq!(rest.take_objects(), Some(vec![obj(0x40)]));
    assert!(w.flush().is_none());
}

#[test]
fn concurrent_marking_flushes_large_buffers() {
    let mut w = ConcurrentTraceObjects::new(vec![], InPlacePlan, DefaultTrace);
    let fields: Vec<Option<ObjectReference>> =
        (0..SATB_BUFFER_SIZE + 5).map(|i| Some(obj(8 * (i + 1)))).collect();
    let mut flushed = w.scan_and_enqueue(&fields);
    assert_eq!(flushed.len(), 1);
    assert_eq!(flushed[0].take_objects().unwrap().len(), SATB_BUFFER_SIZE + 1);
    assert_eq!(w.next_batch(None).unwrap().len(), 4);
}

/// A binding whose objects all report their slots.
struct SlotScanning {
    slots: Vec<(ObjectReference, Vec<Address>)>,
}

impl Scanning for SlotScanning {
    fn slot_enqueuing(&self, _object: ObjectReference) -> bool {
        true
    }

    fn object_slots(&self, _object: ObjectReference) -> Seq<Address> {
        unreachable!()
    }

    fn object_edges(&self, _object: ObjectReference) -> Seq<ObjectReference> {
        unreachable!()
    }

    fn support_slot_enqueuing(&self, _object: ObjectReference) -> bool {
        true
    }

    fn scan_object(&self, object: ObjectReference) -> Vec<Address> {
        self.slots.iter().find(|(o, _)| *o == object).map(|(_, s)| s.clone()).unwrap_or_default()
    }

    fn scan_object_and_trace_edges<T: TracePolicy>(
        &self,
        _object: ObjectReference,
        _tracer: &mut GCTracer<T>,
        _ctx: &mut T::Context,
    ) {
        unreachable!()
    }
}

#[test]
fn concurrent_marking_rounds() {
    let base = 0x10_0000;
    let slot = |i: usize| Address::from_usize(base + 8 * i);
    let mut heap: SideTable<usize> = SideTable::new(Address::from_usize(base), 8, 4, 0);
    heap.store(slot(0), 0x20);
    heap.store(slot(2), 0x30);
    let scanning = SlotScanning {
        slots: vec![(obj(0x10), vec![slot(0), slot(1)]), (obj(0x20), vec![slot(2)])],
    };
    let mut w = ConcurrentTraceObjects::new(vec![obj(0x10)], InPlacePlan, DefaultTrace);
    // The first round marks the packet's own objects, whatever the pause.
    let packets = w.mark_round(Some(Pause::InitialMark), &scanning, &heap).unwrap();
    assert!(packets.is_empty());
    // During the initial-mark pause the found objects are not drained.
    assert!(w.mark_round(Some(Pause::InitialMark), &scanning, &heap).is_none());
    // Outside a pause they are: scanning 0x20 finds 0x30.
    assert!(w.mark_round(None, &scanning, &heap).unwrap().is_empty());
    assert!(w.mark_round(Some(Pause::Full), &scanning, &heap).is_none());
    let mut rest = w.flush().unwrap();
    assert_eq!(rest.take_objects(), Some(vec![obj(0x30)]));
    // In the final-mark pause marking drains until nothing is left.
    let mut w = ConcurrentTraceObjects::new(vec![obj(0x10)], InPlacePlan, DefaultTrace);
    while w.mark_round(Some(Pause::FinalMark), &scanning, &heap).is_some() {}
    assert!(w.flush().is_none());
}

#[test]
fn satb_modbuf_becomes_a_marking_packet() {
    let mut p = ProcessModBufSATB::new(vec![obj(8)]);
    let mut w = p.do_work(InPlacePlan, DefaultTrace).unwrap();
    assert_eq!(w.take_objects(), Some(vec![obj(8)]));
    assert!(p.do_work(InPlacePlan, DefaultTrace).is_none());
    let mut empty = ProcessModBufSATB::new(vec![]);
    assert!(empty.do_work(InPlacePlan, DefaultTrace).is_none());
}

#[test]
fn root_slots_are_batched() {
    let n = EDGES_WORK_BUFFER_SIZE + 3;
    let mut heap: SideTable<usize> = SideTable::new(Address::from_usize(0x10_0000), 8, n + 1, 0);
    let mut slots = Vec::new();
    for i in 0..n {
        let s = Address::from_usize(0x10_0000 + 8 * i);
        heap.store(s, 0x100 + 8 * i);
        slots.push(s);
    }
    // One empty slot.
    slots.push(Address::from_usize(0x10_0000 + 8 * n));
    let mut p = ProcessRootSlots::new(slots);
    assert!(p.process_slots(Pause::FinalMark, &heap).is_empty());
    let batches = p.process_slots(Pause::InitialMark, &heap);
    assert_eq!(batches.len(), 2);
    assert_eq!(batches[0].len(), EDGES_WORK_BUFFER_SIZE);
    assert_eq!(batches[1].len(), 3);
    assert_eq!(batches[0][0], obj(0x100));
    assert_eq!(batches[1][2], obj(0x100 + 8 * (n - 1)));
}

#[test]
fn trace_policies_of_work_contexts() {
    let mature = <MSGCWorkContext<InPlacePlan> as GCWorkContext>::default_trace_policy(InPlacePlan);
    assert!(!mature.may_move_objects());
    let pinning = <MSGCWorkContext<InPlacePlan> as GCWorkContext>::pinning_trace_policy(InPlacePlan);
    assert!(!pinning.may_move_objects());
    let nursery =
        <GenCopyNurseryGCWorkContext<CopyingNursery> as GCWorkContext>::default_trace_policy(CopyingNursery);
    assert!(nursery.may_move_objects());
    let mut q = VectorQueue::new();
    assert_eq!(nursery.trace_object(&mut (), &mut q, obj(0x10)), obj(0x1010));
    let _: UnsupportedTracePolicy =
        <GenCopyNurseryGCWorkContext<CopyingNursery> as GCWorkContext>::pinning_trace_policy(CopyingNursery);
    let m: MatureTracePolicy<InPlacePlan, DefaultTrace> = MatureTracePolicy::new(InPlacePlan);
    assert_eq!(m.trace_object(&mut (), &mut q, obj(0x20)), obj(0x20));
    let n: NurseryTracePolicy<CopyingNursery, DefaultTrace> = NurseryTracePolicy::new(CopyingNursery);
    assert!(n.may_move_objects());
}
