use mmtk::scheduler::gc_work::{
    GCObjectsClosure, GCProcessEdges, GCProcessRootNodes, GCRootsWorkFactory, GCScanObjects,
    GCTracerContext, GcAction, GcStatus, Prepare, PrepareCollector, PrepareMutator, Release,
    ReleaseCollector, ReleaseMutator, ScanMutatorRoots, ScanVMSpecificRoots, ScheduleCollection,
    StopMutators, VMForwardWeakRefs, VMPostForwarding, VMProcessWeakRefs, WorkPacket,
};
use mmtk::scheduler::work_bucket::WorkBucketStage;
use mmtk::util::address::{Address, ObjectReference};
use mmtk::util::metadata::side_metadata::SideTable;
use mmtk::util::opaque_pointer::OpaquePointer;
use mmtk::plan::tracing::{MatureTracePolicy, ObjectQueue, SlotIterator, TracePolicy};
use mmtk::policy::gc_work::{DefaultTrace, PolicyTraceObject, TraceKind};
use mmtk::scheduler::gc_work::GCTracer;
use mmtk::vm::Scanning;
use std::cell::RefCell;
use vstd::seq::Seq;
use mmtk::util::sanity::sanity_checker::{
    SanityChecker, SanityPrepare, SanityRelease, SanityTracePolicy, ScheduleSanityGC,
};

fn obj(a: usize) -> ObjectReference {
    ObjectReference::from_raw_address(Address::from_usize(a)).unwrap()
}

fn plan() -> OpaquePointer {
    OpaquePointer::from_address(Address::from_usize(0x100))
}

#[test]
fn schedule_collection_actions() {
    let p = ScheduleCollection;
    assert_eq!(
        p.do_work(false),
        vec![
            GcAction::OnGcStart,
            GcAction::SetGcStatus(GcStatus::GcPrepare),
            GcAction::PlanScheduleCollection
        ]
    );
    assert_eq!(
        p.do_work(true),
        vec![
            GcAction::OnGcStart,
            GcAction::NotifyEmergencyCollection,
            GcAction::SetGcStatus(GcStatus::GcPrepare),
            GcAction::PlanScheduleCollection
        ]
    );
}

#[test]
fn prepare_and_release_actions() {
    let mutators = vec![3, 5];
    assert_eq!(
        Prepare::new(plan()).do_work(true, &mutators, 2),
        vec![
            GcAction::PlanPrepare,
            GcAction::AddWork(WorkBucketStage::Prepare, WorkPacket::PrepareMutator(3)),
            GcAction::AddWork(WorkBucketStage::Prepare, WorkPacket::PrepareMutator(5)),
            GcAction::AddDesignatedWork(0, WorkPacket::PrepareCollector),
            GcAction::AddDesignatedWork(1, WorkPacket::PrepareCollector),
        ]
    );
    assert_eq!(
        Prepare::new(plan()).do_work(false, &mutators, 1),
        vec![GcAction::PlanPrepare, GcAction::AddDesignatedWork(0, WorkPacket::PrepareCollector)]
    );
    assert_eq!(
        Release::new(plan()).do_work(&mutators, 1),
        vec![
            GcAction::OnGcRelease,
            GcAction::PlanRelease,
            GcAction::AddWork(WorkBucketStage::Release, WorkPacket::ReleaseMutator(3)),
            GcAction::AddWork(WorkBucketStage::Release, WorkPacket::ReleaseMutator(5)),
            GcAction::AddDesignatedWork(0, WorkPacket::ReleaseCollector),
        ]
    );
    assert_eq!(PrepareMutator::new(4).do_work(), vec![GcAction::MutatorPrepare(4)]);
    assert_eq!(ReleaseMutator::new(4).do_work(), vec![GcAction::MutatorRelease(4)]);
    assert_eq!(
        PrepareCollector.do_work(),
        vec![GcAction::CopyContextPrepare, GcAction::PlanPrepareWorker]
    );
    assert_eq!(ReleaseCollector.do_work(), vec![GcAction::CopyContextRelease]);
}

#[test]
fn stop_mutators_actions() {
    let mutators = vec![1, 2];
    assert_eq!(
        StopMutators::new().do_work(&mutators),
        vec![
            GcAction::PrepareForStackScanning,
            GcAction::StopAllMutators,
            GcAction::AddWork(WorkBucketStage::Prepare, WorkPacket::ScanMutatorRoots(1)),
            GcAction::AddWork(WorkBucketStage::Prepare, WorkPacket::ScanMutatorRoots(2)),
            GcAction::NotifyMutatorsPaused,
            GcAction::AddWork(WorkBucketStage::Prepare, WorkPacket::ScanVMSpecificRoots),
        ]
    );
    assert_eq!(
        StopMutators::new_no_scan_roots().do_work(&mutators),
        vec![
            GcAction::PrepareForStackScanning,
            GcAction::StopAllMutators,
            GcAction::MutatorFlush(1),
            GcAction::MutatorFlush(2),
            GcAction::NotifyMutatorsPaused,
            GcAction::AddWork(WorkBucketStage::Prepare, WorkPacket::ScanVMSpecificRoots),
        ]
    );
}

#[test]
fn root_scanning_and_weak_reference_actions() {
    assert_eq!(
        ScanMutatorRoots(7).do_work(false),
        vec![GcAction::ScanRootsInMutatorThread(7), GcAction::MutatorFlush(7)]
    );
    assert_eq!(
        ScanMutatorRoots(7).do_work(true),
        vec![
            GcAction::ScanRootsInMutatorThread(7),
            GcAction::MutatorFlush(7),
            GcAction::NotifyInitialThreadScanComplete,
            GcAction::SetGcStatus(GcStatus::GcProper),
        ]
    );
    assert_eq!(ScanVMSpecificRoots::new().do_work(), vec![GcAction::ScanVMSpecificRoots]);
    assert_eq!(
        VMProcessWeakRefs::new().do_work(false),
        vec![GcAction::ProcessWeakRefs(WorkBucketStage::VMRefClosure)]
    );
    assert_eq!(
        VMProcessWeakRefs::new().do_work(true),
        vec![
            GcAction::ProcessWeakRefs(WorkBucketStage::VMRefClosure),
            GcAction::SetSentinel(WorkBucketStage::VMRefClosure, WorkPacket::VMProcessWeakRefs),
        ]
    );
    assert_eq!(
        VMForwardWeakRefs::new().do_work(),
        vec![GcAction::ForwardWeakRefs(WorkBucketStage::VMRefForwarding)]
    );
    assert_eq!(VMPostForwarding.do_work(), vec![GcAction::PostForwarding]);
}

#[test]
fn slot_processing_with_the_sanity_trace() {
    // Slots at 0x1000.. hold object references (or zero).
    let mut heap: SideTable<usize> = SideTable::new(Address::from_usize(0x1000), 8, 4, 0);
    heap.store(Address::from_usize(0x1000), 0x8000);
    heap.store(Address::from_usize(0x1008), 0x8010);
    heap.store(Address::from_usize(0x1018), 0x8000);
    let slots: Vec<Address> = (0..4).map(|i| Address::from_usize(0x1000 + 8 * i)).collect();
    let mut checker = SanityChecker::new();
    let mut work = GCProcessEdges::new(slots, true, SanityTracePolicy::new(), WorkBucketStage::Closure);
    let (may_move, _traced, scan) = work.do_work(&mut checker, &mut heap);
    assert!(!may_move);
    // The sanity trace never moves objects: the slots are unchanged.
    assert_eq!(heap.get(0), 0x8000);
    assert_eq!(heap.get(1), 0x8010);
    assert_eq!(heap.get(2), 0);
    // Each object is enqueued once, in the order of first visit.
    let scan = scan.unwrap();
    assert_eq!(scan.buffer(), &vec![obj(0x8000), obj(0x8010)]);
    // A second packet over the same slots finds everything visited.
    let slots: Vec<Address> = (0..4).map(|i| Address::from_usize(0x1000 + 8 * i)).collect();
    let mut again = GCProcessEdges::new(slots, true, SanityTracePolicy::new(), WorkBucketStage::Closure);
    let (_, _, scan) = again.do_work(&mut checker, &mut heap);
    assert!(scan.is_none());
    // Forgetting the visited objects starts over.
    SanityPrepare::new(plan()).do_work(&mut checker);
    let mut tracer = GCTracerContext { stage: WorkBucketStage::Closure }.with_tracer(SanityTracePolicy::new());
    assert_eq!(tracer.trace_object(&mut checker, obj(0x8000)), obj(0x8000));
    assert!(tracer.finish().is_some());
}

/// A heap of test objects: each object either reports its slots or traces its edges.
struct TestScanning {
    /// Objects that report their slots, with those slots.
    slot_objects: Vec<(ObjectReference, Vec<Address>)>,
    /// Objects that trace their edges, with the objects those edges refer to.
    edge_objects: Vec<(ObjectReference, Vec<ObjectReference>)>,
    /// The objects scanned so far, in order.
    scanned: RefCell<Vec<ObjectReference>>,
}

impl Scanning for TestScanning {
    fn slot_enqueuing(&self, object: ObjectReference) -> bool {
        self.slot_objects.iter().any(|(o, _)| *o == object)
    }

    fn object_slots(&self, _object: ObjectReference) -> Seq<Address> {
        unreachable!()
    }

    fn object_edges(&self, _object: ObjectReference) -> Seq<ObjectReference> {
        unreachable!()
    }

    fn support_slot_enqueuing(&self, object: ObjectReference) -> bool {
        self.slot_objects.iter().any(|(o, _)| *o == object)
    }

    fn scan_object(&self, object: ObjectReference) -> Vec<Address> {
        self.scanned.borrow_mut().push(object);
        self.slot_objects.iter().find(|(o, _)| *o == object).unwrap().1.clone()
    }

    fn scan_object_and_trace_edges<T: TracePolicy>(
        &self,
        object: ObjectReference,
        tracer: &mut GCTracer<T>,
        ctx: &mut T::Context,
    ) {
        self.scanned.borrow_mut().push(object);
        let edges = self.edge_objects.iter().find(|(o, _)| *o == object).map(|(_, e)| e.clone());
        for child in edges.unwrap_or_default() {
            tracer.trace_object(ctx, child);
        }
    }
}

fn slots(from: usize, n: usize) -> Vec<Address> {
    (0..n).map(|i| Address::from_usize(from + 8 * i)).collect()
}

#[test]
fn scan_objects_partition() {
    let scanning = TestScanning {
        slot_objects: vec![(obj(0x10), slots(0x1000, 2)), (obj(0x30), slots(0x2000, 1))],
        edge_objects: vec![(obj(0x20), vec![obj(0x90), obj(0x80), obj(0x90)])],
        scanned: RefCell::new(vec![]),
    };
    let w = GCScanObjects::new(
        SanityTracePolicy::new(),
        vec![obj(0x10), obj(0x20), obj(0x30)],
        false,
        WorkBucketStage::Closure,
    );
    let mut checker = SanityChecker::new();
    let (packets, scan) = w.do_work_inner(&scanning, &mut checker);
    // Objects that report their slots are scanned first, then the others.
    assert_eq!(*scanning.scanned.borrow(), vec![obj(0x10), obj(0x30), obj(0x20)]);
    // Their slots, in order, form one packet.
    assert_eq!(packets.len(), 1);
    assert_eq!(
        packets[0].slots(),
        &vec![Address::from_usize(0x1000), Address::from_usize(0x1008), Address::from_usize(0x2000)]
    );
    // The edges of the other object are traced: each object is enqueued once.
    assert_eq!(scan.unwrap().buffer(), &vec![obj(0x90), obj(0x80)]);
}

#[test]
fn slot_iterator_reports_the_slots_in_order() {
    let scanning = TestScanning {
        slot_objects: vec![(obj(0x10), slots(0x1000, 3))],
        edge_objects: vec![],
        scanned: RefCell::new(vec![]),
    };
    assert_eq!(SlotIterator::iterate_fields(&scanning, obj(0x10)), slots(0x1000, 3));
}

#[test]
fn sanity_trace_reaches_every_object_from_the_roots() {
    let (a, b, c, d, e) = (obj(0x8000), obj(0x8010), obj(0x8020), obj(0x8030), obj(0x8040));
    let slot = |i: usize| Address::from_usize(0x1000 + 8 * i);
    let mut heap: SideTable<usize> = SideTable::new(Address::from_usize(0x1000), 8, 8, 0);
    heap.store(slot(0), 0x8000); // root -> a
    heap.store(slot(1), 0x8010); // a -> b
    heap.store(slot(3), 0x8020); // b -> c
    heap.store(slot(4), 0x8000); // b -> a
    heap.store(slot(5), 0x8020); // d -> c
    // c traces its edge to e itself; a, b, d and e report their slots.
    let scanning = TestScanning {
        slot_objects: vec![
            (a, vec![slot(1), slot(2)]),
            (b, vec![slot(3), slot(4)]),
            (d, vec![slot(5)]),
            (e, vec![]),
        ],
        edge_objects: vec![(c, vec![e, a])],
        scanned: RefCell::new(vec![]),
    };
    let mut checker = SanityChecker::new();
    let mut edges = vec![GCProcessEdges::new(
        vec![slot(0)],
        true,
        SanityTracePolicy::new(),
        WorkBucketStage::Closure,
    )];
    let mut scans = vec![];
    loop {
        if let Some(mut w) = edges.pop() {
            let (_, _, scan) = w.do_work(&mut checker, &mut heap);
            scans.extend(scan);
        } else if let Some(w) = scans.pop() {
            let (packets, scan) = w.do_work_inner(&scanning, &mut checker);
            edges.extend(packets);
            scans.extend(scan);
        } else {
            break;
        }
    }
    // Every object reachable from the root was scanned once; the unreachable one never.
    let mut scanned = scanning.scanned.borrow().clone();
    scanned.sort_by_key(|o| o.to_raw_address().as_usize());
    assert_eq!(scanned, vec![a, b, c, e]);
    // The reachable objects are visited: tracing them again enqueues nothing.
    let context = GCTracerContext { stage: WorkBucketStage::Closure };
    let mut tracer = context.with_tracer(SanityTracePolicy::new());
    for o in [a, b, c, e] {
        tracer.trace_object(&mut checker, o);
    }
    assert!(tracer.finish().is_none());
    let mut tracer = context.with_tracer(SanityTracePolicy::new());
    tracer.trace_object(&mut checker, d);
    assert_eq!(tracer.finish().unwrap().buffer(), &vec![d]);
    // The heap words are left as they were.
    assert_eq!(heap.load(slot(0)), 0x8000);
    assert_eq!(heap.load(slot(4)), 0x8000);
}

/// A plan that marks in place and records the objects its post-scan hook runs for.
#[derive(Clone, Copy)]
struct RecordingPlan<'a> {
    post_scanned: &'a RefCell<Vec<ObjectReference>>,
}

impl PolicyTraceObject for RecordingPlan<'_> {
    fn trace_result<K: TraceKind>(
        &self,
        object: ObjectReference,
        result: ObjectReference,
        _enqueued: Seq<ObjectReference>,
    ) -> bool {
        result == object
    }

    fn moves_objects<K: TraceKind>(&self) -> bool {
        false
    }

    fn trace_object<Q: ObjectQueue, K: TraceKind>(
        &self,
        queue: &mut Q,
        object: ObjectReference,
    ) -> ObjectReference {
        queue.enqueue(object);
        object
    }

    fn post_scanned(&self, _object: ObjectReference) -> bool {
        true
    }

    fn post_scan_object(&self, object: ObjectReference) {
        self.post_scanned.borrow_mut().push(object);
    }

    fn may_move_objects<K: TraceKind>(&self) -> bool {
        false
    }
}

#[test]
fn post_scan_hook_runs_once_per_object_in_scan_order() {
    let log = RefCell::new(vec![]);
    let policy = MatureTracePolicy::<RecordingPlan, DefaultTrace>::new(RecordingPlan {
        post_scanned: &log,
    });
    let scanning = TestScanning {
        slot_objects: vec![(obj(0x10), slots(0x1000, 1)), (obj(0x30), vec![])],
        edge_objects: vec![(obj(0x20), vec![obj(0x90)])],
        scanned: RefCell::new(vec![]),
    };
    let w = GCScanObjects::new(
        policy,
        vec![obj(0x20), obj(0x10), obj(0x30)],
        false,
        WorkBucketStage::Closure,
    );
    let (packets, scan) = w.do_work_inner(&scanning, &mut ());
    assert_eq!(packets.len(), 1);
    assert_eq!(scan.unwrap().buffer(), &vec![obj(0x90)]);
    assert_eq!(*log.borrow(), vec![obj(0x10), obj(0x30), obj(0x20)]);
}

#[test]
fn scanned_slots_are_cut_into_full_packets() {
    let scanning = TestScanning {
        slot_objects: vec![(obj(0x10), slots(0x10_0000, 4000)), (obj(0x20), slots(0x20_0000, 200))],
        edge_objects: vec![],
        scanned: RefCell::new(vec![]),
    };
    let w = GCScanObjects::new(
        SanityTracePolicy::new(),
        vec![obj(0x10), obj(0x20)],
        false,
        WorkBucketStage::Closure,
    );
    let mut checker = SanityChecker::new();
    let (packets, scan) = w.do_work_inner(&scanning, &mut checker);
    assert!(scan.is_none());
    assert_eq!(packets.len(), 2);
    assert_eq!(packets[0].slots().len(), 4096);
    assert_eq!(packets[1].slots().len(), 104);
    assert_eq!(packets[0].slots()[4000], Address::from_usize(0x20_0000));
    assert_eq!(packets[1].slots()[103], Address::from_usize(0x20_0000 + 8 * 199));
}

#[test]
fn objects_closure_flushes_full_buffers() {
    let mut c = GCObjectsClosure::new(WorkBucketStage::Closure);
    assert_eq!(c.flush(), None);
    for i in 0..4095usize {
        assert_eq!(c.visit_slot(Address::from_usize(8 * i)), None);
    }
    let full = c.visit_slot(Address::from_usize(0x10_0000)).unwrap();
    assert_eq!(full.len(), 4096);
    assert_eq!(full[4095].as_usize(), 0x10_0000);
    assert_eq!(c.flush(), None);
    assert_eq!(c.visit_slot(Address::from_usize(8)), None);
    assert_eq!(c.flush(), Some(vec![Address::from_usize(8)]));
}

#[test]
fn root_work_factory_buckets() {
    let f = GCRootsWorkFactory::new(SanityTracePolicy::new(), SanityTracePolicy::new());
    let (bucket, _w) = f.create_process_roots_work(vec![Address::from_usize(8)]);
    assert_eq!(bucket, WorkBucketStage::Closure);
    let (bucket, _w) = f.create_process_pinning_roots_work(vec![obj(8)]);
    assert_eq!(bucket, WorkBucketStage::PinningRootsTrace);
    let (bucket, _w) = f.create_process_tpinning_roots_work(vec![obj(8)]);
    assert_eq!(bucket, WorkBucketStage::TPinningClosure);
}

#[test]
fn root_nodes_are_traced_once() {
    let mut checker = SanityChecker::new();
    let w = GCProcessRootNodes::new(
        vec![obj(0x40), obj(0x50), obj(0x40)],
        WorkBucketStage::Closure,
        SanityTracePolicy::new(),
        SanityTracePolicy::new(),
    );
    let scan = w.do_work(&mut checker).unwrap();
    assert_eq!(scan.buffer(), &vec![obj(0x40), obj(0x50)]);
}

#[test]
fn sanity_collection_from_cached_roots() {
    let mut checker = SanityChecker::default();
    checker.add_root_slots(vec![Address::from_usize(0x10), Address::from_usize(0x18)]);
    checker.add_root_slots(vec![Address::from_usize(0x20)]);
    checker.add_root_nodes(vec![obj(0x30)]);
    let work = ScheduleSanityGC::new(plan()).do_work(&checker);
    assert_eq!(work.actions, vec![GcAction::ResetSchedulerState, GcAction::SanityBegin]);
    assert_eq!(work.process_edges.len(), 2);
    assert_eq!(work.process_root_nodes.len(), 1);
    assert_eq!(work.prepare.plan, plan());
    assert_eq!(work.release.plan, plan());
    assert_eq!(SanityRelease::new(plan()).do_work(&mut checker), vec![GcAction::SanityEnd]);
    let work = ScheduleSanityGC::new(plan()).do_work(&checker);
    assert_eq!(work.process_edges.len(), 0);
    assert_eq!(work.process_root_nodes.len(), 0);
}

#[test]
fn scan_packets_for_traced_objects() {
    let w = GCProcessRootNodes::new(
        vec![obj(0x40)],
        WorkBucketStage::PinningRootsTrace,
        SanityTracePolicy::new(),
        SanityTracePolicy::new(),
    );
    assert!(w.scan_root_objects(vec![]).is_none());
    let scan = w.scan_root_objects(vec![obj(0x70), obj(0x60)]).unwrap();
    assert_eq!(scan.buffer(), &vec![obj(0x70), obj(0x60)]);
    let mut edges = GCProcessEdges::new(vec![], false, SanityTracePolicy::new(), WorkBucketStage::Closure);
    assert!(edges.flush_nodes().is_none());
}

#[test]
fn common_plan_unlog_bit_packets() {
    use_common_packets();
}

fn use_common_packets() {
    assert_eq!(
        mmtk::plan::gc_work::SetCommonPlanUnlogBits::new().do_work(),
        vec![GcAction::SetCommonSideLogBits]
    );
    assert_eq!(
        mmtk::plan::gc_work::ClearCommonPlanUnlogBits::new().do_work(),
        vec![GcAction::ClearCommonSideLogBits]
    );
}
