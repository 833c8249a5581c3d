use vstd::prelude::*;

use crate::plan::tracing::{ObjectQueue, TracePolicy, VectorObjectQueue};
use crate::scheduler::gc_work::{GCProcessEdges, GCProcessRootNodes, GcAction};
use crate::scheduler::work_bucket::WorkBucketStage;
use crate::util::address::{Address, ObjectReference};
use crate::util::opaque_pointer::OpaquePointer;
use std::collections::HashSet;

verus! {

broadcast use vstd::std_specs::hash::group_hash_axioms;

/// The state of sanity checking: the objects visited by the sanity trace, and the
/// roots cached from the last real collection.
pub struct SanityChecker {
    /// Visited objects, by address.
    refs: HashSet<usize>,
    /// Cached root slots for sanity root scanning
    root_slots: Vec<Vec<Address>>,
    /// Cached root nodes for sanity root scanning
    root_nodes: Vec<Vec<ObjectReference>>,
}

impl SanityChecker {
    /// The addresses of the visited objects.
    pub closed spec fn refs_spec(&self) -> Set<usize> {
        self.refs@
    }

    /// The cached batches of root slots.
    pub closed spec fn root_slots_spec(&self) -> Seq<Seq<Address>> {
        self.root_slots@.map_values(|v: Vec<Address>| v@)
    }

    /// The cached batches of root nodes.
    pub closed spec fn root_nodes_spec(&self) -> Seq<Seq<ObjectReference>> {
        self.root_nodes@.map_values(|v: Vec<ObjectReference>| v@)
    }

    /// An empty checker.
    pub fn new() -> (c: Self)
        ensures
            c.refs_spec() == Set::<usize>::empty(),
            c.root_slots_spec() == Seq::<Seq<Address>>::empty(),
            c.root_nodes_spec() == Seq::<Seq<ObjectReference>>::empty(),
    {
        let c = Self { refs: HashSet::new(), root_slots: Vec::new(), root_nodes: Vec::new() };
        assert(c.root_slots_spec() =~= Seq::<Seq<Address>>::empty());
        assert(c.root_nodes_spec() =~= Seq::<Seq<ObjectReference>>::empty());
        c
    }

    /// Cache a list of root slots to the sanity checker.
    pub fn add_root_slots(&mut self, roots: Vec<Address>)
        ensures
            final(self).root_slots_spec() == old(self).root_slots_spec().push(roots@),
            final(self).root_nodes_spec() == old(self).root_nodes_spec(),
            final(self).refs_spec() == old(self).refs_spec(),
    {
        let ghost roots_view = roots@;
        self.root_slots.push(roots);
        assert(self.root_slots_spec() =~= old(self).root_slots_spec().push(roots_view));
    }

    /// Cache a list of root nodes to the sanity checker.
    pub fn add_root_nodes(&mut self, roots: Vec<ObjectReference>)
        ensures
            final(self).root_nodes_spec() == old(self).root_nodes_spec().push(roots@),
            final(self).root_slots_spec() == old(self).root_slots_spec(),
            final(self).refs_spec() == old(self).refs_spec(),
    {
        let ghost roots_view = roots@;
        self.root_nodes.push(roots);
        assert(self.root_nodes_spec() =~= old(self).root_nodes_spec().push(roots_view));
    }

    /// Reset roots cache at the end of the sanity gc.
    pub fn clear_roots_cache(&mut self)
        ensures
            final(self).root_slots_spec() == Seq::<Seq<Address>>::empty(),
            final(self).root_nodes_spec() == Seq::<Seq<ObjectReference>>::empty(),
            final(self).refs_spec() == old(self).refs_spec(),
    {
        self.root_slots.clear();
        self.root_nodes.clear();
        assert(self.root_slots_spec() =~= Seq::<Seq<Address>>::empty());
        assert(self.root_nodes_spec() =~= Seq::<Seq<ObjectReference>>::empty());
    }

    /// Forget all visited objects.
    pub fn clear_refs(&mut self)
        ensures
            final(self).refs_spec() == Set::<usize>::empty(),
            final(self).root_slots_spec() == old(self).root_slots_spec(),
            final(self).root_nodes_spec() == old(self).root_nodes_spec(),
    {
        self.refs.clear();
    }
}

impl Default for SanityChecker {
    fn default() -> (c: Self)
        ensures
            c.refs_spec() == Set::<usize>::empty(),
            c.root_slots_spec() == Seq::<Seq<Address>>::empty(),
            c.root_nodes_spec() == Seq::<Seq<ObjectReference>>::empty(),
    {
        Self::new()
    }
}

/// The visited set and the queue after the sanity trace visits `object`: an object
/// seen for the first time is recorded and enqueued; a known one changes nothing.
pub open spec fn sanity_visit(
    refs: Set<usize>,
    queue: Seq<ObjectReference>,
    object: ObjectReference,
) -> (Set<usize>, Seq<ObjectReference>) {
    if refs.contains(object.value() as usize) {
        (refs, queue)
    } else {
        (refs.insert(object.value() as usize), queue.push(object))
    }
}

/// A [`TracePolicy`] for sanity checking: it never moves objects, and "marks" visited
/// objects in the checker's set so that each is enqueued once.
#[derive(Clone, Copy)]
pub struct SanityTracePolicy {}

impl SanityTracePolicy {
    /// The sanity trace policy.
    pub fn new() -> (p: Self)
        ensures
            p.supported(),
    {
        SanityTracePolicy {}
    }
}

impl TracePolicy for SanityTracePolicy {
    type Context = SanityChecker;

    open spec fn supported(&self) -> bool {
        true
    }

    open spec fn moves(&self) -> bool {
        false
    }

    /// The sanity trace does nothing after scanning an object.
    open spec fn post_scan_step(
        &self,
        ctx0: SanityChecker,
        object: ObjectReference,
        ctx1: SanityChecker,
    ) -> bool {
        ctx1 == ctx0
    }

    open spec fn trace_step(
        &self,
        ctx0: SanityChecker,
        queue0: Seq<ObjectReference>,
        object: ObjectReference,
        ctx1: SanityChecker,
        queue1: Seq<ObjectReference>,
        result: ObjectReference,
    ) -> bool {
        &&& result == object
        &&& (ctx1.refs_spec(), queue1) == sanity_visit(ctx0.refs_spec(), queue0, object)
        &&& ctx1.root_slots_spec() == ctx0.root_slots_spec()
        &&& ctx1.root_nodes_spec() == ctx0.root_nodes_spec()
    }

    fn may_move_objects(&self) -> (r: bool)
        ensures
            !r,
    {
        false
    }

    fn trace_object(
        &self,
        ctx: &mut SanityChecker,
        queue: &mut VectorObjectQueue,
        object: ObjectReference,
    ) -> (r: ObjectReference)
        ensures
            r == object,
            (final(ctx).refs_spec(), final(queue)@) == sanity_visit(
                old(ctx).refs_spec(),
                old(queue)@,
                object,
            ),
            final(ctx).root_slots_spec() == old(ctx).root_slots_spec(),
            final(ctx).root_nodes_spec() == old(ctx).root_nodes_spec(),
    {
        let addr = object.to_raw_address().as_usize();
        if !ctx.refs.contains(&addr) {
            ctx.refs.insert(addr);
            queue.enqueue(object);
        }
        object
    }

    fn post_scan_object(&self, ctx: &mut SanityChecker, object: ObjectReference) {
    }
}

/// The sanity trace enqueues an object at most once until the visited set is cleared:
/// visiting an object that has been visited changes neither the set nor the queue.
pub proof fn lemma_sanity_visit_once(
    refs: Set<usize>,
    queue: Seq<ObjectReference>,
    object: ObjectReference,
)
    ensures
        ({
            let (refs1, queue1) = sanity_visit(refs, queue, object);
            &&& refs1.contains(object.value() as usize)
            &&& sanity_visit(refs1, queue1, object) == (refs1, queue1)
            &&& queue1.len() <= queue.len() + 1
        }),
{
}

/// Copy a list of root slots.
fn copy_slots(v: &Vec<Address>) -> (r: Vec<Address>)
    ensures
        r@ == v@,
{
    let mut r: Vec<Address> = Vec::new();
    let mut i: usize = 0;
    while i < v.len()
        invariant
            i <= v@.len(),
            r@ == v@.take(i as int),
        decreases v@.len() - i,
    {
        r.push(v[i]);
        assert(v@.take(i + 1) =~= v@.take(i as int).push(v@[i as int]));
        i += 1;
    }
    assert(v@.take(v@.len() as int) =~= v@);
    r
}

/// Copy a list of root nodes.
fn copy_nodes(v: &Vec<ObjectReference>) -> (r: Vec<ObjectReference>)
    ensures
        r@ == v@,
{
    let mut r: Vec<ObjectReference> = Vec::new();
    let mut i: usize = 0;
    while i < v.len()
        invariant
            i <= v@.len(),
            r@ == v@.take(i as int),
        decreases v@.len() - i,
    {
        r.push(v[i]);
        assert(v@.take(i + 1) =~= v@.take(i as int).push(v@[i as int]));
        i += 1;
    }
    assert(v@.take(v@.len() as int) =~= v@);
    r
}

/// The work of a sanity collection: packets that trace from each cached batch of root
/// slots, and packets that trace from each cached batch of root nodes, all in the
/// closure stage with the sanity trace policy; and the packets that prepare (in the
/// prepare stage) and release (in the release stage) the sanity collection.
pub struct SanityGCWork {
    /// One slot-processing packet per batch of root slots.
    pub process_edges: Vec<GCProcessEdges<SanityTracePolicy>>,
    /// One root-node packet per batch of root nodes.
    pub process_root_nodes: Vec<GCProcessRootNodes<SanityTracePolicy, SanityTracePolicy>>,
    /// The packet for the prepare stage.
    pub prepare: SanityPrepare,
    /// The packet for the release stage.
    pub release: SanityRelease,
    /// What to do before the packets run: reset the scheduler and enter sanity mode.
    pub actions: Vec<GcAction>,
}

/// Schedule a sanity collection after a real one.
pub struct ScheduleSanityGC {
    /// The plan that is checked.
    pub plan: OpaquePointer,
}

impl ScheduleSanityGC {
    /// The packet for `plan`.
    pub fn new(plan: OpaquePointer) -> (p: Self)
        ensures
            p.plan == plan,
    {
        ScheduleSanityGC { plan }
    }

    /// The work of the sanity collection: the scheduler is reset and sanity mode begins;
    /// then one tracing packet per batch of roots that the checker cached, in order, and
    /// a `SanityPrepare` and a `SanityRelease` packet for the plan.
    pub fn do_work(&self, checker: &SanityChecker) -> (r: SanityGCWork)
        ensures
            r.actions@ == seq![GcAction::ResetSchedulerState, GcAction::SanityBegin],
            r.process_edges@.len() == checker.root_slots_spec().len(),
            forall|i: int|
                0 <= i < r.process_edges@.len() ==> {
                    &&& (#[trigger] r.process_edges@[i]).slots_spec() == checker.root_slots_spec()[i]
                    &&& r.process_edges@[i].roots_spec()
                    &&& r.process_edges@[i].bucket_spec() == WorkBucketStage::Closure
                    &&& r.process_edges@[i].nodes_spec().len() == 0
                },
            r.process_root_nodes@.len() == checker.root_nodes_spec().len(),
            forall|i: int|
                0 <= i < r.process_root_nodes@.len() ==> {
                    &&& (#[trigger] r.process_root_nodes@[i]).roots_spec()
                        == checker.root_nodes_spec()[i]
                    &&& r.process_root_nodes@[i].bucket_spec() == WorkBucketStage::Closure
                },
            r.prepare.plan == self.plan,
            r.release.plan == self.plan,
    {
        let mut process_edges: Vec<GCProcessEdges<SanityTracePolicy>> = Vec::new();
        let mut i: usize = 0;
        while i < checker.root_slots.len()
            invariant
                i <= checker.root_slots@.len(),
                process_edges@.len() == i,
                forall|j: int|
                    0 <= j < i ==> {
                        &&& (#[trigger] process_edges@[j]).slots_spec()
                            == checker.root_slots_spec()[j]
                        &&& process_edges@[j].roots_spec()
                        &&& process_edges@[j].bucket_spec() == WorkBucketStage::Closure
                        &&& process_edges@[j].nodes_spec().len() == 0
                    },
            decreases checker.root_slots@.len() - i,
        {
            let roots = copy_slots(&checker.root_slots[i]);
            process_edges.push(
                GCProcessEdges::new(roots, true, SanityTracePolicy::new(), WorkBucketStage::Closure),
            );
            i += 1;
        }
        let mut process_root_nodes: Vec<GCProcessRootNodes<SanityTracePolicy, SanityTracePolicy>> =
            Vec::new();
        let mut k: usize = 0;
        while k < checker.root_nodes.len()
            invariant
                k <= checker.root_nodes@.len(),
                process_root_nodes@.len() == k,
                forall|j: int|
                    0 <= j < k ==> {
                        &&& (#[trigger] process_root_nodes@[j]).roots_spec()
                            == checker.root_nodes_spec()[j]
                        &&& process_root_nodes@[j].bucket_spec() == WorkBucketStage::Closure
                    },
            decreases checker.root_nodes@.len() - k,
        {
            let roots = copy_nodes(&checker.root_nodes[k]);
            process_root_nodes.push(
                GCProcessRootNodes::new(
                    roots,
                    WorkBucketStage::Closure,
                    SanityTracePolicy::new(),
                    SanityTracePolicy::new(),
                ),
            );
            k += 1;
        }
        let actions = vec![GcAction::ResetSchedulerState, GcAction::SanityBegin];
        SanityGCWork {
            process_edges,
            process_root_nodes,
            prepare: SanityPrepare::new(self.plan),
            release: SanityRelease::new(self.plan),
            actions,
        }
    }
}

/// Prepare a sanity collection: forget the visited objects.
pub struct SanityPrepare {
    /// The plan that is checked.
    pub plan: OpaquePointer,
}

impl SanityPrepare {
    /// The packet for `plan`.
    pub fn new(plan: OpaquePointer) -> (p: Self)
        ensures
            p.plan == plan,
    {
        Self { plan }
    }

    /// Forget the visited objects.
    pub fn do_work(&self, checker: &mut SanityChecker)
        ensures
            final(checker).refs_spec() == Set::<usize>::empty(),
            final(checker).root_slots_spec() == old(checker).root_slots_spec(),
            final(checker).root_nodes_spec() == old(checker).root_nodes_spec(),
    {
        checker.clear_refs();
    }
}

/// Release a sanity collection: forget the cached roots and end sanity mode.
pub struct SanityRelease {
    /// The plan that is checked.
    pub plan: OpaquePointer,
}

impl SanityRelease {
    /// The packet for `plan`.
    pub fn new(plan: OpaquePointer) -> (p: Self)
        ensures
            p.plan == plan,
    {
        Self { plan }
    }

    /// Forget the cached roots, and leave sanity mode.
    pub fn do_work(&self, checker: &mut SanityChecker) -> (r: Vec<GcAction>)
        ensures
            r@ == seq![GcAction::SanityEnd],
            final(checker).root_slots_spec() == Seq::<Seq<Address>>::empty(),
            final(checker).root_nodes_spec() == Seq::<Seq<ObjectReference>>::empty(),
            final(checker).refs_spec() == old(checker).refs_spec(),
    {
        checker.clear_roots_cache();
        vec![GcAction::SanityEnd]
    }
}

} // verus!
