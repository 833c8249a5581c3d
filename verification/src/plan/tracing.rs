use vstd::prelude::*;

use crate::plan::generational::GenerationalPlanExt;
use crate::policy::gc_work::{PolicyTraceObject, TraceKind};
use crate::util::address::{Address, ObjectReference};
use crate::vm::Scanning;

verus! {

/// The capacity of the buffers of work packets that process slots.
pub const EDGES_WORK_BUFFER_SIZE: usize = 4096;

/// This trait represents an object queue to enqueue objects during tracing.
pub trait ObjectQueue {
    /// The objects enqueued so far, in order.
    spec fn queued(&self) -> Seq<ObjectReference>;

    /// Enqueue an object into the queue.
    fn enqueue(&mut self, object: ObjectReference)
        ensures
            final(self).queued() == old(self).queued().push(object),
    ;
}

/// The queue `queue1` is the queue `queue0` with objects appended.
pub open spec fn extends(queue0: Seq<ObjectReference>, queue1: Seq<ObjectReference>) -> bool {
    &&& queue0.len() <= queue1.len()
    &&& queue1.take(queue0.len() as int) == queue0
}

/// The objects appended to `queue0` to give `queue1`.
pub open spec fn appended(queue0: Seq<ObjectReference>, queue1: Seq<ObjectReference>) -> Seq<
    ObjectReference,
> {
    queue1.skip(queue0.len() as int)
}

/// A vector queue for object references.
pub type VectorObjectQueue = VectorQueue<ObjectReference>;

/// An implementation of `ObjectQueue` using a `Vec`.
///
/// This can also be used as a buffer. For example, the mark stack or the write barrier mod-buffer.
pub struct VectorQueue<T> {
    /// Enqueued nodes.
    buffer: Vec<T>,
}

impl<T> View for VectorQueue<T> {
    type V = Seq<T>;

    closed spec fn view(&self) -> Seq<T> {
        self.buffer@
    }
}

impl<T> VectorQueue<T> {
    /// The capacity reserved on the first push; a queue holding this many items is full.
    pub open spec fn capacity() -> nat {
        EDGES_WORK_BUFFER_SIZE as nat
    }

    /// Create an empty `VectorQueue`.
    pub fn new() -> (q: Self)
        ensures
            q@ == Seq::<T>::empty(),
    {
        Self { buffer: Vec::new() }
    }

    /// Return `true` if the queue is empty.
    pub fn is_empty(&self) -> (r: bool)
        ensures
            r == (self@.len() == 0),
    {
        self.buffer.len() == 0
    }

    /// Return the contents of the underlying vector.  It will empty the queue.
    pub fn take(&mut self) -> (r: Vec<T>)
        ensures
            r@ == old(self)@,
            final(self)@ == Seq::<T>::empty(),
    {
        let mut taken: Vec<T> = Vec::new();
        std::mem::swap(&mut taken, &mut self.buffer);
        taken
    }

    /// Consume this `VectorQueue` and return its underlying vector.
    pub fn into_vec(self) -> (r: Vec<T>)
        ensures
            r@ == self@,
    {
        self.buffer
    }

    /// Check if the buffer size reaches the capacity.
    pub fn is_full(&self) -> (r: bool)
        ensures
            r == (self@.len() >= Self::capacity()),
    {
        self.buffer.len() >= EDGES_WORK_BUFFER_SIZE
    }

    /// Push an element to the queue. If the queue is empty, it will reserve
    /// space to hold the number of elements defined by the capacity.
    pub fn push(&mut self, v: T)
        ensures
            final(self)@ == old(self)@.push(v),
    {
        if self.buffer.len() == 0 {
            self.buffer.reserve(EDGES_WORK_BUFFER_SIZE);
        }
        self.buffer.push(v);
    }

    /// Return the len of the queue
    pub fn len(&self) -> (r: usize)
        ensures
            r == self@.len(),
    {
        self.buffer.len()
    }

    /// Empty the queue
    pub fn clear(&mut self)
        ensures
            final(self)@ == Seq::<T>::empty(),
    {
        self.buffer.clear();
    }
}

impl<T> Default for VectorQueue<T> {
    fn default() -> (q: Self)
        ensures
            q@ == Seq::<T>::empty(),
    {
        Self::new()
    }
}

impl ObjectQueue for VectorQueue<ObjectReference> {
    open spec fn queued(&self) -> Seq<ObjectReference> {
        self@
    }

    fn enqueue(&mut self, v: ObjectReference)
        ensures
            final(self)@ == old(self)@.push(v),
    {
        self.push(v);
    }
}

/// The plan-specific tracing policy: how to trace a single object (i.e., mark or copy
/// it), and what to do after scanning each object. All other concerns of heap
/// traversal are handled generically by the work packets.
///
/// A policy is a small copyable value; the state that tracing changes (mark bits,
/// visited sets, ...) lives in its `Context`, which the work packets hand to it.
pub trait TracePolicy: Sized + Copy {
    /// The state that tracing reads and changes.
    type Context;

    /// Whether this policy can be used at all.
    spec fn supported(&self) -> bool;

    /// Whether tracing `object` from the context `ctx0` and the queue `queue0` can end
    /// with the context `ctx1` and the queue `queue1`, giving back `result`.
    spec fn trace_step(
        &self,
        ctx0: Self::Context,
        queue0: Seq<ObjectReference>,
        object: ObjectReference,
        ctx1: Self::Context,
        queue1: Seq<ObjectReference>,
        result: ObjectReference,
    ) -> bool;

    /// Whether this trace may move objects.
    spec fn moves(&self) -> bool;

    /// Whether this trace may move objects (determines if slots need updating).
    fn may_move_objects(&self) -> (r: bool)
        requires
            self.supported(),
        ensures
            r == self.moves(),
    ;

    /// Trace one object. If this is the first visit, enqueue it in `queue`.
    fn trace_object(
        &self,
        ctx: &mut Self::Context,
        queue: &mut VectorObjectQueue,
        object: ObjectReference,
    ) -> (r: ObjectReference)
        requires
            self.supported(),
        ensures
            self.trace_step(*old(ctx), old(queue)@, object, *final(ctx), final(queue)@, r),
    ;

    /// Whether running the post-scan hook for `object` from the context `ctx0` can end
    /// with the context `ctx1`.
    spec fn post_scan_step(
        &self,
        ctx0: Self::Context,
        object: ObjectReference,
        ctx1: Self::Context,
    ) -> bool;

    /// Hook called after scanning each object (e.g., Immix line marking).
    fn post_scan_object(&self, ctx: &mut Self::Context, object: ObjectReference)
        requires
            self.supported(),
        ensures
            self.post_scan_step(*old(ctx), object, *final(ctx)),
    ;
}

/// A `TracePolicy` that traces objects with the plan's own tracing for the trace kind `K`.
/// This is the standard trace policy used by most plans for mature-space tracing.
#[derive(Clone, Copy)]
pub struct MatureTracePolicy<P: PolicyTraceObject + Copy, K: TraceKind> {
    plan: P,
    /// The trace kind is chosen by the type; no value of it is kept at run time.
    kind: Ghost<K>,
}

impl<P: PolicyTraceObject + Copy, K: TraceKind> MatureTracePolicy<P, K> {
    /// The policy that traces with `plan`.
    pub fn new(plan: P) -> (p: Self)
        ensures
            p.plan_spec() == plan,
    {
        Self { plan, kind: Ghost(arbitrary()) }
    }

    /// The plan that this policy traces with.
    pub closed spec fn plan_spec(&self) -> P {
        self.plan
    }
}

impl<P: PolicyTraceObject + Copy, K: TraceKind> TracePolicy for MatureTracePolicy<P, K> {
    type Context = ();

    open spec fn supported(&self) -> bool {
        true
    }

    open spec fn moves(&self) -> bool {
        self.plan_spec().moves_objects::<K>()
    }

    open spec fn post_scan_step(&self, ctx0: (), object: ObjectReference, ctx1: ()) -> bool {
        self.plan_spec().post_scanned(object)
    }

    open spec fn trace_step(
        &self,
        ctx0: (),
        queue0: Seq<ObjectReference>,
        object: ObjectReference,
        ctx1: (),
        queue1: Seq<ObjectReference>,
        result: ObjectReference,
    ) -> bool {
        &&& extends(queue0, queue1)
        &&& self.plan_spec().trace_result::<K>(object, result, appended(queue0, queue1))
    }

    fn may_move_objects(&self) -> (r: bool)
        ensures
            r == self.plan_spec().moves_objects::<K>(),
    {
        self.plan.may_move_objects::<K>()
    }

    fn trace_object(
        &self,
        ctx: &mut (),
        queue: &mut VectorObjectQueue,
        object: ObjectReference,
    ) -> ObjectReference {
        self.plan.trace_object::<VectorObjectQueue, K>(queue, object)
    }

    fn post_scan_object(&self, ctx: &mut (), object: ObjectReference) {
        self.plan.post_scan_object(object);
    }
}

/// A `TracePolicy` for nursery GC in generational plans: traces objects with the plan's
/// nursery tracing, which may always move objects.
#[derive(Clone, Copy)]
pub struct NurseryTracePolicy<P: GenerationalPlanExt + Copy, K: TraceKind> {
    plan: P,
    /// The trace kind is chosen by the type; no value of it is kept at run time.
    kind: Ghost<K>,
}

impl<P: GenerationalPlanExt + Copy, K: TraceKind> NurseryTracePolicy<P, K> {
    /// The policy that traces with `plan`.
    pub fn new(plan: P) -> (p: Self)
        ensures
            p.plan_spec() == plan,
    {
        Self { plan, kind: Ghost(arbitrary()) }
    }

    /// The plan that this policy traces with.
    pub closed spec fn plan_spec(&self) -> P {
        self.plan
    }
}

impl<P: GenerationalPlanExt + Copy, K: TraceKind> TracePolicy for NurseryTracePolicy<P, K> {
    type Context = ();

    open spec fn supported(&self) -> bool {
        true
    }

    open spec fn moves(&self) -> bool {
        true
    }

    open spec fn post_scan_step(&self, ctx0: (), object: ObjectReference, ctx1: ()) -> bool {
        self.plan_spec().post_scanned(object)
    }

    open spec fn trace_step(
        &self,
        ctx0: (),
        queue0: Seq<ObjectReference>,
        object: ObjectReference,
        ctx1: (),
        queue1: Seq<ObjectReference>,
        result: ObjectReference,
    ) -> bool {
        &&& extends(queue0, queue1)
        &&& self.plan_spec().nursery_trace_result::<K>(object, result, appended(queue0, queue1))
    }

    fn may_move_objects(&self) -> (r: bool)
        ensures
            r,
    {
        true
    }

    fn trace_object(
        &self,
        ctx: &mut (),
        queue: &mut VectorObjectQueue,
        object: ObjectReference,
    ) -> ObjectReference {
        self.plan.trace_object_nursery::<VectorObjectQueue, K>(queue, object)
    }

    fn post_scan_object(&self, ctx: &mut (), object: ObjectReference) {
        self.plan.post_scan_object(object);
    }
}

/// A `TracePolicy` for plans that don't support certain root kinds (e.g., pinning or
/// transitive pinning roots). None of its operations may be used.
#[derive(Clone, Copy)]
pub struct UnsupportedTracePolicy {}

impl UnsupportedTracePolicy {
    /// The unsupported policy.
    pub fn new() -> (p: Self)
        ensures
            !p.supported(),
    {
        UnsupportedTracePolicy {}
    }
}

impl TracePolicy for UnsupportedTracePolicy {
    type Context = ();

    open spec fn supported(&self) -> bool {
        false
    }

    open spec fn moves(&self) -> bool {
        false
    }

    open spec fn post_scan_step(&self, ctx0: (), object: ObjectReference, ctx1: ()) -> bool {
        true
    }

    open spec fn trace_step(
        &self,
        ctx0: (),
        queue0: Seq<ObjectReference>,
        object: ObjectReference,
        ctx1: (),
        queue1: Seq<ObjectReference>,
        result: ObjectReference,
    ) -> bool {
        result == object
    }

    fn may_move_objects(&self) -> bool {
        false
    }

    fn trace_object(
        &self,
        ctx: &mut (),
        queue: &mut VectorObjectQueue,
        object: ObjectReference,
    ) -> ObjectReference {
        object
    }

    fn post_scan_object(&self, ctx: &mut (), object: ObjectReference) {
    }
}

/// Iterates over the slots of an object.
pub struct SlotIterator;

impl SlotIterator {
    /// The slots of `object`, in the order in which the binding visits them. Only objects
    /// that support slot-enqueuing can be iterated.
    pub fn iterate_fields<S: Scanning>(scanning: &S, object: ObjectReference) -> (r: Vec<Address>)
        requires
            scanning.slot_enqueuing(object),
        ensures
            r@ == scanning.object_slots(object),
    {
        scanning.scan_object(object)
    }
}

} // verus!
