use vstd::prelude::*;

use crate::plan::tracing::TracePolicy;
use crate::scheduler::gc_work::{traced_in_order, GCTracer};
use crate::util::address::{Address, ObjectReference};

verus! {

/// How the VM binding scans objects for the collector. The binding implements it; the
/// work packets call it for each object they scan.
pub trait Scanning {
    /// Whether the binding reports the slots of `object` one by one (slot-enqueuing)
    /// rather than tracing its edges itself.
    spec fn slot_enqueuing(&self, object: ObjectReference) -> bool;

    /// The slots of `object`, in the order in which the binding visits them.
    spec fn object_slots(&self, object: ObjectReference) -> Seq<Address>;

    /// The objects that the edges of `object` refer to, in the order in which the
    /// binding traces them.
    spec fn object_edges(&self, object: ObjectReference) -> Seq<ObjectReference>;

    /// Whether the binding supports slot-enqueuing for `object`.
    fn support_slot_enqueuing(&self, object: ObjectReference) -> (r: bool)
        ensures
            r == self.slot_enqueuing(object),
    ;

    /// Visit the slots of `object`, which supports slot-enqueuing: they are reported in
    /// visiting order.
    fn scan_object(&self, object: ObjectReference) -> (r: Vec<Address>)
        requires
            self.slot_enqueuing(object),
        ensures
            r@ == self.object_slots(object),
    ;

    /// Trace each edge of `object` with `tracer`, in order, and store each traced
    /// reference back into the object.
    fn scan_object_and_trace_edges<T: TracePolicy>(
        &self,
        object: ObjectReference,
        tracer: &mut GCTracer<T>,
        ctx: &mut T::Context,
    )
        requires
            old(tracer).policy_spec().supported(),
        ensures
            final(tracer).policy_spec() == old(tracer).policy_spec(),
            final(tracer).stage_spec() == old(tracer).stage_spec(),
            traced_in_order(
                old(tracer).policy_spec(),
                *old(ctx),
                old(tracer).nodes_spec(),
                self.object_edges(object),
                *final(ctx),
                final(tracer).nodes_spec(),
            ),
    ;
}

} // verus!
