use vstd::prelude::*;

pub mod copying;
pub mod gc_work;
pub mod immix;

use crate::plan::tracing::{appended, extends, ObjectQueue};
use crate::policy::gc_work::{PolicyTraceObject, TraceKind};
use crate::util::address::ObjectReference;

verus! {

/// What a generational plan offers to nursery tracing.
pub trait GenerationalPlanExt: PolicyTraceObject {
    /// Whether nursery tracing of `object` with the trace kind `K` can give back
    /// `result` and enqueue the objects `enqueued`, in this order.
    spec fn nursery_trace_result<K: TraceKind>(
        &self,
        object: ObjectReference,
        result: ObjectReference,
        enqueued: Seq<ObjectReference>,
    ) -> bool;

    /// Trace an object during a nursery GC, enqueueing it on its first visit; returns
    /// the object's (possibly new) reference.
    fn trace_object_nursery<Q: ObjectQueue, K: TraceKind>(
        &self,
        queue: &mut Q,
        object: ObjectReference,
    ) -> (r: ObjectReference)
        ensures
            extends(old(queue).queued(), final(queue).queued()),
            self.nursery_trace_result::<K>(
                object,
                r,
                appended(old(queue).queued(), final(queue).queued()),
            ),
    ;
}

} // verus!
