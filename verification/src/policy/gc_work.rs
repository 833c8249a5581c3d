use vstd::prelude::*;

use crate::plan::tracing::{appended, extends, ObjectQueue};
use crate::util::address::ObjectReference;

mod sealed;

pub use sealed::Sealed;

verus! {

/// Marker trait for trace kinds. Implemented by zero-sized types that describe
/// trace behavior through associated boolean constants.
pub trait TraceKind: Sealed + Copy {
    /// Whether this trace may defragment (opportunistically copy objects
    /// out of fragmented regions).
    const IS_DEFRAG: bool = false;
    /// Whether this is a forwarding/reference-updating trace.
    const IS_FORWARD: bool = false;
    /// Whether traced objects (and everything transitively reachable)
    /// must not be moved.
    const IS_TRANSITIVE_PIN: bool = false;
}

/// Default trace: mark in place, no movement.
#[derive(Clone, Copy)]
pub struct DefaultTrace;

/// Defrag trace: Immix opportunistic copying from fragmented blocks.
#[derive(Clone, Copy)]
pub struct DefragTrace;

/// Forwarding trace: update references.
#[derive(Clone, Copy)]
pub struct ForwardTrace;

/// Transitive pinning: pin object and all reachable descendants.
#[derive(Clone, Copy)]
pub struct TransitivePinTrace;

impl Sealed for DefaultTrace {
}

impl Sealed for DefragTrace {
}

impl Sealed for ForwardTrace {
}

impl Sealed for TransitivePinTrace {
}

impl TraceKind for DefaultTrace {
}

impl TraceKind for DefragTrace {
    const IS_DEFRAG: bool = true;
}

impl TraceKind for ForwardTrace {
    const IS_FORWARD: bool = true;
}

impl TraceKind for TransitivePinTrace {
    const IS_TRANSITIVE_PIN: bool = true;
}

/// Policy-specific behavior for tracing objects.
///
/// A plan implements this trait, and states with `trace_result` and `moves_objects` what
/// its tracing gives back and enqueues.
pub trait PolicyTraceObject {
    /// Whether tracing `object` with the trace kind `K` can give back `result` and
    /// enqueue the objects `enqueued`, in this order.
    spec fn trace_result<K: TraceKind>(
        &self,
        object: ObjectReference,
        result: ObjectReference,
        enqueued: Seq<ObjectReference>,
    ) -> bool;

    /// Whether this policy's space may move objects during a trace of kind `K`.
    spec fn moves_objects<K: TraceKind>(&self) -> bool;

    /// Trace object in the policy, enqueueing it on its first visit; returns the
    /// object's (possibly new) reference.
    fn trace_object<Q: ObjectQueue, K: TraceKind>(
        &self,
        queue: &mut Q,
        object: ObjectReference,
    ) -> (r: ObjectReference)
        ensures
            extends(old(queue).queued(), final(queue).queued()),
            self.trace_result::<K>(object, r, appended(old(queue).queued(), final(queue).queued())),
    ;

    /// What the post-scan hook has done for `object` once it has run (for example, the
    /// lines of the object marked).
    spec fn post_scanned(&self, object: ObjectReference) -> bool;

    /// Policy-specific post-scan-object hook.  It is called after scanning
    /// each object in this space.
    fn post_scan_object(&self, object: ObjectReference)
        ensures
            self.post_scanned(object),
    ;

    /// Return whether this policy's space may move objects during the given
    /// trace kind.
    fn may_move_objects<K: TraceKind>(&self) -> (r: bool)
        ensures
            r == self.moves_objects::<K>(),
    ;
}

} // verus!
