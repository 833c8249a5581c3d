use vstd::prelude::*;

verus! {

/// The stages of a collection; each has a bucket of work packets.
#[derive(Clone, Copy, Debug, PartialEq, Eq, Structural)]
pub enum WorkBucketStage {
    /// Packets that may run at any time.
    Unconstrained,
    /// Concurrent marking.
    Concurrent,
    /// Preparation.
    Prepare,
    /// Tracing the roots that must not move.
    PinningRootsTrace,
    /// The closure of transitively pinned roots.
    TPinningClosure,
    /// The transitive closure.
    Closure,
    /// Weak reference processing by the binding.
    VMRefClosure,
    /// Forwarding weak references by the binding.
    VMRefForwarding,
    /// Release.
    Release,
    /// The final stage.
    Final,
}

} // verus!
