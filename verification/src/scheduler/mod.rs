use vstd::prelude::*;

pub mod gc_work;
pub mod work_bucket;

pub use work_bucket::WorkBucketStage;

use crate::plan::tracing::TracePolicy;

verus! {

/// The configuration of a plan's GC work: the plan, and the trace policies that its
/// work packets trace ordinary roots (`DefaultTracePolicy`) and pinning roots
/// (`PinningTracePolicy`) with.
pub trait GCWorkContext {
    /// The plan.
    type PlanType: Copy;
    /// The policy for ordinary roots and for the objects they reach.
    type DefaultTracePolicy: TracePolicy;
    /// The policy for pinning roots.
    type PinningTracePolicy: TracePolicy;

    /// Whether the plan can trace pinning roots.
    spec fn supports_pinning() -> bool;

    /// The default trace policy of `plan`.
    fn default_trace_policy(plan: Self::PlanType) -> (p: Self::DefaultTracePolicy)
        ensures
            p.supported(),
    ;

    /// The pinning trace policy of `plan`.
    fn pinning_trace_policy(plan: Self::PlanType) -> (p: Self::PinningTracePolicy)
        ensures
            p.supported() == Self::supports_pinning(),
    ;
}

} // verus!
