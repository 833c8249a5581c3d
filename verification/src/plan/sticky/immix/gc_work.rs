use vstd::prelude::*;

use crate::plan::generational::GenerationalPlanExt;
use crate::plan::tracing::{MatureTracePolicy, NurseryTracePolicy};
use crate::policy::gc_work::{DefaultTrace, PolicyTraceObject, TraceKind, TransitivePinTrace};
use crate::scheduler::GCWorkContext;
use std::marker::PhantomData;

verus! {

/// The GC work of a nursery collection of StickyImmix: nursery tracing, and nursery
/// tracing that pins transitively for pinning roots.
pub struct StickyImmixNurseryGCWorkContext<P: GenerationalPlanExt + Copy>(PhantomData<P>);

impl<P: GenerationalPlanExt + Copy> GCWorkContext for StickyImmixNurseryGCWorkContext<P> {
    type PlanType = P;
    type DefaultTracePolicy = NurseryTracePolicy<P, DefaultTrace>;
    type PinningTracePolicy = NurseryTracePolicy<P, TransitivePinTrace>;

    open spec fn supports_pinning() -> bool {
        true
    }

    fn default_trace_policy(plan: P) -> (p: NurseryTracePolicy<P, DefaultTrace>)
        ensures
            p.plan_spec() == plan,
    {
        NurseryTracePolicy::new(plan)
    }

    fn pinning_trace_policy(plan: P) -> (p: NurseryTracePolicy<P, TransitivePinTrace>)
        ensures
            p.plan_spec() == plan,
    {
        NurseryTracePolicy::new(plan)
    }
}

/// The GC work of a full-heap collection of StickyImmix with the trace kind `K`, and
/// tracing that pins transitively for pinning roots.
pub struct StickyImmixMatureGCWorkContext<P: PolicyTraceObject + Copy, K: TraceKind>(
    PhantomData<(P, K)>,
);

impl<P: PolicyTraceObject + Copy, K: TraceKind> GCWorkContext for StickyImmixMatureGCWorkContext<
    P,
    K,
> {
    type PlanType = P;
    type DefaultTracePolicy = MatureTracePolicy<P, K>;
    type PinningTracePolicy = MatureTracePolicy<P, TransitivePinTrace>;

    open spec fn supports_pinning() -> bool {
        true
    }

    fn default_trace_policy(plan: P) -> (p: MatureTracePolicy<P, K>)
        ensures
            p.plan_spec() == plan,
    {
        MatureTracePolicy::new(plan)
    }

    fn pinning_trace_policy(plan: P) -> (p: MatureTracePolicy<P, TransitivePinTrace>)
        ensures
            p.plan_spec() == plan,
    {
        MatureTracePolicy::new(plan)
    }
}

} // verus!
