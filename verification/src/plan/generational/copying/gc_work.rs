use vstd::prelude::*;

use crate::plan::generational::GenerationalPlanExt;
use crate::plan::tracing::{MatureTracePolicy, NurseryTracePolicy, UnsupportedTracePolicy};
use crate::policy::gc_work::{DefaultTrace, PolicyTraceObject};
use crate::scheduler::GCWorkContext;
use std::marker::PhantomData;

verus! {

/// The GC work of a nursery collection of GenCopy: nursery tracing, no pinning roots.
pub struct GenCopyNurseryGCWorkContext<P: GenerationalPlanExt + Copy>(PhantomData<P>);

impl<P: GenerationalPlanExt + Copy> GCWorkContext for GenCopyNurseryGCWorkContext<P> {
    type PlanType = P;
    type DefaultTracePolicy = NurseryTracePolicy<P, DefaultTrace>;
    type PinningTracePolicy = UnsupportedTracePolicy;

    open spec fn supports_pinning() -> bool {
        false
    }

    fn default_trace_policy(plan: P) -> (p: NurseryTracePolicy<P, DefaultTrace>)
        ensures
            p.plan_spec() == plan,
    {
        NurseryTracePolicy::new(plan)
    }

    fn pinning_trace_policy(plan: P) -> (p: UnsupportedTracePolicy) {
        UnsupportedTracePolicy::new()
    }
}

/// The GC work of a full-heap collection of GenCopy: the plan's own tracing, no pinning
/// roots.
pub struct GenCopyGCWorkContext<P: PolicyTraceObject + Copy>(PhantomData<P>);

impl<P: PolicyTraceObject + Copy> GCWorkContext for GenCopyGCWorkContext<P> {
    type PlanType = P;
    type DefaultTracePolicy = MatureTracePolicy<P, DefaultTrace>;
    type PinningTracePolicy = UnsupportedTracePolicy;

    open spec fn supports_pinning() -> bool {
        false
    }

    fn default_trace_policy(plan: P) -> (p: MatureTracePolicy<P, DefaultTrace>)
        ensures
            p.plan_spec() == plan,
    {
        MatureTracePolicy::new(plan)
    }

    fn pinning_trace_policy(plan: P) -> (p: UnsupportedTracePolicy) {
        UnsupportedTracePolicy::new()
    }
}

} // verus!
