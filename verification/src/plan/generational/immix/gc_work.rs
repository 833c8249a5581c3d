use vstd::prelude::*;

use crate::plan::generational::GenerationalPlanExt;
use crate::plan::tracing::{NurseryTracePolicy, UnsupportedTracePolicy};
use crate::policy::gc_work::DefaultTrace;
use crate::scheduler::GCWorkContext;
use std::marker::PhantomData;

verus! {

/// The GC work of a nursery collection of GenImmix: nursery tracing, no pinning roots.
pub struct GenImmixNurseryGCWorkContext<P: GenerationalPlanExt + Copy>(PhantomData<P>);

impl<P: GenerationalPlanExt + Copy> GCWorkContext for GenImmixNurseryGCWorkContext<P> {
    type PlanType = P;
    type DefaultTracePolicy = NurseryTracePolicy<P, DefaultTrace>;
    type PinningTracePolicy = UnsupportedTracePolicy;

    open spec fn supports_pinning() -> bool {
        false
    }

    fn default_trace_policy(plan: P) -> (p: NurseryTracePolicy<P, DefaultTrace>)
        ensures
            p.plan_spec() == plan,
    {
        NurseryTracePolicy::new(plan)
    }

    fn pinning_trace_policy(plan: P) -> (p: UnsupportedTracePolicy) {
        UnsupportedTracePolicy::new()
    }
}

} // verus!
