use vstd::prelude::*;

use crate::plan::tracing::MatureTracePolicy;
use crate::policy::gc_work::{DefaultTrace, PolicyTraceObject};
use crate::scheduler::GCWorkContext;
use std::marker::PhantomData;

verus! {

/// The GC work of PageProtect: the plan's own tracing for ordinary and pinning roots.
pub struct PPGCWorkContext<P: PolicyTraceObject + Copy>(PhantomData<P>);

impl<P: PolicyTraceObject + Copy> GCWorkContext for PPGCWorkContext<P> {
    type PlanType = P;
    type DefaultTracePolicy = MatureTracePolicy<P, DefaultTrace>;
    type PinningTracePolicy = MatureTracePolicy<P, DefaultTrace>;

    open spec fn supports_pinning() -> bool {
        true
    }

    fn default_trace_policy(plan: P) -> (p: MatureTracePolicy<P, DefaultTrace>)
        ensures
            p.plan_spec() == plan,
    {
        MatureTracePolicy::new(plan)
    }

    fn pinning_trace_policy(plan: P) -> (p: MatureTracePolicy<P, DefaultTrace>)
        ensures
            p.plan_spec() == plan,
    {
        MatureTracePolicy::new(plan)
    }
}

} // verus!
