use vstd::prelude::*;

use crate::scheduler::gc_work::GcAction;

verus! {

/// Set the unlog bits of the objects in the spaces of the common plan.
pub struct SetCommonPlanUnlogBits;

impl SetCommonPlanUnlogBits {
    /// The packet.
    pub fn new() -> (p: Self) {
        Self
    }

    /// The actions of the packet.
    pub fn do_work(&self) -> (r: Vec<GcAction>)
        ensures
            r@ == seq![GcAction::SetCommonSideLogBits],
    {
        let mut r: Vec<GcAction> = Vec::new();
        r.push(GcAction::SetCommonSideLogBits);
        r
    }
}

/// Clear the unlog bits of the objects in the spaces of the common plan.
pub struct ClearCommonPlanUnlogBits;

impl ClearCommonPlanUnlogBits {
    /// The packet.
    pub fn new() -> (p: Self) {
        Self
    }

    /// The actions of the packet.
    pub fn do_work(&self) -> (r: Vec<GcAction>)
        ensures
            r@ == seq![GcAction::ClearCommonSideLogBits],
    {
        let mut r: Vec<GcAction> = Vec::new();
        r.push(GcAction::ClearCommonSideLogBits);
        r
    }
}

} // verus!
