use vstd::prelude::*;

pub mod gc_work;
pub mod immix;
pub mod marksweepspace;

verus! {

} // verus!
