use vstd::prelude::*;

pub mod plan;
pub mod policy;
pub mod scheduler;
pub mod util;
pub mod vm;

verus! {

} // verus!
