use vstd::prelude::*;

pub mod closure;
pub mod sanity_checker;

verus! {

} // verus!
