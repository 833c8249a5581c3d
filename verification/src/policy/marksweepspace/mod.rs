use vstd::prelude::*;

pub mod native_ms;

verus! {

} // verus!
