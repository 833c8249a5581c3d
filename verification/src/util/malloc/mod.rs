use vstd::prelude::*;

pub mod malloc_ms_util;

verus! {

} // verus!
