use vstd::prelude::*;

pub mod block;

verus! {

} // verus!
