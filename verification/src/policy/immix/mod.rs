use vstd::prelude::*;

pub mod block;
pub mod line;

verus! {

} // verus!
