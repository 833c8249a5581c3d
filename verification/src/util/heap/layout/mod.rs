use vstd::prelude::*;

pub mod map32;
pub mod map64;

verus! {

} // verus!
