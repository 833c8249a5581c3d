use vstd::prelude::*;

pub mod chunk_map;
pub mod layout;

verus! {

} // verus!
