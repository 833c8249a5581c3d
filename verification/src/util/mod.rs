use vstd::prelude::*;

pub mod address;
pub mod allocators;
pub mod constants;
pub mod heap;
pub mod malloc;
pub mod metadata;
pub mod object_forwarding;
pub mod opaque_pointer;
pub mod rust_util;
pub mod sanity;
pub mod test_private;

pub use address::{Address, ObjectReference};

verus! {

} // verus!
