use vstd::prelude::*;

verus! {

/// Implemented only by the trace kinds of this crate.
pub trait Sealed {
}

} // verus!
