use vstd::prelude::*;

pub mod metadata_val_traits;
pub mod safe_access;
pub mod side_metadata;

verus! {

} // verus!
