use vstd::prelude::*;

verus! {

/// Log2 of the bytes in a page.
pub const LOG_BYTES_IN_PAGE: usize = 12;
/// The bytes in a page.
pub const BYTES_IN_PAGE: usize = 4096;
/// The bytes in an address.
pub const BYTES_IN_ADDRESS: usize = 8;
/// The smallest size of an object.
pub const MIN_OBJECT_SIZE: usize = 8;

} // verus!
