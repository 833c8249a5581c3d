use vstd::prelude::*;

use crate::util::address::Address;

verus! {

/// A pointer that the library never dereferences, kept as an address.
#[derive(Clone, Copy, Debug, PartialEq, Eq, Structural)]
pub struct OpaquePointer(pub Address);

impl OpaquePointer {
    /// The pointer for the given address.
    pub fn from_address(addr: Address) -> (p: OpaquePointer)
        ensures
            p.0 == addr,
    {
        OpaquePointer(addr)
    }

    /// The address of this pointer.
    pub fn to_address(self) -> (a: Address)
        ensures
            a == self.0,
    {
        self.0
    }
}

/// A thread of the virtual machine, identified by an opaque pointer.
#[derive(Clone, Copy, Debug, PartialEq, Eq, Structural)]
pub struct VMThread(pub OpaquePointer);

} // verus!
