use vstd::prelude::*;

use crate::util::address::Address;

verus! {

/// Log2 of the bytes in a chunk.
pub const LOG_BYTES_IN_CHUNK: usize = 22;
/// The bytes in a chunk.
pub const BYTES_IN_CHUNK: usize = 0x40_0000;

/// A chunk: a `BYTES_IN_CHUNK`-aligned region of the heap.
#[derive(Clone, Copy, Debug, PartialEq, Eq, Structural)]
pub struct Chunk(Address);

impl Chunk {
    /// The start address of the chunk.
    pub closed spec fn start_spec(self) -> Address {
        self.0
    }

    /// The chunk that contains `address`.
    pub fn from_unaligned_address(address: Address) -> (c: Chunk)
        ensures
            c.start_spec().value() == address.value() - address.value() % BYTES_IN_CHUNK,
            c.start_spec().value() % BYTES_IN_CHUNK == 0,
    {
        let raw = address.as_usize();
        proof {
            vstd::arithmetic::div_mod::lemma_fundamental_div_mod(raw as int, BYTES_IN_CHUNK as int);
            vstd::arithmetic::div_mod::lemma_mod_multiples_basic(raw as int / BYTES_IN_CHUNK as int, BYTES_IN_CHUNK as int);
        }
        Chunk(Address::from_usize(raw - raw % BYTES_IN_CHUNK))
    }

    /// The start address of the chunk.
    pub fn start(&self) -> (a: Address)
        ensures
            a == self.start_spec(),
    {
        self.0
    }
}

} // verus!
