use vstd::prelude::*;

use crate::util::address::Address;
use crate::util::metadata::side_metadata::SideTable;

verus! {

/// Log2 of the bytes in an Immix line.
pub const LINE_LOG_BYTES: usize = 8;
/// The bytes in an Immix line.
pub const LINE_BYTES: usize = 256;
/// The line mark state that a fresh collection cycle starts with.
pub const LINE_RESET_MARK_STATE: u8 = 1;
/// The largest line mark state before the state wraps around.
pub const LINE_MAX_MARK_STATE: u8 = 127;

/// An Immix line: a `LINE_BYTES`-aligned region inside a block.
#[derive(Clone, Copy, Debug, PartialEq, Eq, Structural)]
pub struct Line(Address);

impl Line {
    /// The start address of the line.
    pub closed spec fn start_spec(self) -> Address {
        self.0
    }

    /// The line that starts at `address`, which must be line-aligned.
    pub fn from_aligned_address(address: Address) -> (l: Line)
        requires
            address.value() % LINE_BYTES == 0,
        ensures
            l.start_spec() == address,
    {
        Line(address)
    }

    /// The start address of the line.
    pub fn start(&self) -> (a: Address)
        ensures
            a == self.start_spec(),
    {
        self.0
    }

    /// Whether the line's mark byte equals `state`.
    pub fn is_marked(&self, state: u8, marks: &SideTable<u8>) -> (r: bool)
        requires
            marks.covers(self.start_spec()),
        ensures
            r == (marks.entry(self.start_spec()) == state),
    {
        marks.load(self.0) == state
    }

    /// Set the line's mark byte to `state`.
    pub fn mark(&self, state: u8, marks: &mut SideTable<u8>)
        requires
            old(marks).covers(self.start_spec()),
        ensures
            final(marks)@ == old(marks)@.update(old(marks).index_of(self.start_spec()), state),
            final(marks).base() == old(marks).base(),
            final(marks).region_bytes() == old(marks).region_bytes(),
            final(marks).wf(),
    {
        marks.store(self.0, state);
    }
}

} // verus!
