use vstd::prelude::*;

use crate::plan::tracing::EDGES_WORK_BUFFER_SIZE;
use crate::policy::immix::block::{Histogram, HISTOGRAM_LEN};
use crate::util::address::{Address, ObjectReference};
use crate::util::metadata::side_metadata::{
    apply_mask,
    meta_bit_range_ok,
    range_mask,
    update_meta_bits,
    SideTable,
};
use crate::util::object_forwarding;

pub use crate::policy::immix::block::BLOCK_LINES;
pub use crate::policy::immix::line::{LINE_LOG_BYTES, LINE_MAX_MARK_STATE, LINE_RESET_MARK_STATE};

verus! {

/// The capacity of the work buffers of slot processing and of `VectorQueue`.
pub const WORK_BUFFER_CAPACITY: usize = EDGES_WORK_BUFFER_SIZE;

/// What a bulk update of metadata bits leaves in a byte table: every byte has the bits of
/// the range set (`set`) or cleared (`!set`), and the others kept.
pub open spec fn meta_bits_updated(
    before: SideTable<u8>,
    after: SideTable<u8>,
    start: Address,
    start_bit: u8,
    end: Address,
    end_bit: u8,
    set: bool,
) -> bool {
    &&& after@.len() == before@.len()
    &&& after.base() == before.base()
    &&& after.region_bytes() == before.region_bytes()
    &&& after.wf()
    &&& forall|i: int|
        0 <= i < before@.len() ==> #[trigger] after@[i] == apply_mask(
            before@[i],
            range_mask(i + before.base(), start.value() as int, start_bit, end.value() as int, end_bit),
            set,
        )
}

/// Clear the metadata bits from bit `meta_start_bit` of the byte at `meta_start_addr`
/// (included) to bit `meta_end_bit` of the byte at `meta_end_addr` (excluded).
pub fn zero_meta_bits(
    meta: &mut SideTable<u8>,
    meta_start_addr: Address,
    meta_start_bit: u8,
    meta_end_addr: Address,
    meta_end_bit: u8,
)
    requires
        meta_bit_range_ok(*old(meta), meta_start_addr, meta_start_bit, meta_end_addr, meta_end_bit),
    ensures
        meta_bits_updated(
            *old(meta),
            *final(meta),
            meta_start_addr,
            meta_start_bit,
            meta_end_addr,
            meta_end_bit,
            false,
        ),
{
    update_meta_bits(meta, meta_start_addr, meta_start_bit, meta_end_addr, meta_end_bit, false);
}

/// Set the metadata bits from bit `meta_start_bit` of the byte at `meta_start_addr`
/// (included) to bit `meta_end_bit` of the byte at `meta_end_addr` (excluded).
pub fn set_meta_bits(
    meta: &mut SideTable<u8>,
    meta_start_addr: Address,
    meta_start_bit: u8,
    meta_end_addr: Address,
    meta_end_bit: u8,
)
    requires
        meta_bit_range_ok(*old(meta), meta_start_addr, meta_start_bit, meta_end_addr, meta_end_bit),
    ensures
        meta_bits_updated(
            *old(meta),
            *final(meta),
            meta_start_addr,
            meta_start_bit,
            meta_end_addr,
            meta_end_bit,
            true,
        ),
{
    update_meta_bits(meta, meta_start_addr, meta_start_bit, meta_end_addr, meta_end_bit, true);
}

/// A histogram of marked lines with every bucket zero.
pub fn new_histogram() -> (h: Histogram)
    ensures
        h@ == Seq::new(HISTOGRAM_LEN as nat, |_i: int| 0usize),
{
    let mut h: Histogram = Vec::new();
    let mut i: usize = 0;
    while i < HISTOGRAM_LEN
        invariant
            i <= HISTOGRAM_LEN,
            h@ == Seq::new(i as nat, |_j: int| 0usize),
        decreases HISTOGRAM_LEN - i,
    {
        h.push(0);
        i += 1;
    }
    h
}

/// Try to claim `object` for forwarding; see `object_forwarding::attempt_to_forward`.
pub fn attempt_to_forward(fwd: &mut SideTable<u8>, object: ObjectReference) -> (old_status: u8)
    requires
        object_forwarding::tracks(*old(fwd), object),
    ensures
        old_status == object_forwarding::status_of(*old(fwd), object),
        final(fwd)@ == old(fwd)@.update(
            old(fwd).index_of(object.to_address_spec()),
            object_forwarding::after_attempt(old_status),
        ),
        final(fwd).base() == old(fwd).base(),
        final(fwd).region_bytes() == old(fwd).region_bytes(),
        final(fwd).wf(),
{
    object_forwarding::attempt_to_forward(fwd, object)
}

/// The forwarding status of `object`.
pub fn get_forwarding_status(fwd: &SideTable<u8>, object: ObjectReference) -> (s: u8)
    requires
        object_forwarding::tracks(*fwd, object),
    ensures
        s == object_forwarding::status_of(*fwd, object),
{
    object_forwarding::get_forwarding_status(fwd, object)
}

/// Reset the forwarding status of `object`.
pub fn clear_forwarding_bits(fwd: &mut SideTable<u8>, object: ObjectReference)
    requires
        object_forwarding::tracks(*old(fwd), object),
    ensures
        final(fwd)@ == old(fwd)@.update(
            old(fwd).index_of(object.to_address_spec()),
            object_forwarding::FORWARDING_NOT_TRIGGERED_YET,
        ),
        final(fwd).base() == old(fwd).base(),
        final(fwd).region_bytes() == old(fwd).region_bytes(),
        final(fwd).wf(),
{
    object_forwarding::clear_forwarding_bits(fwd, object)
}

} // verus!
