use vstd::prelude::*;

use crate::util::address::ObjectReference;
use crate::util::metadata::side_metadata::SideTable;

verus! {

/// Forwarding has not been triggered for the object.
pub const FORWARDING_NOT_TRIGGERED_YET: u8 = 0b00;

/// A thread has claimed the object and is copying it.
pub const BEING_FORWARDED: u8 = 0b10;

/// The object has been copied and its forwarding pointer is set.
pub const FORWARDED: u8 = 0b11;

/// The bits of a forwarding status.
pub const FORWARDING_MASK: u8 = 0b11;

/// The forwarding state of every object covered by a table: one status byte per object
/// slot, holding one of the three forwarding states.
pub open spec fn forwarding_table_wf(fwd: SideTable<u8>) -> bool {
    &&& fwd.wf()
    &&& forall|i: int| 0 <= i < fwd@.len() ==> #[trigger] fwd@[i] <= FORWARDING_MASK
}

/// Whether the forwarding table holds the status of `object`.
pub open spec fn tracks(fwd: SideTable<u8>, object: ObjectReference) -> bool {
    fwd.covers(object.to_address_spec())
}

/// The status of `object` in the forwarding table.
pub open spec fn status_of(fwd: SideTable<u8>, object: ObjectReference) -> u8 {
    fwd.entry(object.to_address_spec())
}

/// The status that an attempt to forward leaves behind: a fresh object becomes claimed,
/// any other keeps its state.
pub open spec fn after_attempt(status: u8) -> u8 {
    if status == FORWARDING_NOT_TRIGGERED_YET {
        BEING_FORWARDED
    } else {
        status
    }
}

/// The forwarding status of `object`.
pub fn get_forwarding_status(fwd: &SideTable<u8>, object: ObjectReference) -> (s: u8)
    requires
        tracks(*fwd, object),
    ensures
        s == status_of(*fwd, object),
{
    fwd.load(object.to_raw_address())
}

/// Try to claim `object` for forwarding. A fresh object becomes `BEING_FORWARDED`; the
/// status that was found is returned, so the caller that gets back
/// `FORWARDING_NOT_TRIGGERED_YET` is the one that copies the object.
pub fn attempt_to_forward(fwd: &mut SideTable<u8>, object: ObjectReference) -> (old_status: u8)
    requires
        tracks(*old(fwd), object),
    ensures
        old_status == status_of(*old(fwd), object),
        final(fwd)@ == old(fwd)@.update(
            old(fwd).index_of(object.to_address_spec()),
            after_attempt(old_status),
        ),
        final(fwd).base() == old(fwd).base(),
        final(fwd).region_bytes() == old(fwd).region_bytes(),
        final(fwd).wf(),
        forwarding_table_wf(*old(fwd)) ==> forwarding_table_wf(*final(fwd)),
{
    let addr = object.to_raw_address();
    let old_status = fwd.load(addr);
    if old_status == FORWARDING_NOT_TRIGGERED_YET {
        fwd.store(addr, BEING_FORWARDED);
    }
    proof {
        assert(fwd@ =~= old(fwd)@.update(
            old(fwd).index_of(object.to_address_spec()),
            after_attempt(old_status),
        ));
    }
    old_status
}

/// Reset the forwarding status of `object` to `FORWARDING_NOT_TRIGGERED_YET`.
pub fn clear_forwarding_bits(fwd: &mut SideTable<u8>, object: ObjectReference)
    requires
        tracks(*old(fwd), object),
    ensures
        final(fwd)@ == old(fwd)@.update(
            old(fwd).index_of(object.to_address_spec()),
            FORWARDING_NOT_TRIGGERED_YET,
        ),
        final(fwd).base() == old(fwd).base(),
        final(fwd).region_bytes() == old(fwd).region_bytes(),
        final(fwd).wf(),
        forwarding_table_wf(*old(fwd)) ==> forwarding_table_wf(*final(fwd)),
{
    fwd.store(object.to_raw_address(), FORWARDING_NOT_TRIGGERED_YET);
}

/// Of two attempts to forward the same object, at most one claims it: once an attempt
/// has found the object fresh, the next one finds it `BEING_FORWARDED`.
pub proof fn lemma_single_claim(status: u8)
    ensures
        after_attempt(status) != FORWARDING_NOT_TRIGGERED_YET,
        status == FORWARDING_NOT_TRIGGERED_YET ==> after_attempt(status) == BEING_FORWARDED,
        after_attempt(after_attempt(status)) == after_attempt(status),
{
}

} // verus!
