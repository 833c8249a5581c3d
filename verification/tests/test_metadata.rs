use mmtk::util::address::{Address, ObjectReference};
use mmtk::util::metadata::metadata_val_traits::{BitwiseOps, MetadataValue};
use mmtk::util::metadata::safe_access::MetadataSlot;
use mmtk::util::metadata::side_metadata::SideTable;
use mmtk::util::object_forwarding::{BEING_FORWARDED, FORWARDED, FORWARDING_NOT_TRIGGERED_YET};
use mmtk::util::test_private::{
    attempt_to_forward, clear_forwarding_bits, get_forwarding_status, new_histogram,
    set_meta_bits, zero_meta_bits, BLOCK_LINES, LINE_LOG_BYTES, LINE_MAX_MARK_STATE,
    LINE_RESET_MARK_STATE, WORK_BUFFER_CAPACITY,
};

fn bytes(t: &SideTable<u8>) -> Vec<u8> {
    (0..t.len()).map(|i| t.get(i)).collect()
}

#[test]
fn side_table_load_and_store() {
    let mut t: SideTable<u16> = SideTable::new(Address::from_usize(0x1000), 8, 4, 0);
    assert_eq!(t.len(), 4);
    assert_eq!(t.index(Address::from_usize(0x1009)), 1);
    t.store(Address::from_usize(0x1010), 5);
    assert_eq!(t.load(Address::from_usize(0x1017)), 5);
    assert_eq!(t.get(2), 5);
    assert_eq!(t.get(1), 0);
}

#[test]
fn set_meta_bits_within_one_byte() {
    let mut t: SideTable<u8> = SideTable::new(Address::from_usize(0x100), 1, 4, 0);
    set_meta_bits(&mut t, Address::from_usize(0x101), 2, Address::from_usize(0x101), 5);
    assert_eq!(bytes(&t), vec![0, 0b0001_1100, 0, 0]);
}

#[test]
fn set_meta_bits_across_bytes() {
    let mut t: SideTable<u8> = SideTable::new(Address::from_usize(0x100), 1, 5, 0);
    set_meta_bits(&mut t, Address::from_usize(0x100), 6, Address::from_usize(0x103), 3);
    assert_eq!(bytes(&t), vec![0b1100_0000, 0xff, 0xff, 0b0000_0111, 0]);
}

#[test]
fn zero_meta_bits_across_bytes() {
    let mut t: SideTable<u8> = SideTable::new(Address::from_usize(0x100), 1, 4, 0xff);
    zero_meta_bits(&mut t, Address::from_usize(0x100), 4, Address::from_usize(0x102), 1);
    assert_eq!(bytes(&t), vec![0x0f, 0, 0xfe, 0xff]);
}

#[test]
fn meta_bits_up_to_the_end_of_the_table() {
    // The bulk benchmark form: whole bytes from `start` (bit 0) to `end` (bit 0), where
    // `end` is just past the table.
    let mut t: SideTable<u8> = SideTable::new(Address::from_usize(0x100), 1, 3, 0x5a);
    set_meta_bits(&mut t, Address::from_usize(0x100), 0, Address::from_usize(0x103), 0);
    assert_eq!(bytes(&t), vec![0xff, 0xff, 0xff]);
    zero_meta_bits(&mut t, Address::from_usize(0x100), 0, Address::from_usize(0x103), 0);
    assert_eq!(bytes(&t), vec![0, 0, 0]);
}

#[test]
fn empty_bit_range_changes_nothing() {
    let mut t: SideTable<u8> = SideTable::new(Address::from_usize(0x100), 1, 2, 0x33);
    set_meta_bits(&mut t, Address::from_usize(0x101), 3, Address::from_usize(0x101), 3);
    zero_meta_bits(&mut t, Address::from_usize(0x100), 0, Address::from_usize(0x100), 0);
    assert_eq!(bytes(&t), vec![0x33, 0x33]);
}

#[test]
fn set_then_zero_restores_only_the_range() {
    let mut t: SideTable<u8> = SideTable::new(Address::from_usize(0x100), 1, 3, 0b1000_0001);
    set_meta_bits(&mut t, Address::from_usize(0x100), 3, Address::from_usize(0x102), 2);
    zero_meta_bits(&mut t, Address::from_usize(0x100), 3, Address::from_usize(0x102), 2);
    assert_eq!(bytes(&t), vec![0b0000_0001, 0, 0b1000_0000]);
}

#[test]
fn forwarding_claims_an_object_once() {
    let mut fwd: SideTable<u8> = SideTable::new(Address::from_usize(0x1000), 8, 16, 0);
    let o = ObjectReference::from_raw_address(Address::from_usize(0x1010)).unwrap();
    assert_eq!(get_forwarding_status(&fwd, o), FORWARDING_NOT_TRIGGERED_YET);
    assert_eq!(attempt_to_forward(&mut fwd, o), FORWARDING_NOT_TRIGGERED_YET);
    assert_eq!(get_forwarding_status(&fwd, o), BEING_FORWARDED);
    // A second attempt loses.
    assert_eq!(attempt_to_forward(&mut fwd, o), BEING_FORWARDED);
    assert_eq!(get_forwarding_status(&fwd, o), BEING_FORWARDED);
    // Other objects are untouched.
    let other = ObjectReference::from_raw_address(Address::from_usize(0x1018)).unwrap();
    assert_eq!(get_forwarding_status(&fwd, other), FORWARDING_NOT_TRIGGERED_YET);
    clear_forwarding_bits(&mut fwd, o);
    assert_eq!(get_forwarding_status(&fwd, o), FORWARDING_NOT_TRIGGERED_YET);
}

#[test]
fn forwarded_objects_stay_forwarded() {
    let mut fwd: SideTable<u8> = SideTable::new(Address::from_usize(0x1000), 8, 4, FORWARDED);
    let o = ObjectReference::from_raw_address(Address::from_usize(0x1008)).unwrap();
    assert_eq!(attempt_to_forward(&mut fwd, o), FORWARDED);
    assert_eq!(get_forwarding_status(&fwd, o), FORWARDED);
}

#[test]
fn benchmark_constants() {
    assert_eq!(BLOCK_LINES, 128);
    assert_eq!(LINE_LOG_BYTES, 8);
    assert_eq!(LINE_RESET_MARK_STATE, 1);
    assert_eq!(LINE_MAX_MARK_STATE, 127);
    assert_eq!(WORK_BUFFER_CAPACITY, 4096);
    let h = new_histogram();
    assert_eq!(h.len(), BLOCK_LINES / 2 + 1);
    assert!(h.iter().all(|&x| x == 0));
}

#[test]
fn metadata_slot_accesses() {
    let mut t: SideTable<u8> = SideTable::new(Address::from_usize(0x100), 8, 4, 0);
    let slot: MetadataSlot<u8> = MetadataSlot::new_unchecked(Address::from_usize(0x110));
    assert_eq!(slot.load(&t), 0);
    slot.store(&mut t, 250);
    assert_eq!(slot.load_atomic(&t), 250);
    assert_eq!(slot.fetch_add(&mut t, 10), 250);
    assert_eq!(slot.load(&t), 4);
    assert_eq!(slot.fetch_sub(&mut t, 5), 4);
    assert_eq!(slot.load(&t), 255);
    assert_eq!(slot.fetch_and(&mut t, 0x0f), 255);
    assert_eq!(slot.fetch_or(&mut t, 0x30), 0x0f);
    assert_eq!(slot.load(&t), 0x3f);
    assert_eq!(slot.compare_exchange(&mut t, 1, 2), Err(0x3f));
    assert_eq!(slot.compare_exchange(&mut t, 0x3f, 2), Ok(0x3f));
    assert_eq!(slot.load(&t), 2);
    assert_eq!(slot.fetch_update(&mut t, |v| if v < 3 { Some(v + 1) } else { None }), Ok(2));
    assert_eq!(slot.fetch_update(&mut t, |v| if v < 3 { Some(v + 1) } else { None }), Err(3));
    slot.store_atomic(&mut t, 9);
    // Only the slot's own entry changed.
    assert_eq!(t.get(2), 9);
    assert_eq!(t.get(1), 0);
    assert_eq!(t.get(3), 0);
}

#[test]
fn metadata_values_of_every_width() {
    assert_eq!(MetadataValue::wrapping_add(u16::MAX, 2u16), 1);
    assert_eq!(MetadataValue::wrapping_sub(0u32, 1u32), u32::MAX);
    assert_eq!(MetadataValue::wrapping_add(u64::MAX, 1u64), 0);
    assert!(MetadataValue::same_value(7usize, 7usize));
    assert_eq!(BitwiseOps::bitxor(0b1100u8, 0b1010u8), 0b0110);
    assert_eq!(BitwiseOps::inv(0u16), u16::MAX);
}
