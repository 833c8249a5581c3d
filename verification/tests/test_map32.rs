use mmtk::util::address::Address;
use mmtk::util::heap::layout::map32::{Map32, UnitFreeList, PAGES_IN_CHUNK};
use mmtk::util::heap::layout::map64::UNINITIALIZED_DESCRIPTOR;

const CHUNK: usize = 0x40_0000;

fn chunk(i: usize) -> Address {
    Address::from_usize(i * CHUNK)
}

#[test]
fn unit_free_list_hands_out_the_lowest_free_run() {
    let mut l = UnitFreeList::new(8);
    assert_eq!(l.allocate(3), Some(0));
    assert_eq!(l.allocate(2), Some(3));
    assert_eq!(l.free(0), 3);
    assert_eq!(l.allocate(4), None);
    assert_eq!(l.allocate(2), Some(0));
    assert_eq!(l.size(0), 2);
    assert_eq!(l.size(3), 2);
    assert_eq!(l.size(1), 0);
    assert_eq!(l.allocate(3), Some(5));
}

#[test]
fn map32_finalize_and_allocate() {
    let mut m = Map32::new(16);
    assert!(!m.is_finalized());
    // Static spaces own chunks 1 and 2.
    m.insert(chunk(1), 2 * CHUNK, 7);
    assert_eq!(m.get_descriptor_for_address(chunk(1)), 7);
    assert_eq!(m.get_descriptor_for_address(Address::from_usize(2 * CHUNK + 5)), 7);
    assert_eq!(m.get_descriptor_for_address(chunk(3)), UNINITIALIZED_DESCRIPTOR);
    assert_eq!(m.get_descriptor_for_address(chunk(99)), UNINITIALIZED_DESCRIPTOR);
    // Chunks 4 to 9 are left to discontiguous spaces.
    m.finalize_static_space_map(chunk(4), Address::from_usize(10 * CHUNK - 1));
    assert!(m.is_finalized());
    assert_eq!(m.get_available_discontiguous_chunks(), 6);
    assert_eq!(m.get_contiguous_region_chunks(chunk(0)), 4);
    assert_eq!(m.get_contiguous_region_chunks(chunk(10)), 6);
    // A space takes two regions; the second is chained before the first.
    let a = m.allocate_contiguous_chunks(9, 2, Address::zero());
    assert_eq!(a, chunk(4));
    let b = m.allocate_contiguous_chunks(9, 3, a);
    assert_eq!(b, chunk(6));
    assert_eq!(m.get_available_discontiguous_chunks(), 1);
    assert_eq!(m.get_next_contiguous_region(b), a);
    assert_eq!(m.get_next_contiguous_region(a), Address::zero());
    assert_eq!(m.get_contiguous_region_size(b), 3 * CHUNK);
    assert_eq!(m.get_descriptor_for_address(chunk(8)), 9);
    // No run of two free chunks is left.
    assert_eq!(m.allocate_contiguous_chunks(9, 1, Address::zero()), chunk(9));
    // Freeing the first region unlinks it and gives its chunks back.
    assert_eq!(m.free_contiguous_chunks(b), 3);
    assert_eq!(m.get_available_discontiguous_chunks(), 3);
    assert_eq!(m.get_descriptor_for_address(chunk(6)), UNINITIALIZED_DESCRIPTOR);
    assert_eq!(m.get_next_contiguous_region(b), Address::zero());
    assert_eq!(m.allocate_contiguous_chunks(5, 3, Address::zero()), chunk(6));
    assert_eq!(m.create_freelist(), 1);
    assert_eq!(m.create_freelist(), 2);
    assert_eq!(m.get_chunk_consumer_count(), 2);
    assert_eq!(PAGES_IN_CHUNK, 1024);
}
