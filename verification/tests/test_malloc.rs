use mmtk::util::address::Address;
use mmtk::util::malloc::malloc_ms_util::{
    align_allocation_no_fill, align_offset_alloc, alloc_request, get_malloc_usable_size,
    offset_header, MallocRequest, UsableSizeQuery,
};

#[test]
fn allocation_requests() {
    assert_eq!(alloc_request(64, 8, 0), (MallocRequest::Calloc { size: 64 }, false));
    assert_eq!(alloc_request(64, 16, 0), (MallocRequest::Calloc { size: 64 }, false));
    assert_eq!(
        alloc_request(64, 32, 0),
        (MallocRequest::AlignAlloc { size: 64, align: 32 }, false)
    );
    assert_eq!(
        alloc_request(64, 16, 4),
        (MallocRequest::OffsetAlloc { actual_size: 64 + 16 + 8, align: 16, offset: 4 }, true)
    );
}

#[test]
fn aligning_an_allocation_at_an_offset() {
    let r = align_allocation_no_fill(Address::from_usize(0x1003), 16, 0);
    assert_eq!(r.as_usize(), 0x1010);
    let r = align_allocation_no_fill(Address::from_usize(0x1000), 16, 4);
    assert_eq!(r.as_usize(), 0x100c);
    let r = align_allocation_no_fill(Address::from_usize(0x100c), 16, 4);
    assert_eq!(r.as_usize(), 0x100c);
}

#[test]
fn offset_allocation_leaves_room_for_the_header() {
    // The first aligned address is the block itself: no room for the header word, so
    // the result moves up by one alignment.
    let block = Address::from_usize(0x2000);
    let r = align_offset_alloc(block, 100, 16, 0);
    assert_eq!(r.as_usize(), 0x2010);
    assert_eq!(offset_header(r).as_usize(), 0x2008);
    // Enough room below the first aligned address.
    let r = align_offset_alloc(block, 100, 32, 8);
    assert_eq!(r.as_usize(), 0x2018);
    assert_eq!((r.as_usize() + 8) % 32, 0);
}

#[test]
fn usable_size_queries() {
    let a = Address::from_usize(0x3010);
    assert_eq!(get_malloc_usable_size(a, false), UsableSizeQuery::Direct(a));
    assert_eq!(
        get_malloc_usable_size(a, true),
        UsableSizeQuery::ThroughHeader(Address::from_usize(0x3008))
    );
}

#[test]
fn failed_calloc_gives_zero() {
    assert!(align_offset_alloc(Address::zero(), 8, 8, 0).is_zero());
}
