use mmtk::util::address::{Address, ObjectReference};

#[test]
fn test_align_up() {
    let addr = Address::zero();
    let aligned = addr.align_up(8);

    assert_eq!(addr, aligned);
}

#[test]
fn test_is_aligned() {
    let addr = Address::zero();
    assert!(addr.is_aligned_to(8));

    let addr = Address::zero().add(8);
    assert!(addr.is_aligned_to(8));
}

#[test]
fn align_up_rounds_to_the_next_multiple() {
    assert_eq!(Address::from_usize(9).align_up(8).as_usize(), 16);
    assert_eq!(Address::from_usize(16).align_up(8).as_usize(), 16);
    assert_eq!(Address::from_usize(1).align_up(4096).as_usize(), 4096);
    // Alignments need not be powers of two.
    assert_eq!(Address::from_usize(7).align_up(3).as_usize(), 9);
}

#[test]
fn address_arithmetic() {
    let a = Address::from_usize(0x1000);
    assert_eq!(a.add(0x20).as_usize(), 0x1020);
    assert_eq!(a.sub(0x20).as_usize(), 0xfe0);
    assert_eq!(a.add(0x20).diff(a), 0x20);
    assert!(!a.is_zero());
    assert!(Address::zero().is_zero());
    assert!(!Address::from_usize(12).is_aligned_to(8));
}

#[test]
fn object_reference_is_a_non_zero_address() {
    assert!(ObjectReference::from_raw_address(Address::zero()).is_none());
    let o = ObjectReference::from_raw_address(Address::from_usize(0x2008)).unwrap();
    assert_eq!(o.to_raw_address().as_usize(), 0x2008);
}
