use mmtk::util::allocators::{
    AllocatorFieldOffsets, AllocatorInfo, AllocatorSelector, Allocators, BumpAllocatorKind,
    FreeListAllocatorKind, ImmixAllocatorKind, LargeObjectAllocatorKind, MallocAllocatorKind,
    MarkCompactAllocatorKind, AllocatorContext, BoundAllocator, SpaceKind, SpaceRef,
};
use mmtk::util::address::Address;
use mmtk::util::opaque_pointer::{OpaquePointer, VMThread};

#[test]
fn selector_bit_offsets() {
    assert_eq!(AllocatorSelector::BumpPointer(0).get_bit_offset(), 0);
    assert_eq!(AllocatorSelector::BumpPointer(5).get_bit_offset(), 5);
    assert_eq!(AllocatorSelector::LargeObject(1).get_bit_offset(), 7);
    assert_eq!(AllocatorSelector::Malloc(0).get_bit_offset(), 8);
    assert_eq!(AllocatorSelector::Immix(1).get_bit_offset(), 10);
    assert_eq!(AllocatorSelector::FreeList(0).get_bit_offset(), 11);
    assert_eq!(AllocatorSelector::MarkCompact(0).get_bit_offset(), 13);
    assert_eq!(AllocatorSelector::default(), AllocatorSelector::Unselected);
}

fn space(at: usize, kind: SpaceKind) -> SpaceRef {
    SpaceRef { space: OpaquePointer::from_address(Address::from_usize(at)), kind }
}

fn tls() -> VMThread {
    VMThread(OpaquePointer::from_address(Address::from_usize(0x77)))
}

fn mmtk() -> OpaquePointer {
    OpaquePointer::from_address(Address::from_usize(0x99))
}

#[test]
fn allocators_record_exactly_the_mapped_selectors() {
    let immix = space(0x1000, SpaceKind::Other);
    let los = space(0x2000, SpaceKind::LargeObject);
    let other = space(0x3000, SpaceKind::Other);
    let mapping = vec![
        (AllocatorSelector::Immix(0), immix),
        (AllocatorSelector::LargeObject(0), los),
        (AllocatorSelector::Immix(0), other),
        (AllocatorSelector::MarkCompact(0), other),
    ];
    let a = Allocators::new(tls(), mmtk(), &mapping);
    assert_eq!(a.initialized_bitmap, (1 << 9) | (1 << 6) | (1 << 13));
    assert!(a.is_initialized::<ImmixAllocatorKind>(0));
    assert!(!a.is_initialized::<ImmixAllocatorKind>(1));
    assert!(a.is_initialized::<LargeObjectAllocatorKind>(0));
    assert!(a.is_initialized::<MarkCompactAllocatorKind>(0));
    assert!(!a.is_initialized::<BumpAllocatorKind>(0));
    assert!(!a.is_initialized::<MallocAllocatorKind>(0));
    assert!(!a.is_initialized::<FreeListAllocatorKind>(0));
    // Each allocator is set up for the mutator and its space, with the shared context;
    // a later entry for the same selector wins.
    let context = AllocatorContext { mmtk: mmtk() };
    assert_eq!(
        a.get_allocator(AllocatorSelector::Immix(0)),
        Some(BoundAllocator { tls: tls(), space: other, context })
    );
    assert_eq!(
        a.get_allocator(AllocatorSelector::LargeObject(0)),
        Some(BoundAllocator { tls: tls(), space: los, context })
    );
    assert_eq!(
        a.get_typed_allocator::<MarkCompactAllocatorKind>(AllocatorSelector::MarkCompact(0)),
        Some(BoundAllocator { tls: tls(), space: other, context })
    );
}

#[test]
fn set_initialized_adds_one_bit() {
    let mut a = Allocators::new(tls(), mmtk(), &vec![]);
    assert_eq!(a.initialized_bitmap, 0);
    a.set_initialized::<FreeListAllocatorKind>(1);
    assert_eq!(a.initialized_bitmap, 1 << 12);
    a.set_initialized::<FreeListAllocatorKind>(1);
    assert_eq!(a.initialized_bitmap, 1 << 12);
    a.set_initialized::<BumpAllocatorKind>(2);
    assert_eq!(a.initialized_bitmap, (1 << 12) | (1 << 2));
}

#[test]
fn allocator_info_offsets() {
    let offsets = AllocatorFieldOffsets {
        bump_allocator_bump_pointer: 16,
        immix_allocator_bump_pointer: 24,
        mark_compact_bump_allocator: 8,
    };
    assert_eq!(
        AllocatorInfo::new(AllocatorSelector::BumpPointer(0), 100, offsets),
        AllocatorInfo::BumpPointer { bump_pointer_offset: 116 }
    );
    assert_eq!(
        AllocatorInfo::new(AllocatorSelector::Immix(0), 100, offsets),
        AllocatorInfo::BumpPointer { bump_pointer_offset: 124 }
    );
    assert_eq!(
        AllocatorInfo::new(AllocatorSelector::MarkCompact(0), 100, offsets),
        AllocatorInfo::BumpPointer { bump_pointer_offset: 124 }
    );
    assert_eq!(
        AllocatorInfo::new(AllocatorSelector::FreeList(0), 100, offsets),
        AllocatorInfo::Unimplemented
    );
    assert_eq!(
        AllocatorInfo::new(AllocatorSelector::LargeObject(0), 100, offsets),
        AllocatorInfo::NoFastPath
    );
    assert_eq!(AllocatorInfo::default(), AllocatorInfo::NoFastPath);
}
