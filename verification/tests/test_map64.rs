use mmtk::util::address::Address;
use mmtk::util::heap::chunk_map::{Chunk, BYTES_IN_CHUNK};
use mmtk::util::heap::layout::map32::{UnitFreeList, PAGES_IN_CHUNK};
use mmtk::util::heap::layout::map64::{Map64, VMLayout, MAX_SPACES, UNINITIALIZED_DESCRIPTOR};

const SPACE: usize = 1 << 41;

fn layout() -> VMLayout {
    VMLayout { space_size: SPACE, heap_end: MAX_SPACES * SPACE - 1 }
}

#[test]
fn space_index_and_start() {
    let m = Map64::new(layout());
    assert_eq!(m.space_index(Address::from_usize(3 * SPACE + 5)), Some(3));
    assert_eq!(m.space_index(Address::from_usize(MAX_SPACES * SPACE)), None);
    assert!(m.is_space_start(Address::from_usize(2 * SPACE)));
    assert!(!m.is_space_start(Address::from_usize(2 * SPACE + BYTES_IN_CHUNK)));
}

#[test]
fn descriptors_of_inserted_spaces() {
    let mut m = Map64::new(layout());
    assert_eq!(m.get_descriptor_for_address(Address::from_usize(SPACE)), UNINITIALIZED_DESCRIPTOR);
    m.insert(Address::from_usize(SPACE), SPACE, 42);
    assert_eq!(m.get_descriptor_for_address(Address::from_usize(SPACE + 100)), 42);
    assert_eq!(m.get_descriptor_for_address(Address::from_usize(2 * SPACE)), UNINITIALIZED_DESCRIPTOR);
    assert_eq!(
        m.get_descriptor_for_address(Address::from_usize(MAX_SPACES * SPACE)),
        UNINITIALIZED_DESCRIPTOR
    );
}

#[test]
fn contiguous_chunks_follow_each_other() {
    let mut m = Map64::new(layout());
    let mut none = None;
    let a = m.allocate_contiguous_chunks(2, 3, &mut none);
    let b = m.allocate_contiguous_chunks(2, 1, &mut none);
    assert_eq!(a.as_usize(), 2 * SPACE);
    assert_eq!(b.as_usize(), 2 * SPACE + 3 * BYTES_IN_CHUNK);
    assert!(none.is_none());
    // A space with a page list: the list grows by the pages of each new chunk.
    let mut list = Some(UnitFreeList::new(0));
    let c = m.allocate_contiguous_chunks(4, 2, &mut list);
    assert_eq!(c.as_usize(), 4 * SPACE);
    let mut list = list.unwrap();
    assert_eq!(list.size(0), PAGES_IN_CHUNK);
    assert_eq!(list.size(PAGES_IN_CHUNK), PAGES_IN_CHUNK);
    assert_eq!(list.size(1), 0);
    assert_eq!(list.allocate(1), None);
    assert_eq!(list.free(PAGES_IN_CHUNK), PAGES_IN_CHUNK);
    assert_eq!(list.allocate(1), Some(PAGES_IN_CHUNK));
}

#[test]
fn finalizing_the_space_map() {
    let mut m = Map64::new(layout());
    assert!(!m.is_finalized());
    m.finalize_static_space_map();
    assert!(m.is_finalized());
}

#[test]
fn chunk_of_an_address() {
    let c = Chunk::from_unaligned_address(Address::from_usize(3 * BYTES_IN_CHUNK + 17));
    assert_eq!(c.start().as_usize(), 3 * BYTES_IN_CHUNK);
}
