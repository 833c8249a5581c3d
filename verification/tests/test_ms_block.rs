use mmtk::policy::marksweepspace::native_ms::block::{
    Block, BlockState, MarkSweepMetadata, SweepConfig, MS_BLOCK_BYTES, MS_MARK_MARKED,
};
use mmtk::util::address::Address;
use mmtk::util::metadata::side_metadata::SideTable;
use mmtk::util::opaque_pointer::{OpaquePointer, VMThread};

const START: usize = 0x40_0000;
const CELL: usize = 16384;

fn metadata(cell_size: usize) -> MarkSweepMetadata {
    let base = Address::from_usize(START);
    MarkSweepMetadata {
        mark: SideTable::new(base, MS_BLOCK_BYTES, 2, 0),
        next_block: SideTable::new(base, MS_BLOCK_BYTES, 2, 0),
        prev_block: SideTable::new(base, MS_BLOCK_BYTES, 2, 0),
        free_list: SideTable::new(base, MS_BLOCK_BYTES, 2, 0),
        local_free_list: SideTable::new(base, MS_BLOCK_BYTES, 2, 0),
        thread_free_list: SideTable::new(base, MS_BLOCK_BYTES, 2, 0),
        cell_size: SideTable::new(base, MS_BLOCK_BYTES, 2, cell_size),
        tls: SideTable::new(base, MS_BLOCK_BYTES, 2, 0),
    }
}

fn heap_words() -> SideTable<usize> {
    SideTable::new(Address::from_usize(START), 8, MS_BLOCK_BYTES / 8, 0xdead)
}

fn marks() -> SideTable<bool> {
    SideTable::new(Address::from_usize(START), 8, MS_BLOCK_BYTES / 8 + 8, false)
}

fn simple_config() -> SweepConfig {
    SweepConfig {
        use_allocation_offset: false,
        max_alignment: 8,
        min_alignment: 8,
        unified_object_reference_address: true,
        object_ref_offset_lower_bound: 0,
    }
}

fn word(words: &SideTable<usize>, a: usize) -> usize {
    words.load(Address::from_usize(a))
}

#[test]
fn simple_sweep_links_the_free_cells() {
    let b = Block::from_aligned_address(Address::from_usize(START));
    let mut meta = metadata(CELL);
    let mut words = heap_words();
    let mut m = marks();
    m.store(Address::from_usize(START + CELL), true);
    m.store(Address::from_usize(START + 3 * CELL), true);
    b.sweep(&mut meta, &mut words, &m, simple_config());
    // Free cells 0 and 2: the list starts at the last one and links backwards.
    assert_eq!(b.load_free_list(&meta).as_usize(), START + 2 * CELL);
    assert_eq!(word(&words, START + 2 * CELL), START);
    assert_eq!(word(&words, START), 0);
    // Live cells are untouched.
    assert_eq!(word(&words, START + CELL), 0xdead);
    assert_eq!(word(&words, START + 3 * CELL), 0xdead);
    assert!(b.has_free_cells(&meta));
}

#[test]
fn sweep_of_a_full_block_leaves_no_free_cell() {
    let b = Block::from_aligned_address(Address::from_usize(START));
    let mut meta = metadata(CELL);
    let mut words = heap_words();
    let mut m = marks();
    for k in 0..4 {
        m.store(Address::from_usize(START + k * CELL), true);
    }
    b.sweep(&mut meta, &mut words, &m, simple_config());
    assert_eq!(b.load_free_list(&meta).as_usize(), 0);
    assert!(!b.has_free_cells(&meta));
}

#[test]
fn brute_force_sweep_finds_marks_inside_cells() {
    let b = Block::from_aligned_address(Address::from_usize(START));
    let mut meta = metadata(CELL);
    let mut words = heap_words();
    let mut m = marks();
    // An object reference 24 bytes into cell 0 and 8 bytes (plus the offset) into cell 3.
    m.store(Address::from_usize(START + 24 + 8), true);
    m.store(Address::from_usize(START + 3 * CELL + 8 + 8), true);
    let config = SweepConfig {
        use_allocation_offset: true,
        max_alignment: 8,
        min_alignment: 8,
        unified_object_reference_address: true,
        object_ref_offset_lower_bound: 8,
    };
    b.sweep(&mut meta, &mut words, &m, config);
    assert_eq!(b.load_free_list(&meta).as_usize(), START + 2 * CELL);
    assert_eq!(word(&words, START + 2 * CELL), START + CELL);
    assert_eq!(word(&words, START + CELL), 0);
    assert_eq!(word(&words, START), 0xdead);
}

#[test]
fn block_states_and_release() {
    let b = Block::from_aligned_address(Address::from_usize(START));
    let mut meta = metadata(CELL);
    let other = Block::from_aligned_address(Address::from_usize(START + 0x10000));
    b.init(&mut meta);
    assert_eq!(b.get_state(&meta), BlockState::Unmarked);
    b.set_state(&mut meta, BlockState::Marked);
    assert_eq!(meta.mark.load(Address::from_usize(START)), MS_MARK_MARKED);
    // A marked block is live: it stays in its list.
    let mut list = vec![other, b];
    assert!(!b.attempt_release(&mut list, &mut meta));
    assert_eq!(list, vec![other, b]);
    assert_eq!(b.get_state(&meta), BlockState::Marked);
    // An unmarked block leaves its list and is deinitialized.
    b.set_state(&mut meta, BlockState::Unmarked);
    assert!(b.attempt_release(&mut list, &mut meta));
    assert_eq!(list, vec![other]);
    assert_eq!(b.get_state(&meta), BlockState::Unallocated);
    b.init(&mut meta);
    b.deinit(&mut meta);
    assert_eq!(b.get_state(&meta), BlockState::Unallocated);
    assert_eq!(BlockState::from_byte(255), BlockState::Unmarked);
}

#[test]
fn block_lists_and_free_lists() {
    let a = Block::from_aligned_address(Address::from_usize(START));
    let b = Block::from_aligned_address(Address::from_usize(START + MS_BLOCK_BYTES));
    let mut meta = metadata(CELL);
    assert_eq!(a.load_next_block(&meta), None);
    a.store_next_block(&mut meta, b);
    b.store_prev_block(&mut meta, a);
    assert_eq!(a.load_next_block(&meta), Some(b));
    assert_eq!(b.load_prev_block(&meta), Some(a));
    a.clear_next_block(&mut meta);
    b.clear_prev_block(&mut meta);
    assert_eq!(a.load_next_block(&meta), None);
    assert_eq!(b.load_prev_block(&meta), None);

    a.store_local_free_list(&mut meta, Address::from_usize(START + 64));
    assert_eq!(a.load_local_free_list(&meta).as_usize(), START + 64);
    a.store_thread_free_list(&mut meta, Address::from_usize(START + 128));
    assert!(!a.cas_thread_free_list(&mut meta, Address::from_usize(START), Address::zero()));
    assert_eq!(a.load_thread_free_list(&meta).as_usize(), START + 128);
    assert!(a.cas_thread_free_list(&mut meta, Address::from_usize(START + 128), Address::zero()));
    assert!(a.load_thread_free_list(&meta).is_zero());

    a.store_block_cell_size(&mut meta, 64);
    assert_eq!(a.load_block_cell_size(&meta), 64);
    let t = VMThread(OpaquePointer::from_address(Address::from_usize(0x77)));
    a.store_tls(&mut meta, t);
    assert_eq!(a.load_tls(&meta), t);
    assert_eq!(a.end().as_usize(), START + MS_BLOCK_BYTES);
    assert_eq!(a.chunk().start().as_usize(), START);
}

#[test]
fn cells_of_a_block() {
    let b = Block::from_aligned_address(Address::from_usize(START));
    let mut it = b.cells(CELL);
    let mut found = Vec::new();
    while let Some(c) = it.next() {
        found.push(c.address().as_usize());
    }
    assert_eq!(found, vec![START, START + CELL, START + 2 * CELL, START + 3 * CELL]);
    // Cells that do not divide the block: the last partial cell is not handed out.
    let mut it = b.cells(3 * CELL);
    assert_eq!(it.next().unwrap().address().as_usize(), START);
    assert!(it.next().is_none());
}

#[test]
fn block_list_of_a_block() {
    let b = Block::from_aligned_address(Address::from_usize(START));
    let mut lists: SideTable<usize> = SideTable::new(Address::from_usize(START), MS_BLOCK_BYTES, 2, 0);
    assert!(b.load_block_list(&lists).to_address().is_zero());
    b.store_block_list(&mut lists, OpaquePointer::from_address(Address::from_usize(0x5000)));
    assert_eq!(b.load_block_list(&lists).to_address().as_usize(), 0x5000);
}
