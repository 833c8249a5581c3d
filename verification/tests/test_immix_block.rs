use mmtk::policy::immix::block::{
    sweep_count, sweep_count_scalar, sweep_count_simd, Block, BlockState, ImmixMetadata,
    ReusableBlockPool, BLOCK_BYTES, BLOCK_LINES, HISTOGRAM_LEN,
};
use mmtk::policy::immix::line::{Line, LINE_BYTES};
use mmtk::util::address::Address;
use mmtk::util::metadata::side_metadata::SideTable;

const HEAP: usize = 0x10_0000;

fn metadata(blocks: usize) -> ImmixMetadata {
    let base = Address::from_usize(HEAP);
    ImmixMetadata {
        block_mark: SideTable::new(base, BLOCK_BYTES, blocks, 0),
        block_defrag: SideTable::new(base, BLOCK_BYTES, blocks, 0),
        line_mark: SideTable::new(base, LINE_BYTES, blocks * BLOCK_LINES, 0),
    }
}

fn mark_lines(meta: &mut ImmixMetadata, block: Block, lines: std::ops::Range<usize>, state: u8) {
    for j in lines {
        let line = Line::from_aligned_address(block.start().add(j * LINE_BYTES));
        line.mark(state, &mut meta.line_mark);
    }
}

fn line_bytes(meta: &ImmixMetadata, block: Block) -> Vec<u8> {
    block.line_mark_table(meta)
}

#[test]
fn counts_of_a_line_mark_table() {
    let mut data = vec![0u8; BLOCK_LINES];
    // All unmarked: one hole.
    assert_eq!(sweep_count(&data, 3), (0, 1));
    for b in data.iter_mut().take(10) {
        *b = 3;
    }
    for b in data.iter_mut().skip(20).take(10) {
        *b = 3;
    }
    assert_eq!(sweep_count(&data, 3), (20, 2));
    assert_eq!(sweep_count_scalar(&data, 3), (20, 2));
    assert_eq!(sweep_count_simd(&data, 3), (20, 2));
    // All marked: no hole.
    let full = vec![3u8; BLOCK_LINES];
    assert_eq!(sweep_count(&full, 3), (BLOCK_LINES, 0));
}

#[test]
fn lane_and_scalar_counts_agree() {
    // Holes that start at a vector boundary, and alternating lines.
    let mut data = vec![0u8; BLOCK_LINES];
    for (i, b) in data.iter_mut().enumerate() {
        if (i / 16) % 2 == 0 || i % 3 == 0 {
            *b = 9;
        }
    }
    let (m, h) = sweep_count_simd(&data, 9);
    assert_eq!((m as usize, h as usize), sweep_count_scalar(&data, 9));
    let alternating: Vec<u8> = (0..BLOCK_LINES).map(|i| if i % 2 == 0 { 1 } else { 0 }).collect();
    assert_eq!(sweep_count_simd(&alternating, 1), (64, 64));
    assert_eq!(sweep_count_scalar(&alternating, 1), (64, 64));
}

#[test]
fn block_state_bytes() {
    assert_eq!(BlockState::from(0u8), BlockState::Unallocated);
    assert_eq!(BlockState::from(255u8), BlockState::Unmarked);
    assert_eq!(BlockState::from(254u8), BlockState::Marked);
    assert_eq!(BlockState::from(17u8), BlockState::Reusable { unavailable_lines: 17 });
    assert_eq!(u8::from(BlockState::Reusable { unavailable_lines: 17 }), 17);
    assert_eq!(u8::from(BlockState::Marked), 254);
    assert!(BlockState::Reusable { unavailable_lines: 1 }.is_reusable());
    assert!(!BlockState::Marked.is_reusable());
}

#[test]
fn block_geometry() {
    let b = Block::from_aligned_address(Address::from_usize(HEAP + BLOCK_BYTES));
    assert_eq!(b.start().as_usize(), HEAP + BLOCK_BYTES);
    assert_eq!(b.end().as_usize(), HEAP + 2 * BLOCK_BYTES);
    assert_eq!(b.start_line().start().as_usize(), HEAP + BLOCK_BYTES);
    assert_eq!(b.end_line().start().as_usize(), HEAP + 2 * BLOCK_BYTES);
    let lines = b.lines();
    assert_eq!(lines.len(), BLOCK_LINES);
    assert_eq!(lines[3].start().as_usize(), HEAP + BLOCK_BYTES + 3 * LINE_BYTES);
}

#[test]
fn block_state_and_defrag_metadata() {
    let mut meta = metadata(2);
    let b = Block::from_aligned_address(Address::from_usize(HEAP));
    let other = Block::from_aligned_address(Address::from_usize(HEAP + BLOCK_BYTES));
    b.init(&mut meta, false);
    assert_eq!(b.get_state(&meta), BlockState::Unmarked);
    assert_eq!(other.get_state(&meta), BlockState::Unallocated);
    b.init(&mut meta, true);
    assert_eq!(b.get_state(&meta), BlockState::Marked);
    b.set_as_defrag_source(&mut meta, true);
    assert!(b.is_defrag_source(&meta));
    b.set_as_defrag_source(&mut meta, false);
    assert!(!b.is_defrag_source(&meta));
    b.set_holes(&mut meta, 5);
    assert_eq!(b.get_holes(&meta), 5);
    b.deinit(&mut meta);
    assert_eq!(b.get_state(&meta), BlockState::Unallocated);
}

#[test]
fn sweep_keeps_a_block_with_holes_reusable() {
    let mut meta = metadata(2);
    let b = Block::from_aligned_address(Address::from_usize(HEAP));
    b.init(&mut meta, false);
    mark_lines(&mut meta, b, 0..10, 3);
    mark_lines(&mut meta, b, 20..30, 3);
    let mut histogram = vec![0usize; HISTOGRAM_LEN];
    let mut pool = ReusableBlockPool::new(1);
    let released = b.sweep(&mut meta, &mut histogram, Some(3), &mut pool);
    assert!(!released);
    assert_eq!(b.get_state(&meta), BlockState::Reusable { unavailable_lines: 20 });
    assert_eq!(b.get_holes(&meta), 2);
    assert_eq!(histogram[2], 20);
    assert_eq!(histogram.iter().sum::<usize>(), 20);
    assert_eq!(pool.len(), 1);
    assert_eq!(pool.iterate_blocks(), vec![b]);
}

#[test]
fn sweep_releases_a_block_without_marked_lines() {
    let mut meta = metadata(1);
    let b = Block::from_aligned_address(Address::from_usize(HEAP));
    b.init(&mut meta, false);
    mark_lines(&mut meta, b, 0..BLOCK_LINES, 2);
    let mut histogram = vec![0usize; HISTOGRAM_LEN];
    let mut pool = ReusableBlockPool::new(1);
    assert!(b.sweep(&mut meta, &mut histogram, Some(3), &mut pool));
    assert_eq!(b.get_state(&meta), BlockState::Unallocated);
    assert!(histogram.iter().all(|&x| x == 0));
    assert_eq!(pool.len(), 0);
}

#[test]
fn sweep_of_a_full_block_unmarks_it() {
    let mut meta = metadata(1);
    let b = Block::from_aligned_address(Address::from_usize(HEAP));
    b.init(&mut meta, true);
    mark_lines(&mut meta, b, 0..BLOCK_LINES, 3);
    let mut histogram = vec![0usize; HISTOGRAM_LEN];
    let mut pool = ReusableBlockPool::new(1);
    assert!(!b.sweep(&mut meta, &mut histogram, Some(3), &mut pool));
    assert_eq!(b.get_state(&meta), BlockState::Unmarked);
    assert_eq!(b.get_holes(&meta), 0);
    assert_eq!(histogram[0], BLOCK_LINES);
    assert_eq!(pool.len(), 0);
}

#[test]
fn sweep_near_mark_state_wrap_clears_stale_marks() {
    let mut meta = metadata(1);
    let b = Block::from_aligned_address(Address::from_usize(HEAP));
    b.init(&mut meta, false);
    mark_lines(&mut meta, b, 0..BLOCK_LINES, 40);
    mark_lines(&mut meta, b, 0..4, 126);
    let mut histogram = vec![0usize; HISTOGRAM_LEN];
    let mut pool = ReusableBlockPool::new(1);
    assert!(!b.sweep(&mut meta, &mut histogram, Some(126), &mut pool));
    let lines = line_bytes(&meta, b);
    assert_eq!(&lines[0..4], &[126, 126, 126, 126]);
    assert!(lines[4..].iter().all(|&x| x == 0));
    // Far from the wrap, stale marks stay.
    let mut meta = metadata(1);
    b.init(&mut meta, false);
    mark_lines(&mut meta, b, 0..BLOCK_LINES, 40);
    mark_lines(&mut meta, b, 0..4, 5);
    assert!(!b.sweep(&mut meta, &mut histogram, Some(5), &mut pool));
    assert!(line_bytes(&meta, b)[4..].iter().all(|&x| x == 40));
}

#[test]
fn unmarked_regions_for_valid_object_bits() {
    let mut meta = metadata(1);
    let b = Block::from_aligned_address(Address::from_usize(HEAP));
    b.init(&mut meta, false);
    assert_eq!(b.clear_vo_bits_for_unmarked_regions(&meta, None), vec![(HEAP, BLOCK_BYTES)]);
    b.init(&mut meta, true);
    assert_eq!(b.clear_vo_bits_for_unmarked_regions(&meta, None), vec![]);
    mark_lines(&mut meta, b, 0..BLOCK_LINES, 7);
    mark_lines(&mut meta, b, 5..7, 0);
    assert_eq!(
        b.clear_vo_bits_for_unmarked_regions(&meta, Some(7)),
        vec![(HEAP + 5 * LINE_BYTES, LINE_BYTES), (HEAP + 6 * LINE_BYTES, LINE_BYTES)]
    );
}

#[test]
fn reusable_pool_is_last_in_first_out() {
    let mut pool = ReusableBlockPool::new(2);
    let a = Block::from_aligned_address(Address::from_usize(HEAP));
    let b = Block::from_aligned_address(Address::from_usize(HEAP + BLOCK_BYTES));
    assert_eq!(pool.pop(), None);
    pool.push(a);
    pool.push(b);
    assert_eq!(pool.len(), 2);
    assert_eq!(pool.pop(), Some(b));
    assert_eq!(pool.pop(), Some(a));
    pool.push(a);
    pool.reset();
    assert_eq!(pool.len(), 0);
    pool.flush_all();
}
