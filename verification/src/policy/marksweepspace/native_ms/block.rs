use vstd::prelude::*;

use crate::util::address::Address;
use crate::util::constants::{LOG_BYTES_IN_PAGE, MIN_OBJECT_SIZE};
use crate::util::heap::chunk_map::{Chunk, BYTES_IN_CHUNK};
use crate::util::metadata::side_metadata::SideTable;
use crate::util::opaque_pointer::{OpaquePointer, VMThread};

verus! {

/// Log2 of the bytes in a MarkSweep block.
pub const MS_BLOCK_LOG_BYTES: usize = 16;
/// The bytes in a MarkSweep block.
pub const MS_BLOCK_BYTES: usize = 65536;
/// Log2 of the pages in a MarkSweep block.
pub const MS_BLOCK_LOG_PAGES: usize = 4;

/// The mark byte of an unallocated block.
pub const MS_MARK_UNALLOCATED: u8 = 0;
/// The mark byte of an unmarked block.
pub const MS_MARK_UNMARKED: u8 = 255;
/// The mark byte of a marked block.
pub const MS_MARK_MARKED: u8 = 254;

/// The constants of the block layout agree with each other.
pub proof fn lemma_ms_block_layout()
    ensures
        MS_BLOCK_LOG_PAGES == MS_BLOCK_LOG_BYTES - LOG_BYTES_IN_PAGE,
        MS_BLOCK_BYTES == 1usize << MS_BLOCK_LOG_BYTES,
{
    assert(65536usize == 1usize << 16usize) by (bit_vector);
}

/// The block allocation state.
#[derive(Clone, Copy, Debug, PartialEq, Eq, Structural)]
pub enum BlockState {
    /// the block is not allocated.
    Unallocated,
    /// the block is allocated but not marked.
    Unmarked,
    /// the block is allocated and marked.
    Marked,
}

/// Whether a mark byte encodes a block state.
pub open spec fn is_state_byte(byte: u8) -> bool {
    byte == MS_MARK_UNALLOCATED || byte == MS_MARK_UNMARKED || byte == MS_MARK_MARKED
}

/// The state that a mark byte encodes.
pub open spec fn byte_to_state(byte: u8) -> BlockState
    recommends
        is_state_byte(byte),
{
    if byte == MS_MARK_UNALLOCATED {
        BlockState::Unallocated
    } else if byte == MS_MARK_UNMARKED {
        BlockState::Unmarked
    } else {
        BlockState::Marked
    }
}

/// The mark byte that encodes a state.
pub open spec fn state_to_byte(state: BlockState) -> u8 {
    match state {
        BlockState::Unallocated => MS_MARK_UNALLOCATED,
        BlockState::Unmarked => MS_MARK_UNMARKED,
        BlockState::Marked => MS_MARK_MARKED,
    }
}

impl BlockState {
    /// The state that a mark byte encodes. Only the three state bytes are accepted.
    pub fn from_byte(state: u8) -> (r: BlockState)
        requires
            is_state_byte(state),
        ensures
            r == byte_to_state(state),
    {
        if state == MS_MARK_UNALLOCATED {
            BlockState::Unallocated
        } else if state == MS_MARK_UNMARKED {
            BlockState::Unmarked
        } else {
            BlockState::Marked
        }
    }
}

impl From<BlockState> for u8 {
    fn from(state: BlockState) -> (r: u8) {
        match state {
            BlockState::Unallocated => MS_MARK_UNALLOCATED,
            BlockState::Unmarked => MS_MARK_UNMARKED,
            BlockState::Marked => MS_MARK_MARKED,
        }
    }
}

impl vstd::std_specs::convert::FromSpecImpl<BlockState> for u8 {
    open spec fn obeys_from_spec() -> bool {
        true
    }

    open spec fn from_spec(v: BlockState) -> u8 {
        state_to_byte(v)
    }
}

/// Every state survives being encoded and decoded, and encoding is one-to-one.
pub proof fn lemma_state_byte_round_trip(state: BlockState, other: BlockState)
    ensures
        is_state_byte(state_to_byte(state)),
        byte_to_state(state_to_byte(state)) == state,
        state_to_byte(state) == state_to_byte(other) ==> state == other,
{
}

/// Every state byte survives being decoded and encoded.
pub proof fn lemma_byte_state_round_trip(byte: u8)
    requires
        is_state_byte(byte),
    ensures
        state_to_byte(byte_to_state(byte)) == byte,
{
}

/// The side metadata that the MarkSweep space keeps for each block.
pub struct MarkSweepMetadata {
    /// The block mark byte.
    pub mark: SideTable<u8>,
    /// The next block in the block's list, or zero.
    pub next_block: SideTable<usize>,
    /// The previous block in the block's list, or zero.
    pub prev_block: SideTable<usize>,
    /// The head of the block's free list, or zero.
    pub free_list: SideTable<usize>,
    /// The head of the block's local free list, or zero.
    pub local_free_list: SideTable<usize>,
    /// The head of the block's thread free list, or zero.
    pub thread_free_list: SideTable<usize>,
    /// The cell size of the block.
    pub cell_size: SideTable<usize>,
    /// The thread that owns the block.
    pub tls: SideTable<usize>,
}

/// The configuration of the virtual machine that decides how blocks are swept.
#[derive(Clone, Copy, Debug)]
pub struct SweepConfig {
    /// Whether the binding allocates objects at an offset.
    pub use_allocation_offset: bool,
    /// The largest alignment that the binding asks for.
    pub max_alignment: usize,
    /// The smallest alignment that the binding asks for.
    pub min_alignment: usize,
    /// Whether an object reference is the address of the object's start.
    pub unified_object_reference_address: bool,
    /// The least offset from a cell to an object reference in it.
    pub object_ref_offset_lower_bound: usize,
}

/// Whether a block of cells of `cell_size` bytes can be swept cell by cell, taking
/// a cell's address as its object reference.
pub open spec fn uses_simple_sweep(config: SweepConfig, cell_size: usize) -> bool {
    &&& !config.use_allocation_offset
    &&& config.max_alignment == config.min_alignment
    &&& config.max_alignment > 0
    &&& cell_size % config.max_alignment == 0
    &&& config.unified_object_reference_address
}

/// The number of whole cells of `cell_size` bytes in a block.
pub open spec fn num_cells(cell_size: usize) -> int {
    MS_BLOCK_BYTES as int / cell_size as int
}

/// The address of cell `k` of a block starting at `start`.
pub open spec fn cell_address(start: int, cell_size: int, k: int) -> int {
    start + k * cell_size
}

/// The address of the last free cell among the first `k` cells, or zero if there is none.
pub open spec fn last_free_cell(start: int, cell_size: int, live: Seq<bool>, k: int) -> int
    decreases k,
{
    if k <= 0 {
        0
    } else if !live[k - 1] {
        cell_address(start, cell_size, k - 1)
    } else {
        last_free_cell(start, cell_size, live, k - 1)
    }
}

/// The heap words after the first `k` cells have been swept: each free cell, in
/// address order, gets a link to the free cell before it (or zero).
pub open spec fn linked_words(
    words: &SideTable<usize>,
    start: int,
    cell_size: int,
    live: Seq<bool>,
    k: int,
) -> Seq<usize>
    decreases k,
{
    if k <= 0 {
        words@
    } else {
        let prev = linked_words(words, start, cell_size, live, k - 1);
        if !live[k - 1] {
            prev.update(
                words.index_at(cell_address(start, cell_size, k - 1)),
                last_free_cell(start, cell_size, live, k - 1) as usize,
            )
        } else {
            prev
        }
    }
}

/// Whether the object reference at address `a` has its mark bit set.
pub open spec fn is_marked_at(marks: &SideTable<bool>, a: int) -> bool {
    marks.entry_at(a)
}

/// Whether some possible object reference in cell `k` is marked: the cell is scanned
/// every `MIN_OBJECT_SIZE` bytes, each position shifted by the reference offset.
pub open spec fn cell_has_mark(
    marks: &SideTable<bool>,
    start: int,
    cell_size: int,
    offset: int,
    k: int,
) -> bool {
    exists|g: int|
        0 <= g && g * MIN_OBJECT_SIZE < cell_size && #[trigger] is_marked_at(
            marks,
            cell_address(start, cell_size, k) + g * MIN_OBJECT_SIZE + offset,
        )
}

/// A 64KB region for MiMalloc-style allocation, referred to by its non-zero start.
#[derive(Clone, Copy, Debug, PartialEq, Eq, Structural)]
pub struct Block(Address);

impl Block {
    /// The start address of the block.
    pub closed spec fn start_spec(self) -> Address {
        self.0
    }

    /// The block's start is not zero.
    pub open spec fn wf(self) -> bool {
        self.start_spec().value() != 0
    }

    /// The block is aligned and lies wholly in the address space.
    pub open spec fn aligned(self) -> bool {
        &&& self.wf()
        &&& self.start_spec().value() % MS_BLOCK_BYTES == 0
        &&& self.start_spec().value() + MS_BLOCK_BYTES <= usize::MAX
    }

    /// Every metadata table has an entry for this block, and holds one entry per block.
    pub open spec fn covered_by(self, meta: &MarkSweepMetadata) -> bool {
        &&& meta.mark.region_bytes() == MS_BLOCK_BYTES
        &&& meta.next_block.region_bytes() == MS_BLOCK_BYTES
        &&& meta.prev_block.region_bytes() == MS_BLOCK_BYTES
        &&& meta.free_list.region_bytes() == MS_BLOCK_BYTES
        &&& meta.local_free_list.region_bytes() == MS_BLOCK_BYTES
        &&& meta.thread_free_list.region_bytes() == MS_BLOCK_BYTES
        &&& meta.cell_size.region_bytes() == MS_BLOCK_BYTES
        &&& meta.tls.region_bytes() == MS_BLOCK_BYTES
        &&& meta.mark.covers(self.start_spec())
        &&& meta.next_block.covers(self.start_spec())
        &&& meta.prev_block.covers(self.start_spec())
        &&& meta.free_list.covers(self.start_spec())
        &&& meta.local_free_list.covers(self.start_spec())
        &&& meta.thread_free_list.covers(self.start_spec())
        &&& meta.cell_size.covers(self.start_spec())
        &&& meta.tls.covers(self.start_spec())
    }

    /// The block whose start is the machine word `raw`, if it is not zero.
    pub closed spec fn from_word(raw: usize) -> Option<Block> {
        if raw == 0 {
            None
        } else {
            Some(Block(Address::from_value(raw)))
        }
    }

    /// The block read from a word is absent exactly for zero and starts at the word.
    pub proof fn lemma_from_word(raw: usize)
        ensures
            Block::from_word(raw) is None <==> raw == 0,
            Block::from_word(raw) matches Some(b) ==> b.start_spec().value() == raw && b.wf(),
    {
        broadcast use Address::lemma_from_value;
    }

    /// A block is the block read back from the word of its start: blocks with the same
    /// start are the same block.
    pub proof fn lemma_from_start(b: Block)
        requires
            b.wf(),
        ensures
            Block::from_word(b.start_spec().value()) == Some(b),
    {
        broadcast use Address::lemma_from_value, Address::lemma_value_injective;

        assert(Address::from_value(b.0.value()).value() == b.0.value());
        assert(Address::from_value(b.0.value()) == b.0);
    }

    /// The block that starts at `address`, which must be block-aligned and non-zero.
    pub fn from_aligned_address(address: Address) -> (b: Block)
        requires
            address.value() % MS_BLOCK_BYTES == 0,
            address.value() != 0,
        ensures
            b.start_spec() == address,
            b.wf(),
    {
        Block(address)
    }

    /// The block whose start is `raw`, if it is not zero.
    fn from_nonzero(raw: usize) -> (r: Option<Block>)
        ensures
            r == Block::from_word(raw),
    {
        if raw == 0 {
            None
        } else {
            Some(Block(Address::from_usize(raw)))
        }
    }

    /// The start address of the block.
    pub fn start(&self) -> (a: Address)
        ensures
            a == self.start_spec(),
    {
        self.0
    }

    /// The end address (exclusive) of the block.
    pub fn end(&self) -> (a: Address)
        requires
            self.aligned(),
        ensures
            a.value() == self.start_spec().value() + MS_BLOCK_BYTES,
    {
        self.0.add(MS_BLOCK_BYTES)
    }

    /// The head of the block's free list.
    pub fn load_free_list(&self, meta: &MarkSweepMetadata) -> (a: Address)
        requires
            self.covered_by(meta),
        ensures
            a.value() == meta.free_list.entry(self.start_spec()),
    {
        Address::from_usize(meta.free_list.load(self.0))
    }

    /// Set the head of the block's free list.
    pub fn store_free_list(&self, meta: &mut MarkSweepMetadata, free_list: Address)
        requires
            self.covered_by(old(meta)),
        ensures
            final(meta).free_list@ == old(meta).free_list@.update(
                old(meta).free_list.index_of(self.start_spec()),
                free_list.value(),
            ),
            final(meta).free_list.base() == old(meta).free_list.base(),
            final(meta).free_list.region_bytes() == old(meta).free_list.region_bytes(),
            final(meta).mark == old(meta).mark,
            final(meta).next_block == old(meta).next_block,
            final(meta).prev_block == old(meta).prev_block,
            final(meta).local_free_list == old(meta).local_free_list,
            final(meta).thread_free_list == old(meta).thread_free_list,
            final(meta).cell_size == old(meta).cell_size,
            final(meta).tls == old(meta).tls,
            self.covered_by(final(meta)),
    {
        meta.free_list.store(self.0, free_list.as_usize());
    }

    /// The head of the block's local free list.
    pub fn load_local_free_list(&self, meta: &MarkSweepMetadata) -> (a: Address)
        requires
            self.covered_by(meta),
        ensures
            a.value() == meta.local_free_list.entry(self.start_spec()),
    {
        Address::from_usize(meta.local_free_list.load(self.0))
    }

    /// Set the head of the block's local free list.
    pub fn store_local_free_list(&self, meta: &mut MarkSweepMetadata, local_free: Address)
        requires
            self.covered_by(old(meta)),
        ensures
            final(meta).local_free_list@ == old(meta).local_free_list@.update(
                old(meta).local_free_list.index_of(self.start_spec()),
                local_free.value(),
            ),
            final(meta).local_free_list.base() == old(meta).local_free_list.base(),
            final(meta).local_free_list.region_bytes() == old(meta).local_free_list.region_bytes(),
            final(meta).mark == old(meta).mark,
            final(meta).next_block == old(meta).next_block,
            final(meta).prev_block == old(meta).prev_block,
            final(meta).free_list == old(meta).free_list,
            final(meta).thread_free_list == old(meta).thread_free_list,
            final(meta).cell_size == old(meta).cell_size,
            final(meta).tls == old(meta).tls,
            self.covered_by(final(meta)),
    {
        meta.local_free_list.store(self.0, local_free.as_usize());
    }

    /// The head of the block's thread free list.
    pub fn load_thread_free_list(&self, meta: &MarkSweepMetadata) -> (a: Address)
        requires
            self.covered_by(meta),
        ensures
            a.value() == meta.thread_free_list.entry(self.start_spec()),
    {
        Address::from_usize(meta.thread_free_list.load(self.0))
    }

    /// Set the head of the block's thread free list.
    pub fn store_thread_free_list(&self, meta: &mut MarkSweepMetadata, thread_free: Address)
        requires
            self.covered_by(old(meta)),
        ensures
            final(meta).thread_free_list@ == old(meta).thread_free_list@.update(
                old(meta).thread_free_list.index_of(self.start_spec()),
                thread_free.value(),
            ),
            final(meta).thread_free_list.base() == old(meta).thread_free_list.base(),
            final(meta).thread_free_list.region_bytes() == old(
                meta,
            ).thread_free_list.region_bytes(),
            final(meta).mark == old(meta).mark,
            final(meta).next_block == old(meta).next_block,
            final(meta).prev_block == old(meta).prev_block,
            final(meta).free_list == old(meta).free_list,
            final(meta).local_free_list == old(meta).local_free_list,
            final(meta).cell_size == old(meta).cell_size,
            final(meta).tls == old(meta).tls,
            self.covered_by(final(meta)),
    {
        meta.thread_free_list.store(self.0, thread_free.as_usize());
    }

    /// Replace the head of the block's thread free list with `new_thread_free` if it is
    /// `old_thread_free`. Returns whether it was replaced.
    pub fn cas_thread_free_list(
        &self,
        meta: &mut MarkSweepMetadata,
        old_thread_free: Address,
        new_thread_free: Address,
    ) -> (r: bool)
        requires
            self.covered_by(old(meta)),
        ensures
            r == (old(meta).thread_free_list.entry(self.start_spec()) == old_thread_free.value()),
            r ==> final(meta).thread_free_list@ == old(meta).thread_free_list@.update(
                old(meta).thread_free_list.index_of(self.start_spec()),
                new_thread_free.value(),
            ),
            !r ==> final(meta).thread_free_list == old(meta).thread_free_list,
            final(meta).thread_free_list.base() == old(meta).thread_free_list.base(),
            final(meta).thread_free_list.region_bytes() == old(
                meta,
            ).thread_free_list.region_bytes(),
            final(meta).mark == old(meta).mark,
            final(meta).next_block == old(meta).next_block,
            final(meta).prev_block == old(meta).prev_block,
            final(meta).free_list == old(meta).free_list,
            final(meta).local_free_list == old(meta).local_free_list,
            final(meta).cell_size == old(meta).cell_size,
            final(meta).tls == old(meta).tls,
            self.covered_by(final(meta)),
    {
        if meta.thread_free_list.load(self.0) == old_thread_free.as_usize() {
            meta.thread_free_list.store(self.0, new_thread_free.as_usize());
            true
        } else {
            false
        }
    }

    /// The previous block in the block's list, if any.
    pub fn load_prev_block(&self, meta: &MarkSweepMetadata) -> (r: Option<Block>)
        requires
            self.covered_by(meta),
        ensures
            r == Block::from_word(meta.prev_block.entry(self.start_spec())),
    {
        let prev = meta.prev_block.load(self.0);
        Block::from_nonzero(prev)
    }

    /// The next block in the block's list, if any.
    pub fn load_next_block(&self, meta: &MarkSweepMetadata) -> (r: Option<Block>)
        requires
            self.covered_by(meta),
        ensures
            r == Block::from_word(meta.next_block.entry(self.start_spec())),
    {
        let next = meta.next_block.load(self.0);
        Block::from_nonzero(next)
    }

    /// Store `value` as the block's next-block word.
    fn store_next_word(&self, meta: &mut MarkSweepMetadata, value: usize)
        requires
            self.covered_by(old(meta)),
        ensures
            final(meta).next_block@ == old(meta).next_block@.update(
                old(meta).next_block.index_of(self.start_spec()),
                value,
            ),
            final(meta).next_block.base() == old(meta).next_block.base(),
            final(meta).next_block.region_bytes() == old(meta).next_block.region_bytes(),
            final(meta).mark == old(meta).mark,
            final(meta).prev_block == old(meta).prev_block,
            final(meta).free_list == old(meta).free_list,
            final(meta).local_free_list == old(meta).local_free_list,
            final(meta).thread_free_list == old(meta).thread_free_list,
            final(meta).cell_size == old(meta).cell_size,
            final(meta).tls == old(meta).tls,
            self.covered_by(final(meta)),
    {
        meta.next_block.store(self.0, value);
    }

    /// Store `value` as the block's previous-block word.
    fn store_prev_word(&self, meta: &mut MarkSweepMetadata, value: usize)
        requires
            self.covered_by(old(meta)),
        ensures
            final(meta).prev_block@ == old(meta).prev_block@.update(
                old(meta).prev_block.index_of(self.start_spec()),
                value,
            ),
            final(meta).prev_block.base() == old(meta).prev_block.base(),
            final(meta).prev_block.region_bytes() == old(meta).prev_block.region_bytes(),
            final(meta).mark == old(meta).mark,
            final(meta).next_block == old(meta).next_block,
            final(meta).free_list == old(meta).free_list,
            final(meta).local_free_list == old(meta).local_free_list,
            final(meta).thread_free_list == old(meta).thread_free_list,
            final(meta).cell_size == old(meta).cell_size,
            final(meta).tls == old(meta).tls,
            self.covered_by(final(meta)),
    {
        meta.prev_block.store(self.0, value);
    }

    /// Set the next block in the block's list.
    pub fn store_next_block(&self, meta: &mut MarkSweepMetadata, next: Block)
        requires
            self.covered_by(old(meta)),
        ensures
            final(meta).next_block@ == old(meta).next_block@.update(
                old(meta).next_block.index_of(self.start_spec()),
                next.start_spec().value(),
            ),
            final(meta).next_block.base() == old(meta).next_block.base(),
            final(meta).next_block.region_bytes() == old(meta).next_block.region_bytes(),
            final(meta).prev_block == old(meta).prev_block,
            final(meta).mark == old(meta).mark,
            self.covered_by(final(meta)),
            next.wf() ==> Block::from_word(final(meta).next_block.entry(self.start_spec()))
                == Some(next),
    {
        proof {
            if next.wf() {
                Block::lemma_from_start(next);
            }
        }
        self.store_next_word(meta, next.0.as_usize());
    }

    /// Clear the next block in the block's list.
    pub fn clear_next_block(&self, meta: &mut MarkSweepMetadata)
        requires
            self.covered_by(old(meta)),
        ensures
            final(meta).next_block@ == old(meta).next_block@.update(
                old(meta).next_block.index_of(self.start_spec()),
                0usize,
            ),
            final(meta).next_block.base() == old(meta).next_block.base(),
            final(meta).next_block.region_bytes() == old(meta).next_block.region_bytes(),
            final(meta).prev_block == old(meta).prev_block,
            final(meta).mark == old(meta).mark,
            self.covered_by(final(meta)),
            Block::from_word(final(meta).next_block.entry(self.start_spec())) is None,
    {
        self.store_next_word(meta, 0);
    }

    /// Set the previous block in the block's list.
    pub fn store_prev_block(&self, meta: &mut MarkSweepMetadata, prev: Block)
        requires
            self.covered_by(old(meta)),
        ensures
            final(meta).prev_block@ == old(meta).prev_block@.update(
                old(meta).prev_block.index_of(self.start_spec()),
                prev.start_spec().value(),
            ),
            final(meta).prev_block.base() == old(meta).prev_block.base(),
            final(meta).prev_block.region_bytes() == old(meta).prev_block.region_bytes(),
            final(meta).next_block == old(meta).next_block,
            final(meta).mark == old(meta).mark,
            self.covered_by(final(meta)),
            prev.wf() ==> Block::from_word(final(meta).prev_block.entry(self.start_spec()))
                == Some(prev),
    {
        proof {
            if prev.wf() {
                Block::lemma_from_start(prev);
            }
        }
        self.store_prev_word(meta, prev.0.as_usize());
    }

    /// Clear the previous block in the block's list.
    pub fn clear_prev_block(&self, meta: &mut MarkSweepMetadata)
        requires
            self.covered_by(old(meta)),
        ensures
            final(meta).prev_block@ == old(meta).prev_block@.update(
                old(meta).prev_block.index_of(self.start_spec()),
                0usize,
            ),
            final(meta).prev_block.base() == old(meta).prev_block.base(),
            final(meta).prev_block.region_bytes() == old(meta).prev_block.region_bytes(),
            final(meta).next_block == old(meta).next_block,
            final(meta).mark == old(meta).mark,
            self.covered_by(final(meta)),
            Block::from_word(final(meta).prev_block.entry(self.start_spec())) is None,
    {
        self.store_prev_word(meta, 0);
    }

    /// The cell size of the block.
    pub fn load_block_cell_size(&self, meta: &MarkSweepMetadata) -> (r: usize)
        requires
            self.covered_by(meta),
        ensures
            r == meta.cell_size.entry(self.start_spec()),
    {
        meta.cell_size.load(self.0)
    }

    /// Set the cell size of the block, which must not be zero.
    pub fn store_block_cell_size(&self, meta: &mut MarkSweepMetadata, size: usize)
        requires
            self.covered_by(old(meta)),
            size != 0,
        ensures
            final(meta).cell_size@ == old(meta).cell_size@.update(
                old(meta).cell_size.index_of(self.start_spec()),
                size,
            ),
            final(meta).cell_size.base() == old(meta).cell_size.base(),
            final(meta).cell_size.region_bytes() == old(meta).cell_size.region_bytes(),
            final(meta).mark == old(meta).mark,
            final(meta).next_block == old(meta).next_block,
            final(meta).prev_block == old(meta).prev_block,
            final(meta).free_list == old(meta).free_list,
            final(meta).local_free_list == old(meta).local_free_list,
            final(meta).thread_free_list == old(meta).thread_free_list,
            final(meta).tls == old(meta).tls,
            self.covered_by(final(meta)),
    {
        meta.cell_size.store(self.0, size);
    }

    /// Record the thread that owns the block.
    pub fn store_tls(&self, meta: &mut MarkSweepMetadata, tls: VMThread)
        requires
            self.covered_by(old(meta)),
        ensures
            final(meta).tls@ == old(meta).tls@.update(
                old(meta).tls.index_of(self.start_spec()),
                tls.0.0.value(),
            ),
            final(meta).tls.base() == old(meta).tls.base(),
            final(meta).tls.region_bytes() == old(meta).tls.region_bytes(),
            final(meta).mark == old(meta).mark,
            final(meta).next_block == old(meta).next_block,
            final(meta).prev_block == old(meta).prev_block,
            final(meta).free_list == old(meta).free_list,
            final(meta).local_free_list == old(meta).local_free_list,
            final(meta).thread_free_list == old(meta).thread_free_list,
            final(meta).cell_size == old(meta).cell_size,
            self.covered_by(final(meta)),
    {
        let tls_usize: usize = tls.0.to_address().as_usize();
        meta.tls.store(self.0, tls_usize);
    }

    /// The thread that owns the block.
    pub fn load_tls(&self, meta: &MarkSweepMetadata) -> (t: VMThread)
        requires
            self.covered_by(meta),
        ensures
            t.0.0.value() == meta.tls.entry(self.start_spec()),
    {
        let tls = meta.tls.load(self.0);
        VMThread(OpaquePointer::from_address(Address::from_usize(tls)))
    }

    /// Record the block list that the block belongs to, given by its address, in the
    /// table of block lists.
    pub fn store_block_list(&self, block_lists: &mut SideTable<usize>, block_list: OpaquePointer)
        requires
            old(block_lists).covers(self.start_spec()),
        ensures
            final(block_lists)@ == old(block_lists)@.update(
                old(block_lists).index_of(self.start_spec()),
                block_list.0.value(),
            ),
            final(block_lists).base() == old(block_lists).base(),
            final(block_lists).region_bytes() == old(block_lists).region_bytes(),
            final(block_lists).wf(),
    {
        block_lists.store(self.0, block_list.to_address().as_usize());
    }

    /// The block list that the block belongs to, from the table of block lists.
    pub fn load_block_list(&self, block_lists: &SideTable<usize>) -> (r: OpaquePointer)
        requires
            block_lists.covers(self.start_spec()),
        ensures
            r.0.value() == block_lists.entry(self.start_spec()),
    {
        OpaquePointer::from_address(Address::from_usize(block_lists.load(self.0)))
    }

    /// Whether the block's free list holds a cell.
    pub fn has_free_cells(&self, meta: &MarkSweepMetadata) -> (r: bool)
        requires
            self.covered_by(meta),
        ensures
            r == (meta.free_list.entry(self.start_spec()) != 0),
    {
        !self.load_free_list(meta).is_zero()
    }

    /// The state encoded in the block's mark byte.
    pub open spec fn state(self, meta: &MarkSweepMetadata) -> BlockState {
        byte_to_state(meta.mark.entry(self.start_spec()))
    }

    /// Get block mark state. The mark byte must hold one of the three state bytes.
    pub fn get_state(&self, meta: &MarkSweepMetadata) -> (s: BlockState)
        requires
            self.covered_by(meta),
            is_state_byte(meta.mark.entry(self.start_spec())),
        ensures
            s == self.state(meta),
    {
        let byte = meta.mark.load(self.0);
        BlockState::from_byte(byte)
    }

    /// Set block mark state.
    pub fn set_state(&self, meta: &mut MarkSweepMetadata, state: BlockState)
        requires
            self.covered_by(old(meta)),
        ensures
            final(meta).mark@ == old(meta).mark@.update(
                old(meta).mark.index_of(self.start_spec()),
                state_to_byte(state),
            ),
            final(meta).mark.base() == old(meta).mark.base(),
            final(meta).mark.region_bytes() == old(meta).mark.region_bytes(),
            final(meta).next_block == old(meta).next_block,
            final(meta).prev_block == old(meta).prev_block,
            final(meta).free_list == old(meta).free_list,
            final(meta).local_free_list == old(meta).local_free_list,
            final(meta).thread_free_list == old(meta).thread_free_list,
            final(meta).cell_size == old(meta).cell_size,
            final(meta).tls == old(meta).tls,
            self.covered_by(final(meta)),
            self.state(final(meta)) == state,
            is_state_byte(final(meta).mark.entry(self.start_spec())),
    {
        let byte = u8::from(state);
        meta.mark.store(self.0, byte);
    }

    /// Release this block if it is unmarked: it leaves `block_list` (its first place in
    /// it) and is deinitialized, ready for its pages to be given back. A marked block is
    /// live and stays. Returns whether the block was released. A block in a block list
    /// is never unallocated.
    pub fn attempt_release(self, block_list: &mut Vec<Block>, meta: &mut MarkSweepMetadata) -> (released:
        bool)
        requires
            self.covered_by(old(meta)),
            is_state_byte(old(meta).mark.entry(self.start_spec())),
            self.state(old(meta)) != BlockState::Unallocated,
            old(block_list)@.contains(self),
        ensures
            released == (self.state(old(meta)) == BlockState::Unmarked),
            released ==> {
                &&& exists|i: int|
                    0 <= i < old(block_list)@.len() && old(block_list)@[i] == self && (forall|j: int|
                        0 <= j < i ==> old(block_list)@[j] != self) && final(block_list)@ == old(
                        block_list,
                    )@.remove(i)
                &&& final(meta).mark@ == old(meta).mark@.update(
                    old(meta).mark.index_of(self.start_spec()),
                    MS_MARK_UNALLOCATED,
                )
                &&& self.state(final(meta)) == BlockState::Unallocated
                &&& final(meta).free_list == old(meta).free_list
            },
            !released ==> final(block_list)@ == old(block_list)@ && *final(meta) == *old(meta),
            self.covered_by(final(meta)),
    {
        match self.get_state(meta) {
            BlockState::Unmarked => {
                let mut i: usize = 0;
                while i < block_list.len()
                    invariant
                        i <= block_list@.len(),
                        block_list@ == old(block_list)@,
                        block_list@.contains(self),
                        forall|j: int| 0 <= j < i ==> block_list@[j] != self,
                    ensures
                        i <= block_list@.len(),
                        block_list@ == old(block_list)@,
                        forall|j: int| 0 <= j < i ==> block_list@[j] != self,
                        i < block_list@.len() ==> block_list@[i as int] == self,
                    decreases block_list@.len() - i,
                {
                    if block_list[i] == self {
                        break;
                    }
                    i += 1;
                }
                if i == block_list.len() {
                    proof {
                        let k = choose|k: int| 0 <= k < block_list@.len() && block_list@[k] == self;
                        assert(block_list@[k] != self);
                    }
                }
                let ghost l0 = block_list@;
                block_list.remove(i);
                self.deinit(meta);
                assert(0 <= i < l0.len() && l0[i as int] == self && (forall|j: int|
                    0 <= j < i ==> l0[j] != self) && block_list@ == l0.remove(i as int));
                true
            },
            _ => false,
        }
    }

    /// Get the chunk containing the block.
    pub fn chunk(&self) -> (c: Chunk)
        ensures
            c.start_spec().value() == self.start_spec().value() - self.start_spec().value()
                % BYTES_IN_CHUNK,
    {
        Chunk::from_unaligned_address(self.0)
    }

    /// Initialize a clean block after acquired from page-resource.
    pub fn init(&self, meta: &mut MarkSweepMetadata)
        requires
            self.covered_by(old(meta)),
        ensures
            final(meta).mark@ == old(meta).mark@.update(
                old(meta).mark.index_of(self.start_spec()),
                MS_MARK_UNMARKED,
            ),
            self.state(final(meta)) == BlockState::Unmarked,
            self.covered_by(final(meta)),
            final(meta).free_list == old(meta).free_list,
    {
        self.set_state(meta, BlockState::Unmarked);
    }

    /// Deinitalize a block before releasing.
    pub fn deinit(&self, meta: &mut MarkSweepMetadata)
        requires
            self.covered_by(old(meta)),
        ensures
            final(meta).mark@ == old(meta).mark@.update(
                old(meta).mark.index_of(self.start_spec()),
                MS_MARK_UNALLOCATED,
            ),
            self.state(final(meta)) == BlockState::Unallocated,
            self.covered_by(final(meta)),
            final(meta).free_list == old(meta).free_list,
    {
        self.set_state(meta, BlockState::Unallocated);
    }

    /// An iterator over the cells of `cell_size` bytes of the block.
    pub fn cells(&self, cell_size: usize) -> (it: CellIter)
        requires
            self.aligned(),
            cell_size > 0,
        ensures
            it.current_spec() == self.start_spec().value(),
            it.end_spec() == self.start_spec().value() + MS_BLOCK_BYTES,
            it.cell_size_spec() == cell_size,
            it.wf(),
    {
        CellIter { current: self.0, end: self.end(), cell_size }
    }
}

/// The liveness of each cell when a cell's address is its object reference.
pub open spec fn simple_liveness(marks: &SideTable<bool>, start: int, cell_size: usize) -> Seq<bool> {
    Seq::new(
        num_cells(cell_size) as nat,
        |k: int| is_marked_at(marks, cell_address(start, cell_size as int, k)),
    )
}

/// The liveness of each cell when any position in a cell may hold an object reference.
pub open spec fn naive_liveness(
    marks: &SideTable<bool>,
    start: int,
    cell_size: usize,
    offset: usize,
) -> Seq<bool> {
    Seq::new(
        num_cells(cell_size) as nat,
        |k: int| cell_has_mark(marks, start, cell_size as int, offset as int, k),
    )
}

/// The liveness that a sweep of a block with the given cell size uses.
pub open spec fn sweep_liveness(
    config: SweepConfig,
    marks: &SideTable<bool>,
    start: int,
    cell_size: usize,
) -> Seq<bool> {
    if uses_simple_sweep(config, cell_size) {
        simple_liveness(marks, start, cell_size)
    } else {
        naive_liveness(marks, start, cell_size, config.object_ref_offset_lower_bound)
    }
}

/// `j` whole cells fit in a block exactly when `j` is at most the number of cells.
proof fn lemma_cells_fit(j: int, cell_size: int)
    requires
        cell_size > 0,
        j >= 0,
    ensures
        (j * cell_size <= MS_BLOCK_BYTES) <==> (j <= MS_BLOCK_BYTES as int / cell_size),
{
    let q = MS_BLOCK_BYTES as int / cell_size;
    let r = MS_BLOCK_BYTES as int % cell_size;
    vstd::arithmetic::div_mod::lemma_fundamental_div_mod(MS_BLOCK_BYTES as int, cell_size);
    assert((j * cell_size <= MS_BLOCK_BYTES) <==> (j <= q)) by (nonlinear_arith)
        requires
            MS_BLOCK_BYTES == cell_size * q + r,
            0 <= r < cell_size,
            j >= 0,
            cell_size > 0,
    ;
}

impl Block {
    /// Link the free cells of the block (those whose liveness is false) into its free
    /// list: each free cell, in address order, links to the free cell before it, and
    /// the block's free list starts at the last free cell.
    fn link_free_cells(
        &self,
        meta: &mut MarkSweepMetadata,
        words: &mut SideTable<usize>,
        cell_size: usize,
        live: &Vec<bool>,
    )
        requires
            self.aligned(),
            self.covered_by(old(meta)),
            cell_size > 0,
            live@.len() == num_cells(cell_size),
            old(words).covers_range(
                self.start_spec().value() as int,
                self.start_spec().value() + MS_BLOCK_BYTES,
            ),
        ensures
            final(words)@ == linked_words(
                old(words),
                self.start_spec().value() as int,
                cell_size as int,
                live@,
                num_cells(cell_size),
            ),
            self.covered_by(final(meta)),
            final(words).base() == old(words).base(),
            final(words).region_bytes() == old(words).region_bytes(),
            final(meta).free_list@ == old(meta).free_list@.update(
                old(meta).free_list.index_of(self.start_spec()),
                last_free_cell(
                    self.start_spec().value() as int,
                    cell_size as int,
                    live@,
                    num_cells(cell_size),
                ) as usize,
            ),
            final(meta).free_list.base() == old(meta).free_list.base(),
            final(meta).free_list.region_bytes() == old(meta).free_list.region_bytes(),
            final(meta).mark == old(meta).mark,
            final(meta).next_block == old(meta).next_block,
            final(meta).prev_block == old(meta).prev_block,
            final(meta).local_free_list == old(meta).local_free_list,
            final(meta).thread_free_list == old(meta).thread_free_list,
            final(meta).cell_size == old(meta).cell_size,
            final(meta).tls == old(meta).tls,
    {
        let ghost start = self.start_spec().value() as int;
        let ghost w0 = *words;
        let ghost n = num_cells(cell_size);
        let mut it = self.cells(cell_size);
        let mut last = Address::zero();
        let mut k: usize = 0;
        proof {
            lemma_cells_fit(0, cell_size as int);
        }
        loop
            invariant_except_break
                it.wf(),
                it.cell_size_spec() == cell_size,
                it.end_spec() == start + MS_BLOCK_BYTES,
                it.current_spec() == start + k * cell_size,
                k * cell_size <= MS_BLOCK_BYTES,
                0 <= k <= n,
            invariant
                self.aligned(),
                start == self.start_spec().value(),
                cell_size > 0,
                live@.len() == n,
                n == num_cells(cell_size),
                last.value() == last_free_cell(start, cell_size as int, live@, k as int),
                words@ == linked_words(&w0, start, cell_size as int, live@, k as int),
                words.base() == w0.base(),
                words.region_bytes() == w0.region_bytes(),
                words.wf(),
                words@.len() == w0@.len(),
                w0.covers_range(start, start + MS_BLOCK_BYTES),
            ensures
                k == n,
            decreases MS_BLOCK_BYTES - k * cell_size,
        {
            let ghost cur = it.current_spec();
            match it.next() {
                Some(cell) => {
                    proof {
                        lemma_cells_fit(k + 1, cell_size as int);
                        assert((k + 1) * cell_size == k * cell_size + cell_size) by (nonlinear_arith);
                        w0.lemma_covers_range(start, start + MS_BLOCK_BYTES, cur as int);
                    }
                    if !live[k] {
                        cell.store_link(words, last);
                        last = cell.address();
                    }
                    k += 1;
                },
                None => {
                    proof {
                        lemma_cells_fit(k + 1, cell_size as int);
                        assert((k + 1) * cell_size == k * cell_size + cell_size) by (nonlinear_arith);
                    }
                    break;
                },
            }
        }
        self.store_free_list(meta, last);
    }

    /// The liveness of each cell, taking a cell's address as its object reference.
    fn simple_liveness_of(&self, marks: &SideTable<bool>, cell_size: usize) -> (r: Vec<bool>)
        requires
            self.aligned(),
            cell_size > 0,
            marks.covers_range(
                self.start_spec().value() as int,
                self.start_spec().value() + MS_BLOCK_BYTES,
            ),
        ensures
            r@ == simple_liveness(marks, self.start_spec().value() as int, cell_size),
    {
        let ghost start = self.start_spec().value() as int;
        let ghost n = num_cells(cell_size);
        let mut it = self.cells(cell_size);
        let mut r: Vec<bool> = Vec::new();
        proof {
            lemma_cells_fit(0, cell_size as int);
        }
        loop
            invariant_except_break
                it.wf(),
                it.cell_size_spec() == cell_size,
                it.end_spec() == start + MS_BLOCK_BYTES,
                it.current_spec() == start + r@.len() * cell_size,
                r@.len() * cell_size <= MS_BLOCK_BYTES,
                r@.len() <= n,
            invariant
                self.aligned(),
                start == self.start_spec().value(),
                cell_size > 0,
                n == num_cells(cell_size),
                marks.covers_range(start, start + MS_BLOCK_BYTES),
                forall|j: int|
                    0 <= j < r@.len() ==> #[trigger] r@[j] == is_marked_at(
                        marks,
                        cell_address(start, cell_size as int, j),
                    ),
            ensures
                r@.len() == n,
            decreases MS_BLOCK_BYTES - r@.len() * cell_size,
        {
            let ghost k: int = r@.len() as int;
            let ghost cur = it.current_spec();
            proof {
                lemma_cells_fit(k + 1, cell_size as int);
                assert((k + 1) * cell_size == k * cell_size + cell_size) by (nonlinear_arith);
            }
            match it.next() {
                Some(cell) => {
                    proof {
                        marks.lemma_covers_range(start, start + MS_BLOCK_BYTES, cur as int);
                    }
                    r.push(marks.load(cell.address()));
                },
                None => {
                    break;
                },
            }
        }
        assert(r@ =~= simple_liveness(marks, start, cell_size));
        r
    }

    /// Whether some possible object reference in the cell at `cell` is marked.
    fn cell_is_live(
        &self,
        marks: &SideTable<bool>,
        cell: Address,
        cell_size: usize,
        offset: usize,
        k: Ghost<int>,
    ) -> (r: bool)
        requires
            self.aligned(),
            cell_size > 0,
            0 <= k@,
            (k@ + 1) * cell_size <= MS_BLOCK_BYTES,
            cell.value() == cell_address(self.start_spec().value() as int, cell_size as int, k@),
            self.start_spec().value() + MS_BLOCK_BYTES + MIN_OBJECT_SIZE + offset <= usize::MAX,
            marks.covers_range(
                self.start_spec().value() + offset,
                self.start_spec().value() + MS_BLOCK_BYTES + offset,
            ),
        ensures
            r == cell_has_mark(
                marks,
                self.start_spec().value() as int,
                cell_size as int,
                offset as int,
                k@,
            ),
    {
        let ghost start = self.start_spec().value() as int;
        let base = cell.as_usize();
        let mut cursor: usize = base;
        let ghost mut g: int = 0;
        assert(k@ * cell_size + cell_size <= MS_BLOCK_BYTES && k@ * cell_size >= 0) by (nonlinear_arith)
            requires
                (k@ + 1) * cell_size <= MS_BLOCK_BYTES,
                k@ >= 0,
                cell_size > 0,
        ;
        while cursor < base + cell_size
            invariant
                0 <= g,
                cursor == base + g * MIN_OBJECT_SIZE,
                cursor <= base + cell_size + MIN_OBJECT_SIZE,
                base == start + k@ * cell_size,
                start == self.start_spec().value(),
                base >= start,
                cell_size > 0,
                base + cell_size <= start + MS_BLOCK_BYTES,
                start + MS_BLOCK_BYTES + MIN_OBJECT_SIZE + offset <= usize::MAX,
                marks.covers_range(start + offset, start + MS_BLOCK_BYTES + offset),
                forall|h: int|
                    0 <= h < g ==> !#[trigger] is_marked_at(
                        marks,
                        cell_address(start, cell_size as int, k@) + h * MIN_OBJECT_SIZE
                            + offset,
                    ),
            decreases base + cell_size + MIN_OBJECT_SIZE - cursor,
        {
            proof {
                marks.lemma_covers_range(
                    start + offset,
                    start + MS_BLOCK_BYTES + offset,
                    cursor + offset,
                );
            }
            if marks.load(Address::from_usize(cursor + offset)) {
                assert(0 <= g && g * MIN_OBJECT_SIZE < cell_size);
                assert(is_marked_at(
                    marks,
                    cell_address(start, cell_size as int, k@) + g * MIN_OBJECT_SIZE + offset,
                ));
                assert(cell_has_mark(marks, start, cell_size as int, offset as int, k@));
                return true;
            }
            cursor = cursor + MIN_OBJECT_SIZE;
            proof {
                g = g + 1;
            }
        }
        assert forall|h: int|
            0 <= h && h * MIN_OBJECT_SIZE < cell_size implies !#[trigger] is_marked_at(
            marks,
            cell_address(start, cell_size as int, k@) + h * MIN_OBJECT_SIZE + offset,
        ) by {
            assert(h < g);
        }
        false
    }

    /// The liveness of each cell, scanning every possible object reference in it.
    fn naive_liveness_of(
        &self,
        marks: &SideTable<bool>,
        cell_size: usize,
        offset: usize,
    ) -> (r: Vec<bool>)
        requires
            self.aligned(),
            cell_size > 0,
            self.start_spec().value() + MS_BLOCK_BYTES + MIN_OBJECT_SIZE + offset <= usize::MAX,
            marks.covers_range(
                self.start_spec().value() + offset,
                self.start_spec().value() + MS_BLOCK_BYTES + offset,
            ),
        ensures
            r@ == naive_liveness(marks, self.start_spec().value() as int, cell_size, offset),
    {
        let ghost start = self.start_spec().value() as int;
        let ghost n = num_cells(cell_size);
        let mut it = self.cells(cell_size);
        let mut r: Vec<bool> = Vec::new();
        proof {
            lemma_cells_fit(0, cell_size as int);
        }
        loop
            invariant_except_break
                it.wf(),
                it.cell_size_spec() == cell_size,
                it.end_spec() == start + MS_BLOCK_BYTES,
                it.current_spec() == start + r@.len() * cell_size,
                r@.len() * cell_size <= MS_BLOCK_BYTES,
                r@.len() <= n,
            invariant
                self.aligned(),
                start == self.start_spec().value(),
                cell_size > 0,
                n == num_cells(cell_size),
                start + MS_BLOCK_BYTES + MIN_OBJECT_SIZE + offset <= usize::MAX,
                marks.covers_range(start + offset, start + MS_BLOCK_BYTES + offset),
                forall|j: int|
                    0 <= j < r@.len() ==> #[trigger] r@[j] == cell_has_mark(
                        marks,
                        start,
                        cell_size as int,
                        offset as int,
                        j,
                    ),
            ensures
                r@.len() == n,
            decreases MS_BLOCK_BYTES - r@.len() * cell_size,
        {
            let ghost k: int = r@.len() as int;
            proof {
                lemma_cells_fit(k + 1, cell_size as int);
                assert((k + 1) * cell_size == k * cell_size + cell_size) by (nonlinear_arith);
            }
            match it.next() {
                Some(cell) => {
                    let live = self.cell_is_live(marks, cell.address(), cell_size, offset, Ghost(k as int));
                    r.push(live);
                },
                None => {
                    break;
                },
            }
        }
        assert(r@ =~= naive_liveness(marks, start, cell_size, offset));
        r
    }

    /// Sweep the block, taking a cell's address as its object reference: each unmarked
    /// cell joins the free list.
    fn simple_sweep(
        &self,
        meta: &mut MarkSweepMetadata,
        words: &mut SideTable<usize>,
        marks: &SideTable<bool>,
    )
        requires
            self.aligned(),
            self.covered_by(old(meta)),
            old(meta).cell_size.entry(self.start_spec()) > 0,
            old(words).covers_range(
                self.start_spec().value() as int,
                self.start_spec().value() + MS_BLOCK_BYTES,
            ),
            marks.covers_range(
                self.start_spec().value() as int,
                self.start_spec().value() + MS_BLOCK_BYTES,
            ),
        ensures
            ({
                let cs = old(meta).cell_size.entry(self.start_spec());
                let live = simple_liveness(marks, self.start_spec().value() as int, cs);
                self.swept(old(meta), final(meta), old(words), final(words), cs, live)
            }),
    {
        let cell_size = self.load_block_cell_size(meta);
        let live = self.simple_liveness_of(marks, cell_size);
        self.link_free_cells(meta, words, cell_size, &live);
    }

    /// Sweep the block, taking a cell as live if any possible object reference in it is
    /// marked; each other cell joins the free list.
    fn naive_brute_force_sweep(
        &self,
        meta: &mut MarkSweepMetadata,
        words: &mut SideTable<usize>,
        marks: &SideTable<bool>,
        offset: usize,
    )
        requires
            self.aligned(),
            self.covered_by(old(meta)),
            old(meta).cell_size.entry(self.start_spec()) > 0,
            old(words).covers_range(
                self.start_spec().value() as int,
                self.start_spec().value() + MS_BLOCK_BYTES,
            ),
            self.start_spec().value() + MS_BLOCK_BYTES + MIN_OBJECT_SIZE + offset <= usize::MAX,
            marks.covers_range(
                self.start_spec().value() + offset,
                self.start_spec().value() + MS_BLOCK_BYTES + offset,
            ),
        ensures
            ({
                let cs = old(meta).cell_size.entry(self.start_spec());
                let live = naive_liveness(marks, self.start_spec().value() as int, cs, offset);
                self.swept(old(meta), final(meta), old(words), final(words), cs, live)
            }),
    {
        let cell_size = self.load_block_cell_size(meta);
        let live = self.naive_liveness_of(marks, cell_size, offset);
        self.link_free_cells(meta, words, cell_size, &live);
    }

    /// The relation between the metadata and heap words before and after a sweep that
    /// used the given cell liveness: the free cells are linked in address order, the
    /// block's free list starts at the last of them, and nothing else changes.
    pub open spec fn swept(
        self,
        meta0: &MarkSweepMetadata,
        meta1: &MarkSweepMetadata,
        words0: &SideTable<usize>,
        words1: &SideTable<usize>,
        cell_size: usize,
        live: Seq<bool>,
    ) -> bool {
        let start = self.start_spec().value() as int;
        &&& self.covered_by(meta1)
        &&& words1@ == linked_words(words0, start, cell_size as int, live, num_cells(cell_size))
        &&& words1.base() == words0.base()
        &&& words1.region_bytes() == words0.region_bytes()
        &&& meta1.free_list@ == meta0.free_list@.update(
            meta0.free_list.index_of(self.start_spec()),
            last_free_cell(start, cell_size as int, live, num_cells(cell_size)) as usize,
        )
        &&& meta1.free_list.base() == meta0.free_list.base()
        &&& meta1.free_list.region_bytes() == meta0.free_list.region_bytes()
        &&& meta1.mark == meta0.mark
        &&& meta1.next_block == meta0.next_block
        &&& meta1.prev_block == meta0.prev_block
        &&& meta1.local_free_list == meta0.local_free_list
        &&& meta1.thread_free_list == meta0.thread_free_list
        &&& meta1.cell_size == meta0.cell_size
        &&& meta1.tls == meta0.tls
    }

    /// Sweep the block. This is done either lazily in the allocation phase, or eagerly
    /// at the end of a GC. The simple sweep is used when a cell's address is its object
    /// reference; otherwise every possible object reference in a cell is looked at.
    pub fn sweep(
        &self,
        meta: &mut MarkSweepMetadata,
        words: &mut SideTable<usize>,
        marks: &SideTable<bool>,
        config: SweepConfig,
    )
        requires
            self.aligned(),
            self.covered_by(old(meta)),
            old(meta).cell_size.entry(self.start_spec()) > 0,
            old(words).covers_range(
                self.start_spec().value() as int,
                self.start_spec().value() + MS_BLOCK_BYTES,
            ),
            self.start_spec().value() + MS_BLOCK_BYTES + MIN_OBJECT_SIZE
                + config.object_ref_offset_lower_bound <= usize::MAX,
            uses_simple_sweep(config, old(meta).cell_size.entry(self.start_spec()))
                ==> marks.covers_range(
                self.start_spec().value() as int,
                self.start_spec().value() + MS_BLOCK_BYTES,
            ),
            !uses_simple_sweep(config, old(meta).cell_size.entry(self.start_spec()))
                ==> marks.covers_range(
                self.start_spec().value() + config.object_ref_offset_lower_bound,
                self.start_spec().value() + MS_BLOCK_BYTES + config.object_ref_offset_lower_bound,
            ),
        ensures
            ({
                let cs = old(meta).cell_size.entry(self.start_spec());
                let live = sweep_liveness(config, marks, self.start_spec().value() as int, cs);
                self.swept(old(meta), final(meta), old(words), final(words), cs, live)
            }),
    {
        let cell_size = self.load_block_cell_size(meta);
        if !config.use_allocation_offset && config.max_alignment == config.min_alignment
            && config.max_alignment > 0 && cell_size % config.max_alignment == 0
            && config.unified_object_reference_address {
            self.simple_sweep(meta, words, marks)
        } else {
            self.naive_brute_force_sweep(meta, words, marks, config.object_ref_offset_lower_bound)
        }
    }
}

/// A cell of a block.
pub struct BlockCell(Address);

impl BlockCell {
    /// The address of the cell.
    pub closed spec fn address_spec(&self) -> Address {
        self.0
    }

    /// The address of the cell.
    pub fn address(&self) -> (a: Address)
        ensures
            a == self.address_spec(),
    {
        self.0
    }

    /// Store the link `next` in the first word of the cell.
    pub fn store_link(&self, words: &mut SideTable<usize>, next: Address)
        requires
            old(words).covers(self.address_spec()),
        ensures
            final(words)@ == old(words)@.update(old(words).index_of(self.address_spec()), next.value()),
            final(words).base() == old(words).base(),
            final(words).region_bytes() == old(words).region_bytes(),
            final(words).wf(),
    {
        words.store(self.0, next.as_usize());
    }
}

/// An iterator over the cells of a block.
pub struct CellIter {
    current: Address,
    end: Address,
    cell_size: usize,
}

impl CellIter {
    /// The address of the next cell.
    pub closed spec fn current_spec(&self) -> usize {
        self.current.value()
    }

    /// The end of the region that is iterated.
    pub closed spec fn end_spec(&self) -> usize {
        self.end.value()
    }

    /// The size of a cell.
    pub closed spec fn cell_size_spec(&self) -> usize {
        self.cell_size
    }

    /// The iterator makes progress.
    pub open spec fn wf(&self) -> bool {
        self.cell_size_spec() > 0
    }

    /// The next cell, if one fits before the end.
    pub fn next(&mut self) -> (r: Option<BlockCell>)
        requires
            old(self).wf(),
        ensures
            final(self).wf(),
            final(self).end_spec() == old(self).end_spec(),
            final(self).cell_size_spec() == old(self).cell_size_spec(),
            old(self).current_spec() + old(self).cell_size_spec() <= old(self).end_spec() ==> {
                &&& r matches Some(c) && c.address_spec().value() == old(self).current_spec()
                &&& final(self).current_spec() == old(self).current_spec() + old(self).cell_size_spec()
            },
            old(self).current_spec() + old(self).cell_size_spec() > old(self).end_spec() ==> {
                &&& r is None
                &&& final(self).current_spec() == old(self).current_spec()
            },
    {
        if self.current.as_usize() <= self.end.as_usize()
            && self.cell_size <= self.end.as_usize() - self.current.as_usize() {
            let cell = BlockCell(self.current);
            self.current = self.current.add(self.cell_size);
            Some(cell)
        } else {
            None
        }
    }
}

/// The free cells among the first `k` cells of a block, from the highest address down.
pub open spec fn free_cells_desc(start: int, cell_size: int, live: Seq<bool>, k: int) -> Seq<int>
    decreases k,
{
    if k <= 0 {
        Seq::empty()
    } else if !live[k - 1] {
        seq![cell_address(start, cell_size, k - 1)] + free_cells_desc(start, cell_size, live, k - 1)
    } else {
        free_cells_desc(start, cell_size, live, k - 1)
    }
}

/// The cells visited by following the links stored in the heap words, from `addr`, for
/// at most `fuel` steps; the walk ends at a zero link.
pub open spec fn free_list_walk(words: &SideTable<usize>, addr: int, fuel: nat) -> Seq<int>
    decreases fuel,
{
    if addr == 0 || fuel == 0 {
        Seq::empty()
    } else {
        seq![addr] + free_list_walk(words, words.entry_at(addr) as int, (fuel - 1) as nat)
    }
}

/// A larger address, at least one region further, has a larger index in a table.
proof fn lemma_index_increases(x: int, y: int, r: int)
    requires
        r > 0,
        0 <= x,
        x + r <= y,
    ensures
        x / r < y / r,
{
    vstd::arithmetic::div_mod::lemma_fundamental_div_mod(x, r);
    vstd::arithmetic::div_mod::lemma_fundamental_div_mod(y, r);
    assert(x / r < y / r) by (nonlinear_arith)
        requires
            x == r * (x / r) + x % r,
            y == r * (y / r) + y % r,
            0 <= x % r < r,
            0 <= y % r < r,
            x + r <= y,
            r > 0,
    ;
}

/// The word of a cell of the block has an index in a table that covers the block.
proof fn lemma_cell_word_in_range(words: &SideTable<usize>, start: int, cell_size: int, j: int)
    requires
        cell_size > 0,
        0 <= j,
        (j + 1) * cell_size <= MS_BLOCK_BYTES,
        words.covers_range(start, start + MS_BLOCK_BYTES),
    ensures
        0 <= words.index_at(cell_address(start, cell_size, j)) < words@.len(),
{
    let a = cell_address(start, cell_size, j);
    assert(0 <= j * cell_size && j * cell_size + cell_size <= MS_BLOCK_BYTES) by (nonlinear_arith)
        requires
            0 <= j,
            cell_size > 0,
            (j + 1) * cell_size <= MS_BLOCK_BYTES,
    ;
    words.lemma_covers_range(start, start + MS_BLOCK_BYTES, a);
}

/// Cells at least one table region apart have distinct word indices.
proof fn lemma_cell_word_index_lt(
    words: &SideTable<usize>,
    start: int,
    cell_size: int,
    j: int,
    m: int,
)
    requires
        cell_size > 0,
        cell_size >= words.region_bytes(),
        0 <= j < m,
        words.covers_range(start, start + MS_BLOCK_BYTES),
    ensures
        words.index_at(cell_address(start, cell_size, j)) < words.index_at(
            cell_address(start, cell_size, m),
        ),
{
    let a = cell_address(start, cell_size, j);
    let b = cell_address(start, cell_size, m);
    assert(0 <= j * cell_size && j * cell_size + cell_size <= m * cell_size) by (nonlinear_arith)
        requires
            0 <= j < m,
            cell_size > 0,
    ;
    words.lemma_region_positive();
    lemma_index_increases(a - words.base(), b - words.base(), words.region_bytes() as int);
}

/// After linking the first `m` cells, the word of each free cell among them holds the
/// free cell before it (or zero).
proof fn lemma_linked_word(
    words: &SideTable<usize>,
    start: int,
    cell_size: int,
    live: Seq<bool>,
    m: int,
    j: int,
)
    requires
        cell_size > 0,
        cell_size >= words.region_bytes(),
        0 <= j < m,
        m * cell_size <= MS_BLOCK_BYTES,
        m <= live.len(),
        !live[j],
        words.covers_range(start, start + MS_BLOCK_BYTES),
    ensures
        linked_words(words, start, cell_size, live, m)[words.index_at(
            cell_address(start, cell_size, j),
        )] == last_free_cell(start, cell_size, live, j) as usize,
    decreases m,
{
    assert((j + 1) * cell_size <= MS_BLOCK_BYTES && (m - 1) * cell_size <= MS_BLOCK_BYTES) by (
    nonlinear_arith)
        requires
            m * cell_size <= MS_BLOCK_BYTES,
            cell_size > 0,
            0 <= j < m,
    ;
    lemma_cell_word_in_range(words, start, cell_size, j);
    lemma_cell_word_in_range(words, start, cell_size, m - 1);
    lemma_linked_words_len(words, start, cell_size, live, m - 1);
    let prev = linked_words(words, start, cell_size, live, m - 1);
    assert(linked_words(words, start, cell_size, live, m) == if !live[m - 1] {
        prev.update(
            words.index_at(cell_address(start, cell_size, m - 1)),
            last_free_cell(start, cell_size, live, m - 1) as usize,
        )
    } else {
        prev
    });
    if m - 1 != j {
        lemma_cell_word_index_lt(words, start, cell_size, j, m - 1);
        lemma_linked_word(words, start, cell_size, live, m - 1, j);
    }
}

/// Linking keeps the number of heap words.
proof fn lemma_linked_words_len(
    words: &SideTable<usize>,
    start: int,
    cell_size: int,
    live: Seq<bool>,
    m: int,
)
    requires
        cell_size > 0,
        m * cell_size <= MS_BLOCK_BYTES,
        words.covers_range(start, start + MS_BLOCK_BYTES),
    ensures
        linked_words(words, start, cell_size, live, m).len() == words@.len(),
    decreases m,
{
    if m > 0 {
        assert((m - 1) * cell_size <= MS_BLOCK_BYTES) by (nonlinear_arith)
            requires
                m * cell_size <= MS_BLOCK_BYTES,
                cell_size > 0,
                m >= 1,
        ;
        lemma_cell_word_in_range(words, start, cell_size, m - 1);
        lemma_linked_words_len(words, start, cell_size, live, m - 1);
    }
}

/// Walking the links from the last free cell among the first `k` cells visits exactly
/// the free cells among them, from the highest address down.
proof fn lemma_walk_prefix(
    words0: &SideTable<usize>,
    words1: &SideTable<usize>,
    start: int,
    cell_size: int,
    live: Seq<bool>,
    n: int,
    k: int,
    fuel: nat,
)
    requires
        start > 0,
        start + MS_BLOCK_BYTES <= usize::MAX,
        cell_size > 0,
        cell_size >= words0.region_bytes(),
        0 <= k <= n,
        n * cell_size <= MS_BLOCK_BYTES,
        n <= live.len(),
        k <= fuel,
        words0.covers_range(start, start + MS_BLOCK_BYTES),
        words1@ == linked_words(words0, start, cell_size, live, n),
        words1.base() == words0.base(),
        words1.region_bytes() == words0.region_bytes(),
    ensures
        free_list_walk(words1, last_free_cell(start, cell_size, live, k), fuel) == free_cells_desc(
            start,
            cell_size,
            live,
            k,
        ),
    decreases k,
{
    if k > 0 {
        assert((k - 1) * cell_size >= 0) by (nonlinear_arith)
            requires
                k >= 1,
                cell_size > 0,
        ;
        if !live[k - 1] {
            let c = cell_address(start, cell_size, k - 1);
            lemma_linked_word(words0, start, cell_size, live, n, k - 1);
            lemma_last_free_cell_range(start, cell_size, live, k - 1);
            lemma_last_free_cell_bound(start, cell_size, live, k - 1);
            assert(start + (k - 1) * cell_size <= start + MS_BLOCK_BYTES) by (nonlinear_arith)
                requires
                    k <= n,
                    n * cell_size <= MS_BLOCK_BYTES,
                    cell_size > 0,
            ;
            assert(words1.entry_at(c) as int == last_free_cell(start, cell_size, live, k - 1));
            lemma_walk_prefix(words0, words1, start, cell_size, live, n, k - 1, (fuel - 1) as nat);
        } else {
            lemma_walk_prefix(words0, words1, start, cell_size, live, n, k - 1, fuel);
        }
    }
}

/// The last free cell is zero or a cell address at or above the block start.
proof fn lemma_last_free_cell_range(start: int, cell_size: int, live: Seq<bool>, k: int)
    requires
        start > 0,
        cell_size > 0,
    ensures
        last_free_cell(start, cell_size, live, k) == 0 || last_free_cell(
            start,
            cell_size,
            live,
            k,
        ) >= start,
        last_free_cell(start, cell_size, live, k) >= 0,
    decreases k,
{
    if k > 0 {
        assert((k - 1) * cell_size >= 0 || k - 1 < 0) by (nonlinear_arith)
            requires
                cell_size > 0,
        ;
        lemma_last_free_cell_range(start, cell_size, live, k - 1);
    }
}

impl Block {
    /// After a sweep, the block's free list holds exactly the free cells: following the
    /// links from its head visits every free cell once, from the highest address down,
    /// and then reaches zero. (Each cell must hold at least one heap word, for its link.)
    pub proof fn lemma_free_list_walk(
        self,
        meta0: &MarkSweepMetadata,
        meta1: &MarkSweepMetadata,
        words0: &SideTable<usize>,
        words1: &SideTable<usize>,
        cell_size: usize,
        live: Seq<bool>,
        fuel: nat,
    )
        requires
            self.aligned(),
            self.covered_by(meta0),
            cell_size > 0,
            cell_size >= words0.region_bytes(),
            live.len() == num_cells(cell_size),
            fuel >= num_cells(cell_size),
            words0.covers_range(
                self.start_spec().value() as int,
                self.start_spec().value() + MS_BLOCK_BYTES,
            ),
            self.swept(meta0, meta1, words0, words1, cell_size, live),
        ensures
            free_list_walk(words1, meta1.free_list.entry(self.start_spec()) as int, fuel)
                == free_cells_desc(
                self.start_spec().value() as int,
                cell_size as int,
                live,
                num_cells(cell_size),
            ),
    {
        let start = self.start_spec().value() as int;
        let n = num_cells(cell_size);
        lemma_cells_fit(n, cell_size as int);
        lemma_last_free_cell_range(start, cell_size as int, live, n);
        assert(last_free_cell(start, cell_size as int, live, n) <= usize::MAX) by {
            lemma_last_free_cell_bound(start, cell_size as int, live, n);
        }
        lemma_walk_prefix(words0, words1, start, cell_size as int, live, n, n, fuel);
    }
}

/// When an object reference need not be the address of its cell (references are not
/// object starts, or objects are allocated at an offset), a sweep keeps a cell exactly
/// when some position that a brute-force scan looks at in it (every
/// `MIN_OBJECT_SIZE` bytes from the cell's start, shifted by the least reference
/// offset) holds a marked object reference.
pub proof fn lemma_sweep_liveness_by_marks(
    config: SweepConfig,
    marks: &SideTable<bool>,
    start: int,
    cell_size: usize,
)
    requires
        !config.unified_object_reference_address || config.use_allocation_offset,
        cell_size > 0,
    ensures
        sweep_liveness(config, marks, start, cell_size).len() == num_cells(cell_size),
        forall|k: int|
            0 <= k < num_cells(cell_size) ==> (#[trigger] sweep_liveness(
                config,
                marks,
                start,
                cell_size,
            )[k] <==> exists|g: int|
                0 <= g && g * MIN_OBJECT_SIZE < cell_size && #[trigger] marks.entry_at(
                    start + k * cell_size + g * MIN_OBJECT_SIZE
                        + config.object_ref_offset_lower_bound,
                )),
{
    let live = sweep_liveness(config, marks, start, cell_size);
    let offset = config.object_ref_offset_lower_bound as int;
    assert(!uses_simple_sweep(config, cell_size));
    assert forall|k: int| 0 <= k < num_cells(cell_size) implies (#[trigger] live[k]
        <==> exists|g: int|
        0 <= g && g * MIN_OBJECT_SIZE < cell_size && #[trigger] marks.entry_at(
            start + k * cell_size + g * MIN_OBJECT_SIZE + offset,
        )) by {
        assert(live[k] == cell_has_mark(marks, start, cell_size as int, offset, k));
        if live[k] {
            let g = choose|g: int|
                0 <= g && g * MIN_OBJECT_SIZE < cell_size && #[trigger] is_marked_at(
                    marks,
                    cell_address(start, cell_size as int, k) + g * MIN_OBJECT_SIZE + offset,
                );
            assert(marks.entry_at(start + k * cell_size + g * MIN_OBJECT_SIZE + offset));
        }
        if exists|g: int|
            0 <= g && g * MIN_OBJECT_SIZE < cell_size && #[trigger] marks.entry_at(
                start + k * cell_size + g * MIN_OBJECT_SIZE + offset,
            ) {
            let g = choose|g: int|
                0 <= g && g * MIN_OBJECT_SIZE < cell_size && #[trigger] marks.entry_at(
                    start + k * cell_size + g * MIN_OBJECT_SIZE + offset,
                );
            assert(is_marked_at(
                marks,
                cell_address(start, cell_size as int, k) + g * MIN_OBJECT_SIZE + offset,
            ));
        }
    }
}

/// A live cell is never among the free cells of a sweep.
proof fn lemma_free_cells_desc_exclude_live(
    start: int,
    cell_size: int,
    live: Seq<bool>,
    k: int,
    j: int,
)
    requires
        cell_size > 0,
        0 <= j < live.len(),
        k <= live.len(),
        live[j],
    ensures
        !free_cells_desc(start, cell_size, live, k).contains(cell_address(start, cell_size, j)),
    decreases k,
{
    if k > 0 {
        lemma_free_cells_desc_exclude_live(start, cell_size, live, k - 1, j);
        let rest = free_cells_desc(start, cell_size, live, k - 1);
        let x = cell_address(start, cell_size, j);
        if !live[k - 1] {
            let a = cell_address(start, cell_size, k - 1);
            assert(a != x) by {
                assert(k - 1 != j);
                assert((k - 1) * cell_size != j * cell_size) by (nonlinear_arith)
                    requires
                        k - 1 != j,
                        cell_size > 0,
                ;
            }
            let res = free_cells_desc(start, cell_size, live, k);
            assert(res == seq![a] + rest);
            if res.contains(x) {
                let i = choose|i: int| 0 <= i < res.len() && res[i] == x;
                assert(i != 0);
                assert(rest[i - 1] == x);
            }
        }
    }
}

impl Block {
    /// After a sweep of a block whose object references need not be cell addresses, no
    /// cell that holds a marked object reference, at a position that a brute-force scan
    /// looks at, is on the block's free list. (Each cell holds at least one heap word.)
    pub proof fn lemma_sweep_never_frees_marked_cells(
        self,
        meta0: &MarkSweepMetadata,
        meta1: &MarkSweepMetadata,
        words0: &SideTable<usize>,
        words1: &SideTable<usize>,
        marks: &SideTable<bool>,
        config: SweepConfig,
        fuel: nat,
        k: int,
    )
        requires
            self.aligned(),
            self.covered_by(meta0),
            !config.unified_object_reference_address || config.use_allocation_offset,
            meta0.cell_size.entry(self.start_spec()) > 0,
            meta0.cell_size.entry(self.start_spec()) >= words0.region_bytes(),
            fuel >= num_cells(meta0.cell_size.entry(self.start_spec())),
            words0.covers_range(
                self.start_spec().value() as int,
                self.start_spec().value() + MS_BLOCK_BYTES,
            ),
            self.swept(
                meta0,
                meta1,
                words0,
                words1,
                meta0.cell_size.entry(self.start_spec()),
                sweep_liveness(
                    config,
                    marks,
                    self.start_spec().value() as int,
                    meta0.cell_size.entry(self.start_spec()),
                ),
            ),
            0 <= k < num_cells(meta0.cell_size.entry(self.start_spec())),
            exists|g: int|
                0 <= g && g * MIN_OBJECT_SIZE < meta0.cell_size.entry(self.start_spec())
                    && #[trigger] marks.entry_at(
                    self.start_spec().value() + k * meta0.cell_size.entry(self.start_spec()) + g
                        * MIN_OBJECT_SIZE + config.object_ref_offset_lower_bound,
                ),
        ensures
            !free_list_walk(words1, meta1.free_list.entry(self.start_spec()) as int, fuel).contains(
                self.start_spec().value() + k * meta0.cell_size.entry(self.start_spec()),
            ),
    {
        let cs = meta0.cell_size.entry(self.start_spec());
        let start = self.start_spec().value() as int;
        let live = sweep_liveness(config, marks, start, cs);
        lemma_sweep_liveness_by_marks(config, marks, start, cs);
        assert(live[k]);
        self.lemma_free_list_walk(meta0, meta1, words0, words1, cs, live, fuel);
        lemma_free_cells_desc_exclude_live(start, cs as int, live, num_cells(cs), k);
    }
}

/// The last free cell among the first `k` cells lies below the `k`-th cell.
proof fn lemma_last_free_cell_bound(start: int, cell_size: int, live: Seq<bool>, k: int)
    requires
        cell_size > 0,
        start >= 0,
    ensures
        last_free_cell(start, cell_size, live, k) <= start + k * cell_size || k <= 0,
    decreases k,
{
    if k > 0 {
        lemma_last_free_cell_bound(start, cell_size, live, k - 1);
        assert(start + (k - 1) * cell_size <= start + k * cell_size) by (nonlinear_arith)
            requires
                cell_size > 0,
        ;
    }
}

/// Distinct `MS_BLOCK_BYTES`-aligned addresses at or above `base` fall in distinct
/// block-sized regions counted from `base`.
proof fn lemma_ms_aligned_distinct_index(x: int, y: int, base: int)
    requires
        x % (MS_BLOCK_BYTES as int) == 0,
        y % (MS_BLOCK_BYTES as int) == 0,
        x != y,
        base <= x,
        base <= y,
    ensures
        (x - base) / (MS_BLOCK_BYTES as int) != (y - base) / (MS_BLOCK_BYTES as int),
{
    let bb = MS_BLOCK_BYTES as int;
    vstd::arithmetic::div_mod::lemma_fundamental_div_mod(x - base, bb);
    vstd::arithmetic::div_mod::lemma_fundamental_div_mod(y - base, bb);
    vstd::arithmetic::div_mod::lemma_fundamental_div_mod(x, bb);
    vstd::arithmetic::div_mod::lemma_fundamental_div_mod(y, bb);
    if (x - base) / bb == (y - base) / bb {
        assert(x - y < bb && y - x < bb) by (nonlinear_arith)
            requires
                x - base == bb * ((x - base) / bb) + (x - base) % bb,
                y - base == bb * ((y - base) / bb) + (y - base) % bb,
                0 <= (x - base) % bb < bb,
                0 <= (y - base) % bb < bb,
                (x - base) / bb == (y - base) / bb,
        ;
        assert(false) by (nonlinear_arith)
            requires
                x == bb * (x / bb),
                y == bb * (y / bb),
                x - y < bb,
                y - x < bb,
                x != y,
                bb > 0,
        ;
    }
}

/// Two distinct aligned blocks that the metadata covers have distinct entries in every
/// metadata table, so a store for one block leaves the other's entries as they were.
pub proof fn lemma_ms_blocks_independent(meta: &MarkSweepMetadata, a: Block, b: Block)
    requires
        a.aligned(),
        b.aligned(),
        a.covered_by(meta),
        b.covered_by(meta),
        a.start_spec() != b.start_spec(),
    ensures
        meta.mark.index_of(a.start_spec()) != meta.mark.index_of(b.start_spec()),
        meta.next_block.index_of(a.start_spec()) != meta.next_block.index_of(b.start_spec()),
        meta.prev_block.index_of(a.start_spec()) != meta.prev_block.index_of(b.start_spec()),
        meta.free_list.index_of(a.start_spec()) != meta.free_list.index_of(b.start_spec()),
        meta.local_free_list.index_of(a.start_spec()) != meta.local_free_list.index_of(
            b.start_spec(),
        ),
        meta.thread_free_list.index_of(a.start_spec()) != meta.thread_free_list.index_of(
            b.start_spec(),
        ),
        meta.cell_size.index_of(a.start_spec()) != meta.cell_size.index_of(b.start_spec()),
        meta.tls.index_of(a.start_spec()) != meta.tls.index_of(b.start_spec()),
{
    broadcast use Address::lemma_value_injective;
    let x = a.start_spec().value() as int;
    let y = b.start_spec().value() as int;
    lemma_ms_aligned_distinct_index(x, y, meta.mark.base() as int);
    lemma_ms_aligned_distinct_index(x, y, meta.next_block.base() as int);
    lemma_ms_aligned_distinct_index(x, y, meta.prev_block.base() as int);
    lemma_ms_aligned_distinct_index(x, y, meta.free_list.base() as int);
    lemma_ms_aligned_distinct_index(x, y, meta.local_free_list.base() as int);
    lemma_ms_aligned_distinct_index(x, y, meta.thread_free_list.base() as int);
    lemma_ms_aligned_distinct_index(x, y, meta.cell_size.base() as int);
    lemma_ms_aligned_distinct_index(x, y, meta.tls.base() as int);
}

} // verus!
