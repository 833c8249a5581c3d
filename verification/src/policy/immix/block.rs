use vstd::prelude::*;

use super::line::{Line, LINE_BYTES, LINE_LOG_BYTES, LINE_MAX_MARK_STATE};
use crate::util::address::Address;
use crate::util::constants::LOG_BYTES_IN_PAGE;
use crate::util::heap::chunk_map::Chunk;
use crate::util::metadata::side_metadata::SideTable;

verus! {

/// Log2 of the bytes in an Immix block.
pub const BLOCK_LOG_BYTES: usize = 15;
/// The bytes in an Immix block.
pub const BLOCK_BYTES: usize = 32768;
/// Log2 of the pages in a block.
pub const BLOCK_LOG_PAGES: usize = 3;
/// The pages in a block.
pub const BLOCK_PAGES: usize = 8;
/// Log2 of the lines in a block.
pub const BLOCK_LOG_LINES: usize = 7;
/// The lines in a block.
pub const BLOCK_LINES: usize = 128;
/// The number of entries of a mark histogram: one for each possible number of holes.
pub const HISTOGRAM_LEN: usize = 65;

/// The defrag byte of a block that is a defragmentation source.
pub const DEFRAG_SOURCE_STATE: u8 = 255;

/// The mark byte of an unallocated block.
pub const MARK_UNALLOCATED: u8 = 0;
/// The mark byte of an unmarked block.
pub const MARK_UNMARKED: u8 = 255;
/// The mark byte of a marked block.
pub const MARK_MARKED: u8 = 254;

/// A histogram of marked lines, indexed by the number of holes of a block.
pub type Histogram = Vec<usize>;

/// The constants of the block layout agree with each other.
pub proof fn lemma_block_layout()
    ensures
        BLOCK_LOG_PAGES == BLOCK_LOG_BYTES - LOG_BYTES_IN_PAGE,
        BLOCK_LOG_LINES == BLOCK_LOG_BYTES - LINE_LOG_BYTES,
        BLOCK_BYTES == BLOCK_LINES * LINE_BYTES,
        BLOCK_PAGES * 4096 == BLOCK_BYTES,
        HISTOGRAM_LEN == BLOCK_LINES / 2 + 1,
        BLOCK_BYTES == 1usize << BLOCK_LOG_BYTES,
        BLOCK_LINES == 1usize << BLOCK_LOG_LINES,
        BLOCK_PAGES == 1usize << BLOCK_LOG_PAGES,
{
    assert(32768usize == 1usize << 15usize) by (bit_vector);
    assert(128usize == 1usize << 7usize) by (bit_vector);
    assert(8usize == 1usize << 3usize) by (bit_vector);
}

/// The block allocation state.
#[derive(Clone, Copy, Debug, PartialEq, Eq, Structural)]
pub enum BlockState {
    /// the block is not allocated.
    Unallocated,
    /// the block is allocated but not marked.
    Unmarked,
    /// the block is allocated and marked.
    Marked,
    /// the block is marked as reusable.
    Reusable { unavailable_lines: u8 },
}

/// The state that a mark byte encodes.
pub open spec fn byte_to_state(byte: u8) -> BlockState {
    if byte == MARK_UNALLOCATED {
        BlockState::Unallocated
    } else if byte == MARK_UNMARKED {
        BlockState::Unmarked
    } else if byte == MARK_MARKED {
        BlockState::Marked
    } else {
        BlockState::Reusable { unavailable_lines: byte }
    }
}

/// The mark byte that encodes a state.
pub open spec fn state_to_byte(state: BlockState) -> u8 {
    match state {
        BlockState::Unallocated => MARK_UNALLOCATED,
        BlockState::Unmarked => MARK_UNMARKED,
        BlockState::Marked => MARK_MARKED,
        BlockState::Reusable { unavailable_lines } => unavailable_lines,
    }
}

/// A state that its mark byte represents faithfully: a reusable state whose line
/// count collides with one of the reserved bytes does not.
pub open spec fn state_is_encodable(state: BlockState) -> bool {
    match state {
        BlockState::Reusable { unavailable_lines } => unavailable_lines != MARK_UNALLOCATED
            && unavailable_lines != MARK_UNMARKED && unavailable_lines != MARK_MARKED,
        _ => true,
    }
}

impl From<u8> for BlockState {
    fn from(state: u8) -> (r: Self) {
        if state == MARK_UNALLOCATED {
            BlockState::Unallocated
        } else if state == MARK_UNMARKED {
            BlockState::Unmarked
        } else if state == MARK_MARKED {
            BlockState::Marked
        } else {
            BlockState::Reusable { unavailable_lines: state }
        }
    }
}

impl vstd::std_specs::convert::FromSpecImpl<u8> for BlockState {
    open spec fn obeys_from_spec() -> bool {
        true
    }

    open spec fn from_spec(v: u8) -> BlockState {
        byte_to_state(v)
    }
}

impl From<BlockState> for u8 {
    fn from(state: BlockState) -> (r: u8) {
        match state {
            BlockState::Unallocated => MARK_UNALLOCATED,
            BlockState::Unmarked => MARK_UNMARKED,
            BlockState::Marked => MARK_MARKED,
            BlockState::Reusable { unavailable_lines } => unavailable_lines,
        }
    }
}

impl vstd::std_specs::convert::FromSpecImpl<BlockState> for u8 {
    open spec fn obeys_from_spec() -> bool {
        true
    }

    open spec fn from_spec(v: BlockState) -> u8 {
        state_to_byte(v)
    }
}

impl BlockState {
    /// Test if the block is reusable.
    pub fn is_reusable(&self) -> (r: bool)
        ensures
            r == (*self is Reusable),
    {
        matches!(self, BlockState::Reusable { .. })
    }
}

/// Decoding a mark byte and encoding the state again gives back the byte.
pub proof fn lemma_byte_state_round_trip(byte: u8)
    ensures
        state_to_byte(byte_to_state(byte)) == byte,
{
}

/// Encoding a state and decoding the byte gives back the state, for every state
/// that its byte represents faithfully.
pub proof fn lemma_state_byte_round_trip(state: BlockState)
    requires
        state_is_encodable(state),
    ensures
        byte_to_state(state_to_byte(state)) == state,
{
}

// ---------------------------------------------------------------------------
// Counting marked lines and holes
// ---------------------------------------------------------------------------

/// The number of lines in `s` whose mark byte is `mark_state`.
pub open spec fn count_marked(s: Seq<u8>, mark_state: u8) -> nat
    decreases s.len(),
{
    if s.len() == 0 {
        0
    } else {
        count_marked(s.drop_last(), mark_state) + if s.last() == mark_state {
            1nat
        } else {
            0nat
        }
    }
}

/// Whether line `i` of `s` is the first line of a hole: it is unmarked and it is
/// either the first line or follows a marked line.
pub open spec fn starts_hole(s: Seq<u8>, mark_state: u8, i: int) -> bool {
    s[i] != mark_state && (i == 0 || s[i - 1] == mark_state)
}

/// The number of holes (maximal runs of unmarked lines) in `s`.
pub open spec fn count_holes(s: Seq<u8>, mark_state: u8) -> nat
    decreases s.len(),
{
    if s.len() == 0 {
        0
    } else {
        count_holes(s.drop_last(), mark_state) + if starts_hole(s, mark_state, s.len() - 1) {
            1nat
        } else {
            0nat
        }
    }
}

/// At most every line is marked.
pub proof fn lemma_count_marked_bound(s: Seq<u8>, mark_state: u8)
    ensures
        count_marked(s, mark_state) <= s.len(),
    decreases s.len(),
{
    if s.len() > 0 {
        lemma_count_marked_bound(s.drop_last(), mark_state);
    }
}

/// A run of lines has at most `(len + 1) / 2` holes, and none when every line is marked.
pub proof fn lemma_count_holes_bound(s: Seq<u8>, mark_state: u8)
    ensures
        2 * count_holes(s, mark_state) <= s.len() + if s.len() > 0 && s.last() != mark_state {
            1int
        } else {
            0int
        },
        count_holes(s, mark_state) <= s.len() - count_marked(s, mark_state),
    decreases s.len(),
{
    if s.len() > 0 {
        lemma_count_holes_bound(s.drop_last(), mark_state);
        lemma_count_marked_bound(s.drop_last(), mark_state);
        let p = s.drop_last();
        if s.len() >= 2 {
            assert(p.last() == s[s.len() - 2]);
        }
    }
}

/// The counts of a prefix extend line by line.
proof fn lemma_counts_step(s: Seq<u8>, mark_state: u8, i: int)
    requires
        0 <= i < s.len(),
    ensures
        count_marked(s.take(i + 1), mark_state) == count_marked(s.take(i), mark_state) + if s[i]
            == mark_state {
            1nat
        } else {
            0nat
        },
        count_holes(s.take(i + 1), mark_state) == count_holes(s.take(i), mark_state)
            + if starts_hole(s, mark_state, i) {
            1nat
        } else {
            0nat
        },
{
    let t = s.take(i + 1);
    assert(t.drop_last() =~= s.take(i));
    assert(t.last() == s[i]);
    if i > 0 {
        assert(t[i - 1] == s[i - 1]);
    }
    assert(starts_hole(t, mark_state, t.len() - 1) == starts_hole(s, mark_state, i));
}

/// Count marked lines and holes in a line mark table.
///
/// Returns `(marked_lines, holes)`.
pub fn sweep_count_scalar(data: &[u8], mark_state: u8) -> (r: (usize, usize))
    ensures
        r.0 == count_marked(data@, mark_state),
        r.1 == count_holes(data@, mark_state),
{
    let mut marked_lines: usize = 0;
    let mut holes: usize = 0;
    let mut prev_is_marked = true;
    let mut i: usize = 0;
    while i < data.len()
        invariant
            i <= data@.len(),
            marked_lines == count_marked(data@.take(i as int), mark_state),
            holes == count_holes(data@.take(i as int), mark_state),
            prev_is_marked == (i == 0 || data@[i - 1] == mark_state),
            marked_lines <= i,
            holes <= i,
        decreases data@.len() - i,
    {
        proof {
            lemma_counts_step(data@, mark_state, i as int);
        }
        let byte = data[i];
        if byte == mark_state {
            marked_lines += 1;
            prev_is_marked = true;
        } else {
            if prev_is_marked {
                holes += 1;
            }
            prev_is_marked = false;
        }
        i += 1;
    }
    assert(data@.take(data@.len() as int) =~= data@);
    (marked_lines, holes)
}

/// The number of lines that one vector of lane comparisons covers.
pub const SWEEP_LANES: usize = 16;

/// Count marked lines and holes, a vector of `SWEEP_LANES` lines at a time: each lane
/// compares its line with the mark state, a lane starts a hole when it is unmarked and
/// the lane before it (the last lane of the previous vector, for the first lane) is
/// marked.
///
/// Returns `(marked_lines, holes)`.
pub fn sweep_count_simd(data: &[u8], mark_state: u8) -> (r: (u32, u32))
    requires
        data@.len() == BLOCK_LINES,
    ensures
        r.0 == count_marked(data@, mark_state),
        r.1 == count_holes(data@, mark_state),
{
    let mut acc_marked: u32 = 0;
    let mut acc_holes: u32 = 0;
    // Whether the last line of the previous vector is marked; the line before the
    // block counts as marked.
    let mut prev_last = true;
    let chunks = BLOCK_LINES / SWEEP_LANES;
    let mut chunk_idx: usize = 0;
    while chunk_idx < chunks
        invariant
            chunks == BLOCK_LINES / SWEEP_LANES,
            chunk_idx <= chunks,
            data@.len() == BLOCK_LINES,
            acc_marked == count_marked(data@.take((chunk_idx * SWEEP_LANES) as int), mark_state),
            acc_holes == count_holes(data@.take((chunk_idx * SWEEP_LANES) as int), mark_state),
            acc_marked <= chunk_idx * SWEEP_LANES,
            acc_holes <= chunk_idx * SWEEP_LANES,
            prev_last == (chunk_idx == 0 || data@[chunk_idx * SWEEP_LANES - 1] == mark_state),
        decreases chunks - chunk_idx,
    {
        assert(chunk_idx * SWEEP_LANES + SWEEP_LANES <= BLOCK_LINES) by (nonlinear_arith)
            requires
                chunk_idx < 8,
                SWEEP_LANES == 16,
                BLOCK_LINES == 128,
        ;
        let base = chunk_idx * SWEEP_LANES;
        // Lane comparisons.
        let mut eq: Vec<bool> = Vec::new();
        let mut lane: usize = 0;
        while lane < SWEEP_LANES
            invariant
                lane <= SWEEP_LANES,
                base + SWEEP_LANES <= data@.len(),
                data@.len() == BLOCK_LINES,
                eq@.len() == lane,
                forall|j: int| 0 <= j < lane ==> #[trigger] eq@[j] == (data@[base + j] == mark_state),
            decreases SWEEP_LANES - lane,
        {
            eq.push(data[base + lane] == mark_state);
            lane += 1;
        }
        // Marked lanes, and marked-to-unmarked transitions.
        let mut j: usize = 0;
        while j < SWEEP_LANES
            invariant
                j <= SWEEP_LANES,
                base == chunk_idx * SWEEP_LANES,
                base + SWEEP_LANES <= data@.len(),
                data@.len() == BLOCK_LINES,
                eq@.len() == SWEEP_LANES,
                forall|k: int|
                    0 <= k < SWEEP_LANES ==> #[trigger] eq@[k] == (data@[base + k] == mark_state),
                acc_marked == count_marked(data@.take(base + j), mark_state),
                acc_holes == count_holes(data@.take(base + j), mark_state),
                acc_marked <= base + j,
                acc_holes <= base + j,
                prev_last == (base == 0 || data@[base - 1] == mark_state),
            decreases SWEEP_LANES - j,
        {
            proof {
                lemma_counts_step(data@, mark_state, (base + j) as int);
            }
            let prev_eq = if j == 0 {
                prev_last
            } else {
                eq[j - 1]
            };
            if eq[j] {
                acc_marked += 1;
            } else if prev_eq {
                acc_holes += 1;
            }
            j += 1;
        }
        prev_last = eq[SWEEP_LANES - 1];
        chunk_idx += 1;
    }
    assert(data@.take(data@.len() as int) =~= data@);
    (acc_marked, acc_holes)
}

/// Count marked lines and holes in the line mark table of a block.
///
/// Returns `(marked_lines, holes)`.
pub fn sweep_count(data: &[u8], mark_state: u8) -> (r: (usize, usize))
    requires
        data@.len() == BLOCK_LINES,
    ensures
        r.0 == count_marked(data@, mark_state),
        r.1 == count_holes(data@, mark_state),
{
    let (m, h) = sweep_count_simd(data, mark_state);
    (m as usize, h as usize)
}

// ---------------------------------------------------------------------------
// Blocks
// ---------------------------------------------------------------------------

/// The side metadata that Immix keeps for its blocks and lines.
pub struct ImmixMetadata {
    /// One mark byte per block.
    pub block_mark: SideTable<u8>,
    /// One defrag byte per block (defrag-source flag, or the number of holes).
    pub block_defrag: SideTable<u8>,
    /// One mark byte per line.
    pub line_mark: SideTable<u8>,
}

/// Data structure to reference an immix block.
#[derive(Clone, Copy, Debug, PartialEq, Eq, Structural)]
pub struct Block(Address);

impl Block {
    /// The start address of the block.
    pub closed spec fn start_spec(self) -> Address {
        self.0
    }

    /// The block is aligned and its end fits in the address space.
    pub open spec fn wf(self) -> bool {
        &&& self.start_spec().value() % BLOCK_BYTES == 0
        &&& self.start_spec().value() + BLOCK_BYTES <= usize::MAX
    }

    /// The index in the line mark table of the first line of the block.
    pub open spec fn first_line_index(self, meta: &ImmixMetadata) -> int {
        meta.line_mark.index_of(self.start_spec())
    }

    /// The metadata tables have entries for this block and for all its lines, with one
    /// entry per block in the block tables and one per line in the line table.
    pub open spec fn covered_by(self, meta: &ImmixMetadata) -> bool {
        &&& self.wf()
        &&& meta.block_mark.region_bytes() == BLOCK_BYTES
        &&& meta.block_defrag.region_bytes() == BLOCK_BYTES
        &&& meta.line_mark.region_bytes() == LINE_BYTES
        &&& meta.block_mark.covers(self.start_spec())
        &&& meta.block_defrag.covers(self.start_spec())
        &&& meta.line_mark.covers(self.start_spec())
        &&& self.first_line_index(meta) + BLOCK_LINES <= meta.line_mark@.len()
    }

    /// The line mark bytes of this block.
    pub open spec fn line_marks(self, meta: &ImmixMetadata) -> Seq<u8> {
        meta.line_mark@.subrange(
            self.first_line_index(meta),
            self.first_line_index(meta) + BLOCK_LINES,
        )
    }

    /// The state encoded in the block's mark byte.
    pub open spec fn state(self, meta: &ImmixMetadata) -> BlockState {
        byte_to_state(meta.block_mark.entry(self.start_spec()))
    }

    /// The block's defrag byte.
    pub open spec fn defrag_byte(self, meta: &ImmixMetadata) -> u8 {
        meta.block_defrag.entry(self.start_spec())
    }

    /// The block that starts at `address`, which must be block-aligned.
    pub fn from_aligned_address(address: Address) -> (b: Block)
        requires
            address.value() % BLOCK_BYTES == 0,
            address.value() + BLOCK_BYTES <= usize::MAX,
        ensures
            b.start_spec() == address,
            b.wf(),
    {
        Block(address)
    }

    /// The start address of the block.
    pub fn start(&self) -> (a: Address)
        ensures
            a == self.start_spec(),
    {
        self.0
    }

    /// The end address (exclusive) of the block.
    pub fn end(&self) -> (a: Address)
        requires
            self.wf(),
        ensures
            a.value() == self.start_spec().value() + BLOCK_BYTES,
    {
        self.0.add(BLOCK_BYTES)
    }

    /// Get the chunk containing the block.
    pub fn chunk(&self) -> (c: Chunk)
        ensures
            c.start_spec().value() == self.start_spec().value() - self.start_spec().value()
                % crate::util::heap::chunk_map::BYTES_IN_CHUNK,
    {
        Chunk::from_unaligned_address(self.0)
    }

    /// Get the block's line mark table.
    pub fn line_mark_table(&self, meta: &ImmixMetadata) -> (r: Vec<u8>)
        requires
            self.covered_by(meta),
        ensures
            r@ == self.line_marks(meta),
    {
        let first = meta.line_mark.index(self.0);
        let mut r: Vec<u8> = Vec::new();
        let mut j: usize = 0;
        while j < BLOCK_LINES
            invariant
                first == self.first_line_index(meta),
                self.covered_by(meta),
                j <= BLOCK_LINES,
                r@ == meta.line_mark@.subrange(first as int, first + j),
            decreases BLOCK_LINES - j,
        {
            r.push(meta.line_mark.get(first + j));
            j += 1;
        }
        r
    }

    /// Get block mark state.
    pub fn get_state(&self, meta: &ImmixMetadata) -> (s: BlockState)
        requires
            self.covered_by(meta),
        ensures
            s == self.state(meta),
    {
        let byte = meta.block_mark.load(self.0);
        BlockState::from(byte)
    }

    /// Set block mark state.
    pub fn set_state(&self, meta: &mut ImmixMetadata, state: BlockState)
        requires
            self.covered_by(old(meta)),
        ensures
            final(meta).block_mark@ == old(meta).block_mark@.update(
                old(meta).block_mark.index_of(self.start_spec()),
                state_to_byte(state),
            ),
            final(meta).block_mark.base() == old(meta).block_mark.base(),
            final(meta).block_mark.region_bytes() == old(meta).block_mark.region_bytes(),
            final(meta).block_defrag == old(meta).block_defrag,
            final(meta).line_mark == old(meta).line_mark,
            self.covered_by(final(meta)),
    {
        let byte = u8::from(state);
        meta.block_mark.store(self.0, byte);
    }

    /// Test if the block is marked for defragmentation.
    pub fn is_defrag_source(&self, meta: &ImmixMetadata) -> (r: bool)
        requires
            self.covered_by(meta),
        ensures
            r == (self.defrag_byte(meta) == DEFRAG_SOURCE_STATE),
    {
        meta.block_defrag.load(self.0) == DEFRAG_SOURCE_STATE
    }

    /// Store `byte` in the block's defrag byte.
    fn store_defrag_byte(&self, meta: &mut ImmixMetadata, byte: u8)
        requires
            self.covered_by(old(meta)),
        ensures
            final(meta).block_defrag@ == old(meta).block_defrag@.update(
                old(meta).block_defrag.index_of(self.start_spec()),
                byte,
            ),
            final(meta).block_defrag.base() == old(meta).block_defrag.base(),
            final(meta).block_defrag.region_bytes() == old(meta).block_defrag.region_bytes(),
            final(meta).block_mark == old(meta).block_mark,
            final(meta).line_mark == old(meta).line_mark,
            self.covered_by(final(meta)),
    {
        meta.block_defrag.store(self.0, byte);
    }

    /// Mark the block for defragmentation.
    pub fn set_as_defrag_source(&self, meta: &mut ImmixMetadata, defrag: bool)
        requires
            self.covered_by(old(meta)),
        ensures
            final(meta).block_defrag@ == old(meta).block_defrag@.update(
                old(meta).block_defrag.index_of(self.start_spec()),
                if defrag {
                    DEFRAG_SOURCE_STATE
                } else {
                    0u8
                },
            ),
            final(meta).block_defrag.base() == old(meta).block_defrag.base(),
            final(meta).block_defrag.region_bytes() == old(meta).block_defrag.region_bytes(),
            final(meta).block_mark == old(meta).block_mark,
            final(meta).line_mark == old(meta).line_mark,
            self.covered_by(final(meta)),
    {
        let byte = if defrag {
            DEFRAG_SOURCE_STATE
        } else {
            0
        };
        self.store_defrag_byte(meta, byte);
    }

    /// Record the number of holes in the block (truncated to a byte).
    pub fn set_holes(&self, meta: &mut ImmixMetadata, holes: usize)
        requires
            self.covered_by(old(meta)),
        ensures
            final(meta).block_defrag@ == old(meta).block_defrag@.update(
                old(meta).block_defrag.index_of(self.start_spec()),
                holes as u8,
            ),
            final(meta).block_defrag.base() == old(meta).block_defrag.base(),
            final(meta).block_defrag.region_bytes() == old(meta).block_defrag.region_bytes(),
            final(meta).block_mark == old(meta).block_mark,
            final(meta).line_mark == old(meta).line_mark,
            self.covered_by(final(meta)),
    {
        self.store_defrag_byte(meta, holes as u8);
    }

    /// Get the number of holes.
    pub fn get_holes(&self, meta: &ImmixMetadata) -> (r: usize)
        requires
            self.covered_by(meta),
            self.defrag_byte(meta) != DEFRAG_SOURCE_STATE,
        ensures
            r == self.defrag_byte(meta),
    {
        let byte = meta.block_defrag.load(self.0);
        byte as usize
    }

    /// Initialize a clean block after acquired from page-resource.
    pub fn init(&self, meta: &mut ImmixMetadata, copy: bool)
        requires
            self.covered_by(old(meta)),
        ensures
            self.covered_by(final(meta)),
            self.state(final(meta)) == (if copy {
                BlockState::Marked
            } else {
                BlockState::Unmarked
            }),
            self.defrag_byte(final(meta)) == 0,
            final(meta).line_mark == old(meta).line_mark,
            forall|a: Address|
                #![trigger final(meta).block_mark.entry(a)]
                old(meta).block_mark.covers(a) && old(meta).block_mark.index_of(a)
                    != old(meta).block_mark.index_of(self.start_spec()) ==> final(meta).block_mark.entry(a)
                    == old(meta).block_mark.entry(a),
    {
        self.set_state(
            meta,
            if copy {
                BlockState::Marked
            } else {
                BlockState::Unmarked
            },
        );
        self.store_defrag_byte(meta, 0);
    }

    /// Deinitalize a block before releasing.
    pub fn deinit(&self, meta: &mut ImmixMetadata)
        requires
            self.covered_by(old(meta)),
        ensures
            self.covered_by(final(meta)),
            self.state(final(meta)) == BlockState::Unallocated,
            final(meta).block_mark@ == old(meta).block_mark@.update(
                old(meta).block_mark.index_of(self.start_spec()),
                state_to_byte(BlockState::Unallocated),
            ),
            final(meta).block_mark.base() == old(meta).block_mark.base(),
            final(meta).block_mark.region_bytes() == old(meta).block_mark.region_bytes(),
            final(meta).block_defrag == old(meta).block_defrag,
            final(meta).line_mark == old(meta).line_mark,
    {
        self.set_state(meta, BlockState::Unallocated);
    }

    /// The first line of the block.
    pub fn start_line(&self) -> (l: Line)
        requires
            self.wf(),
        ensures
            l.start_spec() == self.start_spec(),
    {
        Line::from_aligned_address(self.0)
    }

    /// The line just past the end of the block.
    pub fn end_line(&self) -> (l: Line)
        requires
            self.wf(),
        ensures
            l.start_spec().value() == self.start_spec().value() + BLOCK_BYTES,
    {
        Line::from_aligned_address(self.end())
    }

    /// The lines of the block, in address order.
    pub fn lines(&self) -> (r: Vec<Line>)
        requires
            self.wf(),
        ensures
            r@.len() == BLOCK_LINES,
            forall|j: int|
                0 <= j < BLOCK_LINES ==> (#[trigger] r@[j]).start_spec().value()
                    == self.start_spec().value() + j * LINE_BYTES,
    {
        let mut r: Vec<Line> = Vec::new();
        let mut j: usize = 0;
        while j < BLOCK_LINES
            invariant
                self.wf(),
                j <= BLOCK_LINES,
                r@.len() == j,
                forall|k: int|
                    0 <= k < j ==> (#[trigger] r@[k]).start_spec().value()
                        == self.start_spec().value() + k * LINE_BYTES,
            decreases BLOCK_LINES - j,
        {
            assert((self.start_spec().value() + j * LINE_BYTES) % LINE_BYTES as int == 0) by (nonlinear_arith)
                requires
                    self.start_spec().value() % BLOCK_BYTES == 0,
            {
                let q = self.start_spec().value() as int / BLOCK_BYTES as int;
                assert(self.start_spec().value() == q * 128 * 256);
            }
            r.push(Line::from_aligned_address(self.0.add(j * LINE_BYTES)));
            j += 1;
        }
        r
    }
}


/// Whether a sweep with line mark state `state` clears the stale marks of unmarked lines.
pub open spec fn sweep_clears_marks(state: u8) -> bool {
    state > LINE_MAX_MARK_STATE - 2
}

/// The line marks of a block after the sweep's clearing pass.
pub open spec fn cleared_line_marks(s: Seq<u8>, state: u8) -> Seq<u8> {
    if sweep_clears_marks(state) {
        Seq::new(s.len(), |i: int| if s[i] == state { s[i] } else { 0u8 })
    } else {
        s
    }
}

/// The state a block is left in by a sweep that found `marked` marked lines (and kept it).
pub open spec fn swept_state(marked: nat) -> BlockState {
    if marked == BLOCK_LINES {
        BlockState::Unmarked
    } else {
        BlockState::Reusable { unavailable_lines: marked as u8 }
    }
}

impl Block {
    /// Sweep this block, given the line mark state of the current collection.
    ///
    /// Counts the marked lines and the holes of the block. A block with no marked line
    /// is released: it is deinitialized (unallocated) and the result is `true`, so that
    /// the caller gives its pages back. Otherwise the
    /// block is kept: it becomes reusable (and joins `reusable`) if some line is unmarked,
    /// or unmarked if every line is marked; the histogram entry for its number of holes
    /// grows by its number of marked lines, and the number of holes is recorded in its
    /// defrag byte. When the line mark state is close to wrapping around, the marks of
    /// unmarked lines are cleared to zero.
    pub fn sweep(
        &self,
        meta: &mut ImmixMetadata,
        mark_histogram: &mut Histogram,
        line_mark_state: Option<u8>,
        reusable: &mut ReusableBlockPool,
    ) -> (released: bool)
        requires
            self.covered_by(old(meta)),
            line_mark_state is Some,
            old(mark_histogram)@.len() == HISTOGRAM_LEN,
            forall|i: int|
                0 <= i < HISTOGRAM_LEN ==> #[trigger] old(mark_histogram)@[i] + BLOCK_LINES
                    <= usize::MAX,
        ensures
            ({
                let st = line_mark_state.unwrap();
                let s = self.line_marks(old(meta));
                let marked = count_marked(s, st);
                let holes = count_holes(s, st);
                let first = self.first_line_index(old(meta));
                &&& released == (marked == 0)
                &&& self.covered_by(final(meta))
                &&& self.line_marks(final(meta)) == cleared_line_marks(s, st)
                &&& final(meta).line_mark@.len() == old(meta).line_mark@.len()
                &&& final(meta).block_mark.base() == old(meta).block_mark.base()
                &&& final(meta).block_mark.region_bytes() == old(meta).block_mark.region_bytes()
                &&& final(meta).block_defrag.base() == old(meta).block_defrag.base()
                &&& final(meta).block_defrag.region_bytes() == old(meta).block_defrag.region_bytes()
                &&& final(meta).line_mark.base() == old(meta).line_mark.base()
                &&& final(meta).line_mark.region_bytes() == old(meta).line_mark.region_bytes()
                &&& forall|i: int|
                    0 <= i < old(meta).line_mark@.len() && !(first <= i < first + BLOCK_LINES)
                        ==> #[trigger] final(meta).line_mark@[i] == old(meta).line_mark@[i]
                &&& marked == 0 ==> {
                    &&& final(meta).block_mark@ == old(meta).block_mark@.update(
                        old(meta).block_mark.index_of(self.start_spec()),
                        state_to_byte(BlockState::Unallocated),
                    )
                    &&& self.state(final(meta)) == BlockState::Unallocated
                    &&& final(meta).block_defrag == old(meta).block_defrag
                    &&& final(mark_histogram)@ == old(mark_histogram)@
                    &&& final(reusable)@ == old(reusable)@
                }
                &&& marked != 0 ==> {
                    &&& final(meta).block_mark@ == old(meta).block_mark@.update(
                        old(meta).block_mark.index_of(self.start_spec()),
                        state_to_byte(swept_state(marked)),
                    )
                    &&& final(meta).block_defrag@ == old(meta).block_defrag@.update(
                        old(meta).block_defrag.index_of(self.start_spec()),
                        holes as u8,
                    )
                    &&& self.state(final(meta)) == swept_state(marked)
                    &&& final(mark_histogram)@ == old(mark_histogram)@.update(
                        holes as int,
                        (old(mark_histogram)@[holes as int] + marked) as usize,
                    )
                    &&& final(reusable)@ == if marked != BLOCK_LINES {
                        old(reusable)@.push(*self)
                    } else {
                        old(reusable)@
                    }
                }
            }),
    {
        let line_mark_state = line_mark_state.unwrap();
        let ghost s = self.line_marks(meta);
        let mark_data = self.line_mark_table(meta);

        // Pass 1: count marked lines and holes.
        let (marked_lines, holes) = sweep_count(mark_data.as_slice(), line_mark_state);
        proof {
            lemma_count_marked_bound(s, line_mark_state);
            lemma_count_holes_bound(s, line_mark_state);
        }

        // Pass 2: clear the stale marks of unmarked lines.
        let needs_mark_clear = line_mark_state > LINE_MAX_MARK_STATE - 2;
        if needs_mark_clear {
            let first = meta.line_mark.index(self.0);
            let ghost old_lines = meta.line_mark@;
            let mut j: usize = 0;
            while j < BLOCK_LINES
                invariant
                    self.covered_by(meta),
                    first == self.first_line_index(meta),
                    first + BLOCK_LINES <= old_lines.len(),
                    j <= BLOCK_LINES,
                    meta.line_mark@.len() == old_lines.len(),
                    meta.line_mark.base() == old(meta).line_mark.base(),
                    meta.line_mark.region_bytes() == old(meta).line_mark.region_bytes(),
                    meta.block_mark == old(meta).block_mark,
                    meta.block_defrag == old(meta).block_defrag,
                    old_lines == old(meta).line_mark@,
                    forall|i: int|
                        0 <= i < old_lines.len() ==> #[trigger] meta.line_mark@[i] == if first <= i
                            < first + j && old_lines[i] != line_mark_state {
                            0u8
                        } else {
                            old_lines[i]
                        },
                decreases BLOCK_LINES - j,
            {
                if meta.line_mark.get(first + j) != line_mark_state {
                    meta.line_mark.set(first + j, 0);
                }
                j += 1;
            }
            assert(self.line_marks(meta) =~= cleared_line_marks(s, line_mark_state));
        }

        if marked_lines == 0 {
            // Release the block if none of its lines are marked: it is deinitialized,
            // and its pages can be given back.
            self.deinit(meta);
            true
        } else {
            // There are some marked lines. Keep the block live.
            if marked_lines != BLOCK_LINES {
                // There are holes. Mark the block as reusable.
                self.set_state(meta, BlockState::Reusable { unavailable_lines: marked_lines as u8 });
                reusable.push(*self);
            } else {
                // Clear mark state.
                self.set_state(meta, BlockState::Unmarked);
            }
            // Update mark_histogram
            let old_count = mark_histogram[holes];
            mark_histogram.set(holes, old_count + marked_lines);
            // Record number of holes in block side metadata.
            self.set_holes(meta, holes);
            false
        }
    }
}

/// Two distinct blocks that the metadata covers have distinct entries in the block
/// tables, so writing the state or defrag byte of one leaves the other's as it was.
pub proof fn lemma_blocks_independent(meta: &ImmixMetadata, a: Block, b: Block)
    requires
        a.covered_by(meta),
        b.covered_by(meta),
        a != b,
    ensures
        meta.block_mark.index_of(a.start_spec()) != meta.block_mark.index_of(b.start_spec()),
        meta.block_defrag.index_of(a.start_spec()) != meta.block_defrag.index_of(b.start_spec()),
{
    let x = a.start_spec().value() as int;
    let y = b.start_spec().value() as int;
    assert(x != y) by {
        broadcast use Address::lemma_value_injective;
        if x == y {
            assert(a.start_spec() == b.start_spec());
            lemma_block_eq(a, b);
        }
    }
    let bm = meta.block_mark.base() as int;
    let bd = meta.block_defrag.base() as int;
    lemma_aligned_distinct_index(x, y, bm);
    lemma_aligned_distinct_index(x, y, bd);
}

/// Blocks with the same start are the same block.
proof fn lemma_block_eq(a: Block, b: Block)
    requires
        a.start_spec() == b.start_spec(),
    ensures
        a == b,
{
}

/// Distinct block-aligned addresses at or above `base` fall in distinct block-sized
/// regions counted from `base`.
proof fn lemma_aligned_distinct_index(x: int, y: int, base: int)
    requires
        x % (BLOCK_BYTES as int) == 0,
        y % (BLOCK_BYTES as int) == 0,
        x != y,
        base <= x,
        base <= y,
    ensures
        (x - base) / (BLOCK_BYTES as int) != (y - base) / (BLOCK_BYTES as int),
{
    let bb = BLOCK_BYTES as int;
    vstd::arithmetic::div_mod::lemma_fundamental_div_mod(x - base, bb);
    vstd::arithmetic::div_mod::lemma_fundamental_div_mod(y - base, bb);
    vstd::arithmetic::div_mod::lemma_fundamental_div_mod(x, bb);
    vstd::arithmetic::div_mod::lemma_fundamental_div_mod(y, bb);
    if (x - base) / bb == (y - base) / bb {
        // Then |x - y| < bb, but both are multiples of bb.
        assert(x - y < bb && y - x < bb) by (nonlinear_arith)
            requires
                x - base == bb * ((x - base) / bb) + (x - base) % bb,
                y - base == bb * ((y - base) / bb) + (y - base) % bb,
                0 <= (x - base) % bb < bb,
                0 <= (y - base) % bb < bb,
                (x - base) / bb == (y - base) / bb,
        ;
        assert(x == bb * (x / bb) && y == bb * (y / bb));
        assert(false) by (nonlinear_arith)
            requires
                x == bb * (x / bb),
                y == bb * (y / bb),
                x - y < bb,
                y - x < bb,
                x != y,
                bb > 0,
        ;
    }
}

/// After the defrag byte of a block is set, reading it back gives what was set.
pub proof fn lemma_defrag_read_back(meta0: &ImmixMetadata, meta1: &ImmixMetadata, b: Block, byte: u8)
    requires
        b.covered_by(meta0),
        meta1.block_defrag@ == meta0.block_defrag@.update(
            meta0.block_defrag.index_of(b.start_spec()),
            byte,
        ),
        meta1.block_defrag.base() == meta0.block_defrag.base(),
        meta1.block_defrag.region_bytes() == meta0.block_defrag.region_bytes(),
    ensures
        b.defrag_byte(meta1) == byte,
{
}

/// The regions of a block whose lines are not marked with `state`, as `(start, bytes)`
/// pairs in address order: one per unmarked line among the first lines of `s`.
pub open spec fn unmarked_line_regions(start: usize, s: Seq<u8>, state: u8) -> Seq<(usize, usize)>
    decreases s.len(),
{
    if s.len() == 0 {
        Seq::empty()
    } else {
        let prev = unmarked_line_regions(start, s.drop_last(), state);
        if s.last() != state {
            prev.push(((start + (s.len() - 1) * LINE_BYTES) as usize, LINE_BYTES))
        } else {
            prev
        }
    }
}

impl Block {
    /// The regions of this block that may hold young objects, whose valid-object bits
    /// are to be cleared, as `(start, bytes)` pairs.
    ///
    /// Without line marks the whole block is such a region when it is unmarked, and no
    /// part of it when it is marked. With line marks, each line not marked with the
    /// given state is such a region.
    pub fn clear_vo_bits_for_unmarked_regions(
        &self,
        meta: &ImmixMetadata,
        line_mark_state: Option<u8>,
    ) -> (r: Vec<(usize, usize)>)
        requires
            self.covered_by(meta),
            line_mark_state is None ==> (self.state(meta) == BlockState::Unmarked || self.state(
                meta,
            ) == BlockState::Marked),
        ensures
            line_mark_state is None ==> r@ == if self.state(meta) == BlockState::Unmarked {
                seq![(self.start_spec().value(), BLOCK_BYTES)]
            } else {
                Seq::empty()
            },
            line_mark_state matches Some(st) ==> r@ == unmarked_line_regions(
                self.start_spec().value(),
                self.line_marks(meta),
                st,
            ),
    {
        match line_mark_state {
            None => {
                let mut r: Vec<(usize, usize)> = Vec::new();
                match self.get_state(meta) {
                    BlockState::Unmarked => {
                        r.push((self.0.as_usize(), BLOCK_BYTES));
                    },
                    _ => {},
                }
                r
            },
            Some(state) => {
                let first = meta.line_mark.index(self.0);
                let ghost s = self.line_marks(meta);
                let mut r: Vec<(usize, usize)> = Vec::new();
                let mut j: usize = 0;
                while j < BLOCK_LINES
                    invariant
                        self.covered_by(meta),
                        first == self.first_line_index(meta),
                        s == self.line_marks(meta),
                        j <= BLOCK_LINES,
                        r@ == unmarked_line_regions(self.start_spec().value(), s.take(j as int), state),
                    decreases BLOCK_LINES - j,
                {
                    assert(s.take(j + 1).drop_last() =~= s.take(j as int));
                    if meta.line_mark.get(first + j) != state {
                        r.push((self.0.as_usize() + j * LINE_BYTES, LINE_BYTES));
                    }
                    j += 1;
                }
                assert(s.take(BLOCK_LINES as int) =~= s);
                r
            },
        }
    }
}

/// The region of line `i` counted from `start`, as a `(start, bytes)` pair.
pub open spec fn line_region(start: usize, i: int) -> (usize, usize) {
    ((start + i * LINE_BYTES) as usize, LINE_BYTES)
}

/// The regions listed for the lines of `s` not marked with `state` are exactly those
/// lines: line `i` is listed exactly when its mark byte differs from `state`, and
/// nothing else is listed.
pub proof fn lemma_unmarked_line_regions_members(start: usize, s: Seq<u8>, state: u8)
    requires
        start + s.len() * LINE_BYTES <= usize::MAX,
    ensures
        forall|i: int|
            0 <= i < s.len() ==> (#[trigger] unmarked_line_regions(start, s, state).contains(
                line_region(start, i),
            ) <==> s[i] != state),
        forall|r: (usize, usize)|
            #[trigger] unmarked_line_regions(start, s, state).contains(r) ==> exists|i: int|
                0 <= i < s.len() && s[i] != state && r == #[trigger] line_region(start, i),
    decreases s.len(),
{
    if s.len() > 0 {
        let n = s.len() as int;
        let t = s.drop_last();
        let prev = unmarked_line_regions(start, t, state);
        let res = unmarked_line_regions(start, s, state);
        lemma_unmarked_line_regions_members(start, t, state);
        let last = line_region(start, n - 1);
        assert(((start + (s.len() - 1) * LINE_BYTES) as usize, LINE_BYTES) == last);
        // The last line's region is not listed among the earlier lines.
        assert(!prev.contains(last)) by {
            if prev.contains(last) {
                let i = choose|i: int|
                    0 <= i < t.len() && t[i] != state && last == #[trigger] line_region(start, i);
                assert(start + i * LINE_BYTES < start + (n - 1) * LINE_BYTES);
            }
        }
        assert forall|i: int| 0 <= i < s.len() implies (#[trigger] res.contains(line_region(start, i))
            <==> s[i] != state) by {
            let ri = line_region(start, i);
            if i < n - 1 {
                assert(t[i] == s[i]);
                assert(ri != last) by {
                    assert(start + i * LINE_BYTES < start + (n - 1) * LINE_BYTES);
                }
                if s.last() != state {
                    assert(res == prev.push(last));
                    if prev.contains(ri) {
                        let k = choose|k: int| 0 <= k < prev.len() && prev[k] == ri;
                        assert(res[k] == ri);
                    }
                    if res.contains(ri) {
                        let k = choose|k: int| 0 <= k < res.len() && res[k] == ri;
                        assert(k < prev.len());
                        assert(prev[k] == ri);
                    }
                }
            } else {
                assert(i == n - 1);
                if s.last() != state {
                    assert(res == prev.push(last));
                    assert(res[prev.len() as int] == last);
                }
            }
        }
        assert forall|r: (usize, usize)| #[trigger] res.contains(r) implies exists|i: int|
            0 <= i < s.len() && s[i] != state && r == #[trigger] line_region(start, i) by {
            if s.last() != state {
                assert(res == prev.push(last));
                let k = choose|k: int| 0 <= k < res.len() && res[k] == r;
                if k < prev.len() {
                    assert(prev.contains(r));
                    let i = choose|i: int|
                        0 <= i < t.len() && t[i] != state && r == #[trigger] line_region(start, i);
                    assert(s[i] == t[i]);
                } else {
                    assert(r == last);
                    assert(s[n - 1] != state);
                }
            } else {
                let i = choose|i: int|
                    0 <= i < t.len() && t[i] != state && r == #[trigger] line_region(start, i);
                assert(s[i] == t[i]);
            }
        }
    }
}

impl Block {
    /// With line marks, a line of the block is among the regions whose valid-object bits
    /// are cleared exactly when its mark byte differs from the current line mark state,
    /// and every such region is one line of the block.
    pub proof fn lemma_clear_vo_regions_are_unmarked_lines(self, meta: &ImmixMetadata, st: u8)
        requires
            self.covered_by(meta),
        ensures
            forall|i: int|
                0 <= i < BLOCK_LINES ==> (#[trigger] unmarked_line_regions(
                    self.start_spec().value(),
                    self.line_marks(meta),
                    st,
                ).contains(line_region(self.start_spec().value(), i))
                    <==> meta.line_mark@[self.first_line_index(meta) + i] != st),
            forall|r: (usize, usize)|
                #[trigger] unmarked_line_regions(
                    self.start_spec().value(),
                    self.line_marks(meta),
                    st,
                ).contains(r) ==> exists|i: int|
                    0 <= i < BLOCK_LINES && meta.line_mark@[self.first_line_index(meta) + i] != st
                        && r == #[trigger] line_region(self.start_spec().value(), i),
    {
        let s = self.line_marks(meta);
        let start = self.start_spec().value();
        assert(s.len() == BLOCK_LINES);
        assert(start + s.len() * LINE_BYTES <= usize::MAX);
        lemma_unmarked_line_regions_members(start, s, st);
        assert forall|i: int| 0 <= i < BLOCK_LINES implies s[i] == meta.line_mark@[self.first_line_index(meta) + i] by {}
    }
}

/// A list of blocks that have free lines.
pub struct ReusableBlockPool {
    queue: Vec<Block>,
    num_workers: usize,
}

impl View for ReusableBlockPool {
    type V = Seq<Block>;

    closed spec fn view(&self) -> Seq<Block> {
        self.queue@
    }
}

impl ReusableBlockPool {
    /// The number of workers the pool was made for.
    pub closed spec fn workers(&self) -> usize {
        self.num_workers
    }

    /// Create empty block list
    pub fn new(num_workers: usize) -> (p: Self)
        ensures
            p@ == Seq::<Block>::empty(),
            p.workers() == num_workers,
    {
        Self { queue: Vec::new(), num_workers }
    }

    /// Get number of blocks in this list.
    pub fn len(&self) -> (n: usize)
        ensures
            n == self@.len(),
    {
        self.queue.len()
    }

    /// Add a block to the list.
    pub fn push(&mut self, block: Block)
        ensures
            final(self)@ == old(self)@.push(block),
            final(self).workers() == old(self).workers(),
    {
        self.queue.push(block);
    }

    /// Pop a block out of the list: the most recently added one.
    pub fn pop(&mut self) -> (r: Option<Block>)
        ensures
            old(self)@.len() == 0 ==> r is None && final(self)@ == old(self)@,
            old(self)@.len() > 0 ==> r == Some(old(self)@.last()) && final(self)@
                == old(self)@.drop_last(),
            final(self).workers() == old(self).workers(),
    {
        self.queue.pop()
    }

    /// Clear the list.
    pub fn reset(&mut self)
        ensures
            final(self)@ == Seq::<Block>::empty(),
            final(self).workers() == old(self).workers(),
    {
        self.queue = Vec::new();
    }

    /// All the blocks in the list, in the order they were added.
    pub fn iterate_blocks(&self) -> (r: Vec<Block>)
        ensures
            r@ == self@,
    {
        self.queue.clone()
    }

    /// Flush the block queue. The list keeps no per-worker buffers, so nothing changes.
    pub fn flush_all(&self) {
    }
}

} // verus!
