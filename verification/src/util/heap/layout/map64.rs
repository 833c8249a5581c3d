use vstd::prelude::*;

use crate::util::address::Address;
use super::map32::{first_page_of_chunk, UnitFreeList, PAGES_IN_CHUNK};
use crate::util::constants::BYTES_IN_PAGE;
use crate::util::heap::chunk_map::BYTES_IN_CHUNK;

verus! {

/// The number of spaces that the address space is divided into.
pub const MAX_SPACES: usize = 16;

/// The raw value of an uninitialized space descriptor.
pub const UNINITIALIZED_DESCRIPTOR: usize = 0;

/// The layout of the virtual address space on 64-bit machines: it is divided into
/// `MAX_SPACES` spaces of `space_size` bytes each, and the heap ends at `heap_end`.
#[derive(Clone, Copy, Debug)]
pub struct VMLayout {
    /// The bytes in one space (a power of two).
    pub space_size: usize,
    /// The last address of the heap.
    pub heap_end: usize,
}

impl VMLayout {
    /// The layout describes spaces that all fit in the address space.
    pub open spec fn wf(self) -> bool {
        &&& self.space_size > 0
        &&& MAX_SPACES * self.space_size <= usize::MAX
    }
}

/// The index of the space that contains `addr`, if `addr` is not above the heap.
pub open spec fn space_index_spec(layout: VMLayout, addr: usize) -> Option<usize> {
    if addr > layout.heap_end {
        None
    } else {
        Some((addr / layout.space_size) as usize)
    }
}

/// Whether `base` is the start of a space.
pub open spec fn is_space_start_spec(layout: VMLayout, base: usize) -> bool {
    base % layout.space_size == 0 && base / layout.space_size < MAX_SPACES
}

/// The map of the 64-bit address space: for each space, its descriptor, the base of its
/// usable memory, and its high water mark (the end of the chunks handed out so far).
pub struct Map64 {
    layout: VMLayout,
    finalized: bool,
    descriptor_map: Vec<usize>,
    base_address: Vec<usize>,
    high_water: Vec<usize>,
}

impl Map64 {
    /// The layout of the address space.
    pub closed spec fn layout_spec(&self) -> VMLayout {
        self.layout
    }

    /// Whether the space map is finalized.
    pub closed spec fn finalized_spec(&self) -> bool {
        self.finalized
    }

    /// The descriptor of each space.
    pub closed spec fn descriptors(&self) -> Seq<usize> {
        self.descriptor_map@
    }

    /// The base of the usable memory of each space.
    pub closed spec fn bases(&self) -> Seq<usize> {
        self.base_address@
    }

    /// The high water mark of each space.
    pub closed spec fn high_waters(&self) -> Seq<usize> {
        self.high_water@
    }

    /// The map has one entry per space in each table.
    pub open spec fn wf(&self) -> bool {
        &&& self.layout_spec().wf()
        &&& self.descriptors().len() == MAX_SPACES
        &&& self.bases().len() == MAX_SPACES
        &&& self.high_waters().len() == MAX_SPACES
    }

    /// A fresh map: no space has a descriptor, and each space's base and high water
    /// mark are the start of the space.
    pub fn new(layout: VMLayout) -> (m: Self)
        requires
            layout.wf(),
        ensures
            m.wf(),
            m.layout_spec() == layout,
            !m.finalized_spec(),
            forall|i: int|
                0 <= i < MAX_SPACES ==> #[trigger] m.descriptors()[i] == UNINITIALIZED_DESCRIPTOR
                    && m.bases()[i] == i * layout.space_size && m.high_waters()[i] == i
                    * layout.space_size,
    {
        let mut descriptor_map: Vec<usize> = Vec::new();
        let mut base_address: Vec<usize> = Vec::new();
        let mut high_water: Vec<usize> = Vec::new();
        let mut i: usize = 0;
        while i < MAX_SPACES
            invariant
                layout.wf(),
                i <= MAX_SPACES,
                descriptor_map@.len() == i,
                base_address@.len() == i,
                high_water@.len() == i,
                forall|j: int|
                    0 <= j < i ==> #[trigger] descriptor_map@[j] == UNINITIALIZED_DESCRIPTOR
                        && base_address@[j] == j * layout.space_size && high_water@[j] == j
                        * layout.space_size,
            decreases MAX_SPACES - i,
        {
            assert(i * layout.space_size <= MAX_SPACES * layout.space_size) by (nonlinear_arith)
                requires
                    i < MAX_SPACES,
            ;
            let start = i * layout.space_size;
            let ghost d0 = descriptor_map@;
            let ghost b0 = base_address@;
            let ghost h0 = high_water@;
            descriptor_map.push(UNINITIALIZED_DESCRIPTOR);
            base_address.push(start);
            high_water.push(start);
            assert forall|j: int| 0 <= j < i + 1 implies #[trigger] descriptor_map@[j]
                == UNINITIALIZED_DESCRIPTOR && base_address@[j] == j * layout.space_size
                && high_water@[j] == j * layout.space_size by {
                if j < i {
                    assert(descriptor_map@[j] == d0[j]);
                    assert(base_address@[j] == b0[j]);
                    assert(high_water@[j] == h0[j]);
                }
            }
            i += 1;
        }
        Self { layout, descriptor_map, base_address, high_water, finalized: false }
    }

    /// The index of the space that contains `addr`, if `addr` is not above the heap.
    pub fn space_index(&self, addr: Address) -> (r: Option<usize>)
        requires
            self.wf(),
        ensures
            r == space_index_spec(self.layout_spec(), addr.value()),
    {
        if addr.as_usize() > self.layout.heap_end {
            return None;
        }
        Some(addr.as_usize() / self.layout.space_size)
    }

    /// Whether `base` is the start of a space.
    pub fn is_space_start(&self, base: Address) -> (r: bool)
        requires
            self.wf(),
        ensures
            r == is_space_start_spec(self.layout_spec(), base.value()),
    {
        base.as_usize() % self.layout.space_size == 0 && base.as_usize() / self.layout.space_size
            < MAX_SPACES
    }

    /// Record the descriptor of the space that starts at `start`.
    pub fn insert(&mut self, start: Address, extent: usize, descriptor: usize)
        requires
            old(self).wf(),
            is_space_start_spec(old(self).layout_spec(), start.value()),
            start.value() <= old(self).layout_spec().heap_end,
            extent <= old(self).layout_spec().space_size,
        ensures
            final(self).wf(),
            final(self).descriptors() == old(self).descriptors().update(
                (start.value() / old(self).layout_spec().space_size) as int,
                descriptor,
            ),
            final(self).bases() == old(self).bases(),
            final(self).high_waters() == old(self).high_waters(),
            final(self).layout_spec() == old(self).layout_spec(),
            final(self).finalized_spec() == old(self).finalized_spec(),
    {
        let index = start.as_usize() / self.layout.space_size;
        self.descriptor_map.set(index, descriptor);
    }

    /// Hand out `chunks` contiguous chunks of the space with the given index: they start
    /// at the space's high water mark, which moves up by their size (wrapping around
    /// on overflow, as an atomic add does). If the space keeps a page list, the list
    /// grows by the pages of the new chunks, each chunk's pages becoming one used
    /// region; the list must cover exactly the space's pages below the high water mark.
    pub fn allocate_contiguous_chunks(
        &mut self,
        index: usize,
        chunks: usize,
        freelist: &mut Option<UnitFreeList>,
    ) -> (r: Address)
        requires
            old(self).wf(),
            index < MAX_SPACES,
            chunks * BYTES_IN_CHUNK <= usize::MAX,
            *old(freelist) matches Some(l) ==> {
                let hw = old(self).high_waters()[index as int];
                let base = old(self).bases()[index as int];
                &&& l.wf()
                &&& base <= hw
                &&& (hw - base) % BYTES_IN_PAGE as int == 0
                &&& l.units() == (hw - base) / BYTES_IN_PAGE as int
                &&& l.units() + chunks * PAGES_IN_CHUNK <= usize::MAX
            },
        ensures
            final(self).wf(),
            r.value() == old(self).high_waters()[index as int],
            final(self).high_waters() == old(self).high_waters().update(
                index as int,
                vstd::wrapping::usize_specs::wrapping_add(
                    old(self).high_waters()[index as int],
                    (chunks * BYTES_IN_CHUNK) as usize,
                ),
            ),
            final(self).descriptors() == old(self).descriptors(),
            final(self).bases() == old(self).bases(),
            final(self).layout_spec() == old(self).layout_spec(),
            final(self).finalized_spec() == old(self).finalized_spec(),
            *old(freelist) is None ==> *final(freelist) is None,
            *old(freelist) matches Some(l0) ==> (*final(freelist) matches Some(l1) && l1.wf()
                && l1.used_spec() == l0.used_spec() + Seq::new(
                (chunks * PAGES_IN_CHUNK) as nat,
                |_p: int| true,
            ) && l1.sizes_spec() == l0.sizes_spec() + Seq::new(
                (chunks * PAGES_IN_CHUNK) as nat,
                |p: int|
                    if first_page_of_chunk(p) {
                        PAGES_IN_CHUNK
                    } else {
                        0usize
                    },
            )),
    {
        let extent = chunks * BYTES_IN_CHUNK;
        let rtn_usize = self.high_water[index];
        self.high_water.set(index, rtn_usize.wrapping_add(extent));
        match freelist {
            Some(list) => {
                let ghost l0 = *list;
                let base = self.base_address[index];
                let base_page = (rtn_usize - base) / BYTES_IN_PAGE;
                assert(chunks * PAGES_IN_CHUNK <= chunks * BYTES_IN_CHUNK) by (nonlinear_arith);
                let pages = chunks * PAGES_IN_CHUNK;
                list.grow_freelist(pages);
                let mut k: usize = 0;
                assert(list.used_spec() =~= l0.used_spec() + Seq::new(
                    pages as nat,
                    |p: int| p < 0,
                ));
                assert(list.sizes_spec() =~= l0.sizes_spec() + Seq::new(
                    pages as nat,
                    |p: int|
                        if p < 0 && first_page_of_chunk(p) {
                            PAGES_IN_CHUNK
                        } else {
                            0usize
                        },
                ));
                while k < chunks
                    invariant
                        k <= chunks,
                        pages == chunks * PAGES_IN_CHUNK,
                        base_page == l0.units(),
                        base_page + pages <= usize::MAX,
                        list.wf(),
                        list.used_spec() == l0.used_spec() + Seq::new(
                            pages as nat,
                            |p: int| p < k * PAGES_IN_CHUNK,
                        ),
                        list.sizes_spec() == l0.sizes_spec() + Seq::new(
                            pages as nat,
                            |p: int|
                                if p < k * PAGES_IN_CHUNK && first_page_of_chunk(p) {
                                    PAGES_IN_CHUNK
                                } else {
                                    0usize
                                },
                        ),
                    decreases chunks - k,
                {
                    assert(k * PAGES_IN_CHUNK + PAGES_IN_CHUNK <= pages) by (nonlinear_arith)
                        requires
                            k < chunks,
                            pages == chunks * PAGES_IN_CHUNK,
                    ;
                    let unit = base_page + k * PAGES_IN_CHUNK;
                    let ghost used0 = list.used_spec();
                    let ghost sizes0 = list.sizes_spec();
                    list.alloc_from_unit(PAGES_IN_CHUNK, unit);
                    proof {
                        let kp = k * PAGES_IN_CHUNK;
                        assert(kp % PAGES_IN_CHUNK as int == 0) by {
                            vstd::arithmetic::div_mod::lemma_mod_multiples_basic(
                                k as int,
                                PAGES_IN_CHUNK as int,
                            );
                        }
                        assert forall|p: int| kp < p < kp + PAGES_IN_CHUNK implies !#[trigger] first_page_of_chunk(p) by {
                            vstd::arithmetic::div_mod::lemma_fundamental_div_mod_converse(
                                p,
                                PAGES_IN_CHUNK as int,
                                k as int,
                                p - kp,
                            );
                        }
                        assert(list.used_spec() =~= l0.used_spec() + Seq::new(
                            pages as nat,
                            |p: int| p < (k + 1) * PAGES_IN_CHUNK,
                        ));
                        assert(list.sizes_spec() =~= l0.sizes_spec() + Seq::new(
                            pages as nat,
                            |p: int|
                                if p < (k + 1) * PAGES_IN_CHUNK && first_page_of_chunk(p) {
                                    PAGES_IN_CHUNK
                                } else {
                                    0usize
                                },
                        ));
                    }
                    k += 1;
                }
                assert(list.used_spec() =~= l0.used_spec() + Seq::new(pages as nat, |_p: int| true));
                assert(list.sizes_spec() =~= l0.sizes_spec() + Seq::new(
                    pages as nat,
                    |p: int|
                        if first_page_of_chunk(p) {
                            PAGES_IN_CHUNK
                        } else {
                            0usize
                        },
                ));
            },
            None => {},
        }
        Address::from_usize(rtn_usize)
    }

    /// Mark the space map as finalized.
    pub fn finalize_static_space_map(&mut self)
        ensures
            final(self).finalized_spec(),
            final(self).descriptors() == old(self).descriptors(),
            final(self).bases() == old(self).bases(),
            final(self).high_waters() == old(self).high_waters(),
            final(self).layout_spec() == old(self).layout_spec(),
    {
        self.finalized = true;
    }

    /// Whether the space map is finalized.
    pub fn is_finalized(&self) -> (r: bool)
        ensures
            r == self.finalized_spec(),
    {
        self.finalized
    }

    /// The descriptor of the space that contains `address`, or the uninitialized
    /// descriptor for an address above the heap.
    pub fn get_descriptor_for_address(&self, address: Address) -> (r: usize)
        requires
            self.wf(),
            address.value() <= self.layout_spec().heap_end ==> address.value()
                / self.layout_spec().space_size < MAX_SPACES,
        ensures
            r == match space_index_spec(self.layout_spec(), address.value()) {
                Some(i) => self.descriptors()[i as int],
                None => UNINITIALIZED_DESCRIPTOR,
            },
    {
        match self.space_index(address) {
            Some(index) => self.descriptor_map[index],
            None => UNINITIALIZED_DESCRIPTOR,
        }
    }
}

/// Chunks handed out one after the other from a space are disjoint and in address
/// order: the second allocation starts where the first one ends.
pub proof fn lemma_contiguous_allocations(m0: Map64, m1: Map64, index: usize, chunks: usize)
    requires
        m0.wf(),
        index < MAX_SPACES,
        m0.high_waters()[index as int] + chunks * BYTES_IN_CHUNK <= usize::MAX,
        m1.high_waters() == m0.high_waters().update(
            index as int,
            vstd::wrapping::usize_specs::wrapping_add(
                m0.high_waters()[index as int],
                (chunks * BYTES_IN_CHUNK) as usize,
            ),
        ),
    ensures
        m1.high_waters()[index as int] == m0.high_waters()[index as int] + chunks * BYTES_IN_CHUNK,
{
}

} // verus!
