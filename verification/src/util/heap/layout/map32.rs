use vstd::prelude::*;

use super::map64::UNINITIALIZED_DESCRIPTOR;
use crate::util::address::Address;
use crate::util::heap::chunk_map::BYTES_IN_CHUNK;

verus! {

/// Whether the `n` units from `u` on are all free in `used`.
pub open spec fn run_free(used: Seq<bool>, u: int, n: int) -> bool {
    &&& 0 <= u
    &&& u + n <= used.len()
    &&& forall|k: int| u <= k < u + n ==> !#[trigger] used[k]
}

/// `used` with the units in `[u, u + n)` set to `value`.
pub open spec fn mark_units(used: Seq<bool>, u: int, n: int, value: bool) -> Seq<bool> {
    Seq::new(used.len(), |k: int| if u <= k < u + n { value } else { used[k] })
}

/// A free list of units: every unit is free or used, and each allocated region is
/// recorded by its size at its first unit. Allocation hands out the lowest run of free
/// units that is long enough.
pub struct UnitFreeList {
    used: Vec<bool>,
    sizes: Vec<usize>,
}

impl UnitFreeList {
    /// Which units are used.
    pub closed spec fn used_spec(&self) -> Seq<bool> {
        self.used@
    }

    /// The size of the region that starts at each unit (zero where none starts).
    pub closed spec fn sizes_spec(&self) -> Seq<usize> {
        self.sizes@
    }

    /// The number of units.
    pub open spec fn units(&self) -> nat {
        self.used_spec().len()
    }

    /// Both tables have one entry per unit, and every recorded region lies in the list.
    pub open spec fn wf(&self) -> bool {
        &&& self.sizes_spec().len() == self.used_spec().len()
        &&& forall|u: int|
            0 <= u < self.units() ==> u + #[trigger] self.sizes_spec()[u] <= self.units()
    }

    /// A list of `units` free units.
    pub fn new(units: usize) -> (l: Self)
        ensures
            l.wf(),
            l.used_spec() == Seq::new(units as nat, |_k: int| false),
            l.sizes_spec() == Seq::new(units as nat, |_k: int| 0usize),
    {
        let mut used: Vec<bool> = Vec::new();
        let mut sizes: Vec<usize> = Vec::new();
        let mut i: usize = 0;
        while i < units
            invariant
                i <= units,
                used@ == Seq::new(i as nat, |_k: int| false),
                sizes@ == Seq::new(i as nat, |_k: int| 0usize),
            decreases units - i,
        {
            used.push(false);
            sizes.push(0);
            i += 1;
        }
        Self { used, sizes }
    }

    /// Make the list a fresh one of `units` free units.
    pub fn resize_freelist(&mut self, units: usize)
        ensures
            final(self).wf(),
            final(self).used_spec() == Seq::new(units as nat, |_k: int| false),
            final(self).sizes_spec() == Seq::new(units as nat, |_k: int| 0usize),
    {
        *self = Self::new(units);
    }

    /// Whether the run of `n` units from `u` is free.
    fn is_run_free(&self, u: usize, n: usize) -> (r: bool)
        requires
            u + n <= self.used_spec().len(),
        ensures
            r == run_free(self.used_spec(), u as int, n as int),
    {
        let len = self.used.len();
        let end = u + n;
        let mut k: usize = u;
        while k < end
            invariant
                u <= k <= end,
                end == u + n,
                end <= self.used@.len(),
                forall|j: int| u <= j < k ==> !self.used@[j],
            decreases end - k,
        {
            if self.used[k] {
                return false;
            }
            k += 1;
        }
        true
    }

    /// Allocate a region of `n` units: the lowest run of `n` free units becomes used
    /// and is recorded as a region of size `n`. Gives the region's first unit, or
    /// nothing if no run is free.
    pub fn allocate(&mut self, n: usize) -> (r: Option<usize>)
        requires
            old(self).wf(),
            n > 0,
        ensures
            final(self).wf(),
            r matches Some(u) ==> {
                &&& run_free(old(self).used_spec(), u as int, n as int)
                &&& forall|v: int| 0 <= v < u ==> !run_free(old(self).used_spec(), v, n as int)
                &&& final(self).used_spec() == mark_units(old(self).used_spec(), u as int, n as int, true)
                &&& final(self).sizes_spec() == old(self).sizes_spec().update(u as int, n)
            },
            r is None ==> {
                &&& forall|v: int| !run_free(old(self).used_spec(), v, n as int)
                &&& final(self).used_spec() == old(self).used_spec()
                &&& final(self).sizes_spec() == old(self).sizes_spec()
            },
    {
        let len = self.used.len();
        if n > len {
            return None;
        }
        let mut u: usize = 0;
        while u <= len - n
            invariant
                len == self.used@.len(),
                self.sizes@.len() == len,
                self.used@ == old(self).used@,
                self.sizes@ == old(self).sizes@,
                n <= len,
                n > 0,
                old(self).wf(),
                u <= len - n + 1,
                forall|v: int| 0 <= v < u ==> !run_free(self.used@, v, n as int),
            decreases len - u,
        {
            if self.is_run_free(u, n) {
                let end = u + n;
                let mut k: usize = u;
                while k < end
                    invariant
                        u <= k <= end,
                        end == u + n,
                        end <= len,
                        n > 0,
                        old(self).wf(),
                        len == self.used@.len(),
                        self.sizes@.len() == len,
                        self.sizes@ == old(self).sizes@,
                        self.used@ == mark_units(old(self).used@, u as int, (k - u) as int, true),
                    decreases end - k,
                {
                    self.used.set(k, true);
                    assert(self.used@ =~= mark_units(old(self).used@, u as int, (k + 1 - u) as int, true));
                    k += 1;
                }
                self.sizes.set(u, n);
                return Some(u);
            }
            u += 1;
        }
        assert forall|v: int| !run_free(old(self).used@, v, n as int) by {
            if 0 <= v < u {
            }
        }
        None
    }

    /// Add `units` free units at the end of the list.
    pub fn grow_freelist(&mut self, units: usize)
        requires
            old(self).wf(),
        ensures
            final(self).wf(),
            final(self).used_spec() == old(self).used_spec() + Seq::new(units as nat, |_k: int| false),
            final(self).sizes_spec() == old(self).sizes_spec() + Seq::new(
                units as nat,
                |_k: int| 0usize,
            ),
    {
        let mut i: usize = 0;
        while i < units
            invariant
                i <= units,
                self.used@ == old(self).used@ + Seq::new(i as nat, |_k: int| false),
                self.sizes@ == old(self).sizes@ + Seq::new(i as nat, |_k: int| 0usize),
                old(self).wf(),
            decreases units - i,
        {
            self.used.push(false);
            self.sizes.push(0);
            assert(self.used@ =~= old(self).used@ + Seq::new((i + 1) as nat, |_k: int| false));
            assert(self.sizes@ =~= old(self).sizes@ + Seq::new((i + 1) as nat, |_k: int| 0usize));
            i += 1;
        }
        assert forall|u: int| 0 <= u < self.units() implies u + #[trigger] self.sizes_spec()[u]
            <= self.units() by {
            if u < old(self).units() {
                assert(self.sizes_spec()[u] == old(self).sizes_spec()[u]);
            }
        }
    }

    /// Allocate the region of `n` units that starts at unit `u`, which must be free.
    pub fn alloc_from_unit(&mut self, n: usize, u: usize)
        requires
            old(self).wf(),
            n > 0,
            run_free(old(self).used_spec(), u as int, n as int),
        ensures
            final(self).wf(),
            final(self).used_spec() == mark_units(old(self).used_spec(), u as int, n as int, true),
            final(self).sizes_spec() == old(self).sizes_spec().update(u as int, n),
    {
        let len = self.used.len();
        let end = u + n;
        let mut k: usize = u;
        while k < end
            invariant
                u <= k <= end,
                end == u + n,
                end <= len,
                n > 0,
                old(self).wf(),
                len == self.used@.len(),
                self.sizes@.len() == len,
                self.sizes@ == old(self).sizes@,
                self.used@ == mark_units(old(self).used@, u as int, (k - u) as int, true),
            decreases end - k,
        {
            self.used.set(k, true);
            assert(self.used@ =~= mark_units(old(self).used@, u as int, (k + 1 - u) as int, true));
            k += 1;
        }
        self.sizes.set(u, n);
    }

    /// Free the region that starts at unit `u`: its units become free and it is no
    /// longer recorded. Gives its size.
    pub fn free(&mut self, u: usize) -> (r: usize)
        requires
            old(self).wf(),
            u < old(self).units(),
            u + old(self).sizes_spec()[u as int] <= old(self).units(),
        ensures
            final(self).wf(),
            r == old(self).sizes_spec()[u as int],
            final(self).used_spec() == mark_units(old(self).used_spec(), u as int, r as int, false),
            final(self).sizes_spec() == old(self).sizes_spec().update(u as int, 0),
    {
        let len = self.used.len();
        let n = self.sizes[u];
        let end = u + n;
        let mut k: usize = u;
        while k < end
            invariant
                u <= k <= end,
                end == u + n,
                end <= self.used@.len(),
                self.sizes@.len() == self.used@.len(),
                self.used@.len() == old(self).used@.len(),
                self.sizes@ == old(self).sizes@,
                n == old(self).sizes@[u as int],
                self.used@ == mark_units(old(self).used@, u as int, (k - u) as int, false),
            decreases end - k,
        {
            self.used.set(k, false);
            assert(self.used@ =~= mark_units(old(self).used@, u as int, (k + 1 - u) as int, false));
            k += 1;
        }
        self.sizes.set(u, 0);
        n
    }

    /// The size of the region that starts at unit `u` (zero if none starts there).
    pub fn size(&self, u: usize) -> (r: usize)
        requires
            self.wf(),
            u < self.units(),
        ensures
            r == self.sizes_spec()[u as int],
    {
        self.sizes[u]
    }
}

/// The number of pages in a chunk.
pub const PAGES_IN_CHUNK: usize = 1024;

/// The chunk that address `a` lies in.
pub open spec fn chunk_of(a: usize) -> int {
    a as int / BYTES_IN_CHUNK as int
}

/// The number of chunk-sized steps that cover `extent` bytes.
pub open spec fn chunk_steps(extent: usize) -> int {
    (extent + BYTES_IN_CHUNK - 1) / BYTES_IN_CHUNK as int
}

/// Freeing a region right after allocating it gives the units back as they were: a free
/// run marked used and then free again is free.
pub proof fn lemma_free_after_allocate(used: Seq<bool>, u: int, n: int)
    requires
        run_free(used, u, n),
    ensures
        mark_units(mark_units(used, u, n, true), u, n, false) == used,
{
    assert(mark_units(mark_units(used, u, n, true), u, n, false) =~= used);
}

/// Whether page `p` is the first page of a chunk.
pub open spec fn first_page_of_chunk(p: int) -> bool {
    p % PAGES_IN_CHUNK as int == 0
}

/// `len` units of which exactly those below `c` are used.
pub open spec fn used_below(len: nat, c: int) -> Seq<bool> {
    Seq::new(len, |i: int| i < c)
}

/// When exactly the units below `c` are used, the lowest free run of `n` units starts
/// at `c`, and using it leaves exactly the units below `c + n` used.
proof fn lemma_prefix_run(len: nat, c: int, n: int)
    requires
        0 <= c,
        n > 0,
        c + n <= len,
    ensures
        run_free(used_below(len, c), c, n),
        forall|v: int| 0 <= v < c ==> !run_free(used_below(len, c), v, n),
        mark_units(used_below(len, c), c, n, true) == used_below(len, c + n),
{
    let used = used_below(len, c);
    assert forall|v: int| 0 <= v < c implies !run_free(used, v, n) by {
        assert(used[v]);
    }
    assert(mark_units(used, c, n, true) =~= used_below(len, c + n));
}

/// Whether every chunk in `[lo, hi)` is in the map and owned by no space.
pub open spec fn unowned_chunks(descriptors: Seq<usize>, lo: int, hi: int) -> bool {
    forall|i: int|
        lo <= i < hi ==> i < descriptors.len() && #[trigger] descriptors[i]
            == UNINITIALIZED_DESCRIPTOR
}

/// Moving `q` chunks up from `a` moves the chunk index up by `q`.
proof fn lemma_chunk_step(a: int, q: int)
    requires
        a >= 0,
        q >= 0,
    ensures
        (a + q * BYTES_IN_CHUNK) / BYTES_IN_CHUNK as int == a / BYTES_IN_CHUNK as int + q,
{
    let b = BYTES_IN_CHUNK as int;
    vstd::arithmetic::div_mod::lemma_fundamental_div_mod(a, b);
    assert(a + q * b == (a / b + q) * b + a % b) by (nonlinear_arith)
        requires
            a == b * (a / b) + a % b,
    ;
    vstd::arithmetic::div_mod::lemma_fundamental_div_mod_converse(a + q * b, b, a / b + q, a % b);
}

/// The map of a 32-bit address space, which is handed out chunk by chunk: the
/// descriptor of the space that owns each chunk, the region map of the chunks that are
/// free for discontiguous spaces, the global page map that those spaces' page lists
/// share, and the links that chain the regions of each discontiguous space.
pub struct Map32 {
    prev_link: Vec<usize>,
    next_link: Vec<usize>,
    region_map: UnitFreeList,
    global_page_map: UnitFreeList,
    shared_discontig_fl_count: usize,
    total_available_discontiguous_chunks: usize,
    finalized: bool,
    descriptor_map: Vec<usize>,
}

impl Map32 {
    /// The number of chunks of the address space.
    pub closed spec fn max_chunks(&self) -> nat {
        self.descriptor_map@.len()
    }

    /// The descriptor of the space that owns each chunk.
    pub closed spec fn descriptors(&self) -> Seq<usize> {
        self.descriptor_map@
    }

    /// For each chunk, the chunk of the previous region of its space (zero for none).
    pub closed spec fn prev_links(&self) -> Seq<usize> {
        self.prev_link@
    }

    /// For each chunk, the chunk of the next region of its space (zero for none).
    pub closed spec fn next_links(&self) -> Seq<usize> {
        self.next_link@
    }

    /// Which chunks the region map holds as used.
    pub closed spec fn region_used(&self) -> Seq<bool> {
        self.region_map.used_spec()
    }

    /// The size, in chunks, of the region that starts at each chunk (zero for none).
    pub closed spec fn region_sizes(&self) -> Seq<usize> {
        self.region_map.sizes_spec()
    }

    /// Which pages the global page map holds as used.
    pub closed spec fn page_used(&self) -> Seq<bool> {
        self.global_page_map.used_spec()
    }

    /// The size, in pages, of the region of the global page map that starts at each page.
    pub closed spec fn page_sizes(&self) -> Seq<usize> {
        self.global_page_map.sizes_spec()
    }

    /// The number of page lists created on the global page map.
    pub closed spec fn consumer_count(&self) -> usize {
        self.shared_discontig_fl_count
    }

    /// The number of chunks available to discontiguous spaces.
    pub closed spec fn available(&self) -> usize {
        self.total_available_discontiguous_chunks
    }

    /// Whether the map is finalized.
    pub closed spec fn finalized_spec(&self) -> bool {
        self.finalized
    }

    /// One entry per chunk in every table, links that stay among the chunks, and
    /// chunk addresses that fit in a word.
    pub closed spec fn wf(&self) -> bool {
        &&& self.prev_link@.len() == self.max_chunks()
        &&& self.next_link@.len() == self.max_chunks()
        &&& self.region_map.wf()
        &&& self.region_map.units() == self.max_chunks()
        &&& self.global_page_map.wf()
        &&& self.max_chunks() * BYTES_IN_CHUNK <= usize::MAX
        &&& forall|i: int|
            0 <= i < self.max_chunks() ==> #[trigger] self.prev_link@[i] < self.max_chunks()
                && self.next_link@[i] < self.max_chunks()
    }

    /// The map of an address space of `max_chunks` chunks: no chunk owned, every chunk
    /// free in the region map, a page map of one free page, and no links.
    pub fn new(max_chunks: usize) -> (m: Self)
        requires
            max_chunks * BYTES_IN_CHUNK <= usize::MAX,
        ensures
            m.wf(),
            m.max_chunks() == max_chunks,
            m.descriptors() == Seq::new(max_chunks as nat, |_i: int| UNINITIALIZED_DESCRIPTOR),
            m.prev_links() == Seq::new(max_chunks as nat, |_i: int| 0usize),
            m.next_links() == Seq::new(max_chunks as nat, |_i: int| 0usize),
            m.region_used() == Seq::new(max_chunks as nat, |_i: int| false),
            m.region_sizes() == Seq::new(max_chunks as nat, |_i: int| 0usize),
            m.page_used() == seq![false],
            m.consumer_count() == 0,
            m.available() == 0,
            !m.finalized_spec(),
    {
        let mut prev_link: Vec<usize> = Vec::new();
        let mut next_link: Vec<usize> = Vec::new();
        let mut descriptor_map: Vec<usize> = Vec::new();
        let mut i: usize = 0;
        while i < max_chunks
            invariant
                i <= max_chunks,
                prev_link@ == Seq::new(i as nat, |_i: int| 0usize),
                next_link@ == Seq::new(i as nat, |_i: int| 0usize),
                descriptor_map@ == Seq::new(i as nat, |_i: int| UNINITIALIZED_DESCRIPTOR),
            decreases max_chunks - i,
        {
            prev_link.push(0);
            next_link.push(0);
            descriptor_map.push(UNINITIALIZED_DESCRIPTOR);
            i += 1;
        }
        let m = Map32 {
            prev_link,
            next_link,
            region_map: UnitFreeList::new(max_chunks),
            global_page_map: UnitFreeList::new(1),
            shared_discontig_fl_count: 0,
            total_available_discontiguous_chunks: 0,
            finalized: false,
            descriptor_map,
        };
        assert(m.page_used() =~= seq![false]);
        m
    }

    /// Record that the `extent` bytes from `start` on belong to the space `descriptor`:
    /// each chunk they lie in gets the descriptor. No such chunk may belong to a space
    /// already.
    pub fn insert(&mut self, start: Address, extent: usize, descriptor: usize)
        requires
            old(self).wf(),
            start.value() + extent + BYTES_IN_CHUNK <= usize::MAX,
            unowned_chunks(
                old(self).descriptors(),
                chunk_of(start.value()),
                chunk_of(start.value()) + chunk_steps(extent),
            ),
        ensures
            final(self).wf(),
            final(self).descriptors() == Seq::new(
                old(self).max_chunks(),
                |i: int|
                    if chunk_of(start.value()) <= i < chunk_of(start.value()) + chunk_steps(extent) {
                        descriptor
                    } else {
                        old(self).descriptors()[i]
                    },
            ),
            final(self).prev_links() == old(self).prev_links(),
            final(self).next_links() == old(self).next_links(),
            final(self).region_used() == old(self).region_used(),
            final(self).region_sizes() == old(self).region_sizes(),
            final(self).page_used() == old(self).page_used(),
            final(self).page_sizes() == old(self).page_sizes(),
            final(self).consumer_count() == old(self).consumer_count(),
            final(self).available() == old(self).available(),
            final(self).finalized_spec() == old(self).finalized_spec(),
    {
        let ghost first = chunk_of(start.value());
        let ghost n = chunk_steps(extent);
        let mut e: usize = 0;
        assert(self.descriptor_map@ =~= Seq::new(
            old(self).max_chunks(),
            |i: int|
                if first <= i < first + e as int / BYTES_IN_CHUNK as int {
                    descriptor
                } else {
                    old(self).descriptors()[i]
                },
        ));
        while e < extent
            invariant
                e <= extent + BYTES_IN_CHUNK - 1,
                e % BYTES_IN_CHUNK == 0,
                first == start.value() as int / BYTES_IN_CHUNK as int,
                n == (extent + BYTES_IN_CHUNK - 1) / BYTES_IN_CHUNK as int,
                start.value() + extent + BYTES_IN_CHUNK <= usize::MAX,
                self.descriptor_map@.len() == old(self).descriptor_map@.len(),
                self.prev_link == old(self).prev_link,
                self.next_link == old(self).next_link,
                self.region_map == old(self).region_map,
                self.global_page_map == old(self).global_page_map,
                self.shared_discontig_fl_count == old(self).shared_discontig_fl_count,
                self.total_available_discontiguous_chunks == old(
                    self,
                ).total_available_discontiguous_chunks,
                self.finalized == old(self).finalized,
                unowned_chunks(old(self).descriptors(), first, first + n),
                e < extent ==> (e as int / BYTES_IN_CHUNK as int) < n,
                self.descriptor_map@ == Seq::new(
                    old(self).max_chunks(),
                    |i: int|
                        if first <= i < first + e as int / BYTES_IN_CHUNK as int {
                            descriptor
                        } else {
                            old(self).descriptors()[i]
                        },
                ),
            decreases extent + BYTES_IN_CHUNK - e,
        {
            let index = (start.as_usize() + e) / BYTES_IN_CHUNK;
            proof {
                let q = e as int / BYTES_IN_CHUNK as int;
                vstd::arithmetic::div_mod::lemma_fundamental_div_mod(e as int, BYTES_IN_CHUNK as int);
                assert(e == q * BYTES_IN_CHUNK);
                lemma_chunk_step(start.value() as int, q);
                assert(old(self).descriptors()[first + q] == UNINITIALIZED_DESCRIPTOR);
            }
            self.descriptor_map.set(index, descriptor);
            proof {
                let q = e as int / BYTES_IN_CHUNK as int;
                lemma_chunk_step(e as int, 1);
                assert((e + BYTES_IN_CHUNK) / BYTES_IN_CHUNK as int == q + 1);
                assert(self.descriptor_map@ =~= Seq::new(
                    old(self).max_chunks(),
                    |i: int|
                        if first <= i < first + (e + BYTES_IN_CHUNK) / BYTES_IN_CHUNK as int {
                            descriptor
                        } else {
                            old(self).descriptors()[i]
                        },
                ));
                if e + BYTES_IN_CHUNK < extent {
                    assert(((e + BYTES_IN_CHUNK) / BYTES_IN_CHUNK as int) < n) by {
                        vstd::arithmetic::div_mod::lemma_div_is_ordered(
                            e + BYTES_IN_CHUNK,
                            extent + BYTES_IN_CHUNK - 1,
                            BYTES_IN_CHUNK as int,
                        );
                    }
                }
            }
            e += BYTES_IN_CHUNK;
        }
        proof {
            assert(e as int / BYTES_IN_CHUNK as int == n);
        }
    }

    /// Set the descriptor of the `n` chunks from chunk `c` on.
    fn set_descriptors(&mut self, c: usize, n: usize, descriptor: usize)
        requires
            old(self).wf(),
            c + n <= old(self).max_chunks(),
        ensures
            final(self).wf(),
            final(self).descriptors() == Seq::new(
                old(self).max_chunks(),
                |i: int|
                    if c <= i < c + n {
                        descriptor
                    } else {
                        old(self).descriptors()[i]
                    },
            ),
            final(self).prev_link == old(self).prev_link,
            final(self).next_link == old(self).next_link,
            final(self).region_map == old(self).region_map,
            final(self).global_page_map == old(self).global_page_map,
            final(self).shared_discontig_fl_count == old(self).shared_discontig_fl_count,
            final(self).total_available_discontiguous_chunks == old(
                self,
            ).total_available_discontiguous_chunks,
            final(self).finalized == old(self).finalized,
    {
        let end = c + n;
        let mut k: usize = c;
        while k < end
            invariant
                c <= k <= end,
                end == c + n,
                end <= old(self).max_chunks(),
                self.descriptor_map@.len() == old(self).descriptor_map@.len(),
                self.prev_link == old(self).prev_link,
                self.next_link == old(self).next_link,
                self.region_map == old(self).region_map,
                self.global_page_map == old(self).global_page_map,
                self.shared_discontig_fl_count == old(self).shared_discontig_fl_count,
                self.total_available_discontiguous_chunks == old(
                    self,
                ).total_available_discontiguous_chunks,
                self.finalized == old(self).finalized,
                self.descriptor_map@ == Seq::new(
                    old(self).max_chunks(),
                    |i: int|
                        if c <= i < k {
                            descriptor
                        } else {
                            old(self).descriptors()[i]
                        },
                ),
            decreases end - k,
        {
            self.descriptor_map.set(k, descriptor);
            assert(self.descriptor_map@ =~= Seq::new(
                old(self).max_chunks(),
                |i: int|
                    if c <= i < k + 1 {
                        descriptor
                    } else {
                        old(self).descriptors()[i]
                    },
            ));
            k += 1;
        }
    }

    /// Allocate a region of `chunks` chunks for the space `descriptor`: the lowest run
    /// of that many free chunks in the region map becomes used, its chunks get the
    /// descriptor and leave the available ones, and if `head` is a region of the same
    /// space, the new region is linked before it. Gives the start of the region, or the
    /// zero address if no run is free. Chunk zero is never free: it holds the bottom of
    /// the address space.
    pub fn allocate_contiguous_chunks(
        &mut self,
        descriptor: usize,
        chunks: usize,
        head: Address,
    ) -> (r: Address)
        requires
            old(self).wf(),
            chunks > 0,
            chunks <= old(self).available(),
            old(self).max_chunks() > 0,
            old(self).region_used()[0],
            head.value() != 0 ==> chunk_of(head.value()) < old(self).max_chunks(),
        ensures
            final(self).wf(),
            final(self).max_chunks() == old(self).max_chunks(),
            r.value() == 0 ==> {
                &&& forall|v: int| !run_free(old(self).region_used(), v, chunks as int)
                &&& final(self).region_used() == old(self).region_used()
                &&& final(self).region_sizes() == old(self).region_sizes()
                &&& final(self).available() == old(self).available()
                &&& final(self).descriptors() == old(self).descriptors()
                &&& final(self).prev_links() == old(self).prev_links()
                &&& final(self).next_links() == old(self).next_links()
            },
            r.value() != 0 ==> {
                let c = chunk_of(r.value());
                &&& r.value() % BYTES_IN_CHUNK == 0
                &&& run_free(old(self).region_used(), c, chunks as int)
                &&& forall|v: int| 0 <= v < c ==> !run_free(old(self).region_used(), v, chunks as int)
                &&& final(self).region_used() == mark_units(old(self).region_used(), c, chunks as int, true)
                &&& final(self).region_sizes() == old(self).region_sizes().update(c, chunks)
                &&& final(self).available() == old(self).available() - chunks
                &&& final(self).descriptors() == Seq::new(
                    old(self).max_chunks(),
                    |i: int|
                        if c <= i < c + chunks {
                            descriptor
                        } else {
                            old(self).descriptors()[i]
                        },
                )
                &&& head.value() == 0 ==> final(self).next_links() == old(self).next_links()
                    && final(self).prev_links() == old(self).prev_links()
                &&& head.value() != 0 ==> final(self).next_links() == old(self).next_links().update(
                    c,
                    chunk_of(head.value()) as usize,
                ) && final(self).prev_links() == old(self).prev_links().update(
                    chunk_of(head.value()),
                    c as usize,
                )
            },
            final(self).page_used() == old(self).page_used(),
            final(self).page_sizes() == old(self).page_sizes(),
            final(self).consumer_count() == old(self).consumer_count(),
            final(self).finalized_spec() == old(self).finalized_spec(),
    {
        match self.region_map.allocate(chunks) {
            None => Address::zero(),
            Some(chunk) => {
                proof {
                    assert(chunk != 0) by {
                        if chunk == 0 {
                            assert(!old(self).region_map.used_spec()[0]);
                        }
                    }
                }
                self.total_available_discontiguous_chunks = self.total_available_discontiguous_chunks
                    - chunks;
                assert(self.region_map.used_spec().len() == old(self).region_map.used_spec().len());
                self.set_descriptors(chunk, chunks, descriptor);
                let ghost before = *self;
                if head.as_usize() != 0 {
                    let h = head.as_usize() / BYTES_IN_CHUNK;
                    self.next_link.set(chunk, h);
                    self.prev_link.set(h, chunk);
                    proof {
                        assert forall|i: int| 0 <= i < self.max_chunks() implies #[trigger] self.prev_link@[i]
                            < self.max_chunks() && self.next_link@[i] < self.max_chunks() by {
                            assert(before.prev_link@[i] < before.max_chunks());
                        }
                    }
                }
                proof {
                    assert(chunk * BYTES_IN_CHUNK <= self.max_chunks() * BYTES_IN_CHUNK) by (
                    nonlinear_arith)
                        requires
                            chunk < self.max_chunks(),
                    ;
                    vstd::arithmetic::div_mod::lemma_fundamental_div_mod_converse(
                        (chunk * BYTES_IN_CHUNK) as int,
                        BYTES_IN_CHUNK as int,
                        chunk as int,
                        0,
                    );
                }
                Address::from_usize(chunk * BYTES_IN_CHUNK)
            },
        }
    }

    /// The start of the next region of the space of the region that starts at `start`
    /// (the zero address if there is none).
    pub fn get_next_contiguous_region(&self, start: Address) -> (r: Address)
        requires
            self.wf(),
            chunk_of(start.value()) < self.max_chunks(),
        ensures
            ({
                let c = chunk_of(start.value());
                r.value() == if c == 0 || self.next_links()[c] == 0 {
                    0
                } else {
                    self.next_links()[c] * BYTES_IN_CHUNK
                }
            }),
    {
        let chunk = start.as_usize() / BYTES_IN_CHUNK;
        if chunk == 0 || self.next_link[chunk] == 0 {
            Address::zero()
        } else {
            let a = self.next_link[chunk];
            assert(self.prev_link@[chunk as int] < self.max_chunks());
            assert(a * BYTES_IN_CHUNK <= self.max_chunks() * BYTES_IN_CHUNK) by (nonlinear_arith)
                requires
                    a < self.max_chunks(),
            ;
            Address::from_usize(a * BYTES_IN_CHUNK)
        }
    }

    /// The number of chunks of the region that starts at `start` (zero if none does).
    pub fn get_contiguous_region_chunks(&self, start: Address) -> (r: usize)
        requires
            self.wf(),
            chunk_of(start.value()) < self.max_chunks(),
        ensures
            r == self.region_sizes()[chunk_of(start.value())],
    {
        self.region_map.size(start.as_usize() / BYTES_IN_CHUNK)
    }

    /// The number of bytes of the region that starts at `start` (zero if none does).
    pub fn get_contiguous_region_size(&self, start: Address) -> (r: usize)
        requires
            self.wf(),
            chunk_of(start.value()) < self.max_chunks(),
        ensures
            r == self.region_sizes()[chunk_of(start.value())] * BYTES_IN_CHUNK,
    {
        let chunks = self.get_contiguous_region_chunks(start);
        let ghost c = chunk_of(start.value());
        assert(chunks * BYTES_IN_CHUNK <= self.max_chunks() * BYTES_IN_CHUNK) by (nonlinear_arith)
            requires
                chunks <= self.max_chunks(),
        ;
        chunks * BYTES_IN_CHUNK
    }

    /// Free the region that starts at `start`: its chunks become free in the region map
    /// and available again, lose their descriptor, and the region leaves the chain of its
    /// space. Gives the number of chunks freed.
    pub fn free_contiguous_chunks(&mut self, start: Address) -> (r: usize)
        requires
            old(self).wf(),
            chunk_of(start.value()) < old(self).max_chunks(),
            old(self).available() + old(self).region_sizes()[chunk_of(start.value())]
                <= usize::MAX,
        ensures
            final(self).wf(),
            ({
                let c = chunk_of(start.value());
                let next = old(self).next_links()[c];
                let prev = old(self).prev_links()[c];
                &&& r == old(self).region_sizes()[c]
                &&& final(self).region_used() == mark_units(old(self).region_used(), c, r as int, false)
                &&& final(self).region_sizes() == old(self).region_sizes().update(c, 0)
                &&& final(self).available() == old(self).available() + r
                &&& final(self).descriptors() == Seq::new(
                    old(self).max_chunks(),
                    |i: int|
                        if c <= i < c + r {
                            UNINITIALIZED_DESCRIPTOR
                        } else {
                            old(self).descriptors()[i]
                        },
                )
                &&& final(self).prev_links() == (if next != 0 {
                    old(self).prev_links().update(next as int, prev)
                } else {
                    old(self).prev_links()
                }).update(c, 0)
                &&& final(self).next_links() == (if prev != 0 {
                    old(self).next_links().update(prev as int, next)
                } else {
                    old(self).next_links()
                }).update(c, 0)
            }),
            final(self).max_chunks() == old(self).max_chunks(),
            final(self).page_used() == old(self).page_used(),
            final(self).page_sizes() == old(self).page_sizes(),
            final(self).consumer_count() == old(self).consumer_count(),
            final(self).finalized_spec() == old(self).finalized_spec(),
    {
        let chunk = start.as_usize() / BYTES_IN_CHUNK;
        let chunks = self.region_map.free(chunk);
        self.total_available_discontiguous_chunks = self.total_available_discontiguous_chunks
            + chunks;
        let next = self.next_link[chunk];
        let prev = self.prev_link[chunk];
        if next != 0 {
            self.prev_link.set(next, prev);
        }
        if prev != 0 {
            self.next_link.set(prev, next);
        }
        self.prev_link.set(chunk, 0);
        self.next_link.set(chunk, 0);
        self.set_descriptors(chunk, chunks, UNINITIALIZED_DESCRIPTOR);
        chunks
    }

    /// Allocate the lowest free run of `n` units from `list`, where exactly the units
    /// below `c` are used: the run starts at `c`.
    fn allocate_after_prefix(list: &mut UnitFreeList, c: usize, n: usize)
        requires
            old(list).wf(),
            old(list).used_spec() == used_below(old(list).units(), c as int),
            n > 0,
            c + n <= old(list).units(),
        ensures
            final(list).wf(),
            final(list).used_spec() == used_below(old(list).units(), c + n),
            final(list).sizes_spec() == old(list).sizes_spec().update(c as int, n),
    {
        proof {
            lemma_prefix_run(old(list).units(), c as int, n as int);
        }
        let r = list.allocate(n);
        match r {
            Some(u) => {
                assert(u == c) by {
                    if u < c {
                        assert(!run_free(old(list).used_spec(), u as int, n as int));
                    }
                    if u > c {
                        assert(!run_free(old(list).used_spec(), c as int, n as int));
                    }
                }
            },
            None => {
                assert(!run_free(old(list).used_spec(), c as int, n as int));
            },
        }
    }

    /// Finalize the map of the static spaces, whose chunks run from the chunk of `from`
    /// to the chunk of `to`: those chunks become the ones available to discontiguous
    /// spaces. The region map blocks out the chunks below them as one region at chunk
    /// zero and those above them as one region, and leaves them free; the global page
    /// map gets one page per page of those chunks, handed out chunk by chunk. The
    /// region map must be fresh.
    pub fn finalize_static_space_map(&mut self, from: Address, to: Address)
        requires
            old(self).wf(),
            old(self).region_used() == Seq::new(old(self).max_chunks(), |_i: int| false),
            old(self).region_sizes() == Seq::new(old(self).max_chunks(), |_i: int| 0usize),
            0 < chunk_of(from.value()) <= chunk_of(to.value()),
            chunk_of(to.value()) + 1 < old(self).max_chunks(),
            (chunk_of(to.value()) - chunk_of(from.value()) + 1) * PAGES_IN_CHUNK <= usize::MAX,
            old(self).available() + (chunk_of(to.value()) - chunk_of(from.value()) + 1)
                <= usize::MAX,
        ensures
            final(self).wf(),
            final(self).finalized_spec(),
            final(self).max_chunks() == old(self).max_chunks(),
            ({
                let first = chunk_of(from.value());
                let last = chunk_of(to.value());
                let max = old(self).max_chunks();
                let pages = ((last - first + 1) * PAGES_IN_CHUNK) as nat;
                &&& final(self).region_used() == Seq::new(max, |i: int| !(first <= i <= last))
                &&& final(self).region_sizes() == Seq::new(
                    max,
                    |i: int|
                        if i == 0 {
                            first as usize
                        } else if i == last + 1 {
                            (max - last - 1) as usize
                        } else {
                            0usize
                        },
                )
                &&& final(self).page_used() == Seq::new(pages, |_p: int| true)
                &&& final(self).page_sizes() == Seq::new(
                    pages,
                    |p: int|
                        if first_page_of_chunk(p) {
                            PAGES_IN_CHUNK
                        } else {
                            0usize
                        },
                )
                &&& final(self).available() == old(self).available() + (last - first + 1)
            }),
            final(self).descriptors() == old(self).descriptors(),
            final(self).prev_links() == old(self).prev_links(),
            final(self).next_links() == old(self).next_links(),
            final(self).consumer_count() == old(self).consumer_count(),
    {
        let first = from.as_usize() / BYTES_IN_CHUNK;
        let last = to.as_usize() / BYTES_IN_CHUNK;
        let max = self.descriptor_map.len();
        let unavail_start = last + 1;
        let trailing = max - unavail_start;
        let pages = (1 + last - first) * PAGES_IN_CHUNK;
        self.global_page_map.resize_freelist(pages);
        // Block out the bottom of the address range.
        assert(self.region_map.used_spec() =~= used_below(max as nat, 0));
        Self::allocate_after_prefix(&mut self.region_map, 0, first);
        let ghost pages0 = self.global_page_map;
        let mut c: usize = first;
        while c <= last
            invariant
                0 < first <= c <= last + 1,
                last + 1 < max,
                self.global_page_map == pages0,
                self.descriptor_map == old(self).descriptor_map,
                self.prev_link == old(self).prev_link,
                self.next_link == old(self).next_link,
                self.shared_discontig_fl_count == old(self).shared_discontig_fl_count,
                self.total_available_discontiguous_chunks == old(
                    self,
                ).total_available_discontiguous_chunks,
                max == self.max_chunks(),
                self.region_map.wf(),
                self.region_map.units() == max,
                self.region_map.used_spec() == used_below(max as nat, c as int),
                self.region_map.sizes_spec() == Seq::new(
                    max as nat,
                    |i: int|
                        if i == 0 {
                            first as usize
                        } else if first <= i < c {
                            1usize
                        } else {
                            0usize
                        },
                ),
            decreases last + 1 - c,
        {
            let ghost s0 = self.region_map.sizes_spec();
            Self::allocate_after_prefix(&mut self.region_map, c, 1);
            assert(self.region_map.sizes_spec() =~= Seq::new(
                max as nat,
                |i: int|
                    if i == 0 {
                        first as usize
                    } else if first <= i < c + 1 {
                        1usize
                    } else {
                        0usize
                    },
            ));
            c += 1;
        }
        let ghost s1 = self.region_map.sizes_spec();
        Self::allocate_after_prefix(&mut self.region_map, unavail_start, trailing);
        assert(self.region_map.sizes_spec() == s1.update(last + 1, trailing));
        let ghost all_sizes = Seq::new(
            max as nat,
            |i: int|
                if i == 0 {
                    first as usize
                } else if i == last + 1 {
                    trailing
                } else if first <= i <= last {
                    1usize
                } else {
                    0usize
                },
        );
        assert(self.region_map.sizes_spec() =~= all_sizes);
        // Set up the global page map and place the chunks on the free list.
        let mut first_page: usize = 0;
        c = first;
        assert(self.global_page_map.used_spec() =~= used_below(pages as nat, 0));
        assert(self.global_page_map.sizes_spec() =~= Seq::new(
            pages as nat,
            |p: int|
                if p < 0 && first_page_of_chunk(p) {
                    PAGES_IN_CHUNK
                } else {
                    0usize
                },
        ));
        while c <= last
            invariant
                0 < first <= c <= last + 1,
                last + 1 < max,
                trailing == max - (last + 1),
                max == self.max_chunks(),
                first_page == (c - first) * PAGES_IN_CHUNK,
                pages == (1 + last - first) * PAGES_IN_CHUNK,
                self.total_available_discontiguous_chunks == old(
                    self,
                ).total_available_discontiguous_chunks + (c - first),
                old(self).available() + (last - first + 1) <= usize::MAX,
                self.region_map.wf(),
                self.region_map.units() == max,
                self.region_map.used_spec() == Seq::new(
                    max as nat,
                    |i: int| !(first <= i < c),
                ),
                self.region_map.sizes_spec() == Seq::new(
                    max as nat,
                    |i: int|
                        if i == 0 {
                            first as usize
                        } else if i == last + 1 {
                            trailing
                        } else if c <= i <= last {
                            1usize
                        } else {
                            0usize
                        },
                ),
                self.global_page_map.wf(),
                self.global_page_map.units() == pages,
                self.global_page_map.used_spec() == used_below(pages as nat, first_page as int),
                self.global_page_map.sizes_spec() == Seq::new(
                    pages as nat,
                    |p: int|
                        if p < first_page && first_page_of_chunk(p) {
                            PAGES_IN_CHUNK
                        } else {
                            0usize
                        },
                ),
                self.descriptor_map == old(self).descriptor_map,
                self.prev_link == old(self).prev_link,
                self.next_link == old(self).next_link,
                self.shared_discontig_fl_count == old(self).shared_discontig_fl_count,
            decreases last + 1 - c,
        {
            self.total_available_discontiguous_chunks = self.total_available_discontiguous_chunks
                + 1;
            let ghost u0 = self.region_map.used_spec();
            let freed = self.region_map.free(c);
            assert(freed == 1);
            assert(self.region_map.used_spec() =~= Seq::new(
                max as nat,
                |i: int| !(first <= i < c + 1),
            ));
            assert(self.region_map.sizes_spec() =~= Seq::new(
                max as nat,
                |i: int|
                    if i == 0 {
                        first as usize
                    } else if i == last + 1 {
                        trailing
                    } else if c + 1 <= i <= last {
                        1usize
                    } else {
                        0usize
                    },
            ));
            assert(first_page + PAGES_IN_CHUNK <= pages) by (nonlinear_arith)
                requires
                    first_page == (c - first) * PAGES_IN_CHUNK,
                    pages == (1 + last - first) * PAGES_IN_CHUNK,
                    c <= last,
            ;
            Self::allocate_after_prefix(&mut self.global_page_map, first_page, PAGES_IN_CHUNK);
            proof {
                assert((first_page + PAGES_IN_CHUNK) % PAGES_IN_CHUNK as int == first_page as int
                    % PAGES_IN_CHUNK as int) by {
                    vstd::arithmetic::div_mod::lemma_mod_add_multiples_vanish(
                        first_page as int,
                        PAGES_IN_CHUNK as int,
                    );
                }
                assert(first_page as int % PAGES_IN_CHUNK as int == 0) by {
                    vstd::arithmetic::div_mod::lemma_mod_multiples_basic(
                        (c - first) as int,
                        PAGES_IN_CHUNK as int,
                    );
                }
                assert forall|p: int| first_page < p < first_page + PAGES_IN_CHUNK implies !#[trigger] first_page_of_chunk(p) by {
                    vstd::arithmetic::div_mod::lemma_fundamental_div_mod(p, PAGES_IN_CHUNK as int);
                    vstd::arithmetic::div_mod::lemma_fundamental_div_mod_converse(
                        p,
                        PAGES_IN_CHUNK as int,
                        (c - first) as int,
                        p - first_page,
                    );
                }
                assert(self.global_page_map.sizes_spec() =~= Seq::new(
                    pages as nat,
                    |p: int|
                        if p < first_page + PAGES_IN_CHUNK && first_page_of_chunk(p) {
                            PAGES_IN_CHUNK
                        } else {
                            0usize
                        },
                ));
            }
            first_page = first_page + PAGES_IN_CHUNK;
            c += 1;
        }
        self.finalized = true;
        proof {
            assert(first_page == pages);
            assert(self.global_page_map.used_spec() =~= Seq::new(pages as nat, |_p: int| true));
            assert(self.global_page_map.sizes_spec() =~= Seq::new(
                pages as nat,
                |p: int|
                    if first_page_of_chunk(p) {
                        PAGES_IN_CHUNK
                    } else {
                        0usize
                    },
            ));
            assert(self.region_map.used_spec() =~= Seq::new(
                max as nat,
                |i: int| !(first <= i <= last),
            ));
            assert(self.region_map.sizes_spec() =~= Seq::new(
                max as nat,
                |i: int|
                    if i == 0 {
                        first as usize
                    } else if i == last + 1 {
                        (max - last - 1) as usize
                    } else {
                        0usize
                    },
            ));
        }
    }

    /// Create one more page list on the global page map; gives its ordinal among them.
    pub fn create_freelist(&mut self) -> (r: usize)
        requires
            old(self).consumer_count() < usize::MAX,
        ensures
            r == old(self).consumer_count() + 1,
            final(self).consumer_count() == r,
            final(self).wf() == old(self).wf(),
            final(self).max_chunks() == old(self).max_chunks(),
            final(self).descriptors() == old(self).descriptors(),
            final(self).region_used() == old(self).region_used(),
            final(self).region_sizes() == old(self).region_sizes(),
            final(self).page_used() == old(self).page_used(),
            final(self).page_sizes() == old(self).page_sizes(),
            final(self).available() == old(self).available(),
            final(self).prev_links() == old(self).prev_links(),
            final(self).next_links() == old(self).next_links(),
            final(self).finalized_spec() == old(self).finalized_spec(),
    {
        self.shared_discontig_fl_count = self.shared_discontig_fl_count + 1;
        self.shared_discontig_fl_count
    }

    /// The number of chunks available to discontiguous spaces.
    pub fn get_available_discontiguous_chunks(&self) -> (r: usize)
        ensures
            r == self.available(),
    {
        self.total_available_discontiguous_chunks
    }

    /// The number of page lists created on the global page map.
    pub fn get_chunk_consumer_count(&self) -> (r: usize)
        ensures
            r == self.consumer_count(),
    {
        self.shared_discontig_fl_count
    }

    /// Whether the map is finalized.
    pub fn is_finalized(&self) -> (r: bool)
        ensures
            r == self.finalized_spec(),
    {
        self.finalized
    }

    /// The descriptor of the space that owns the chunk of `address` (uninitialized for
    /// an address beyond the map).
    pub fn get_descriptor_for_address(&self, address: Address) -> (r: usize)
        ensures
            ({
                let i = address.value() as int / BYTES_IN_CHUNK as int;
                r == if (i as int) < self.max_chunks() {
                    self.descriptors()[i]
                } else {
                    UNINITIALIZED_DESCRIPTOR
                }
            }),
    {
        let index = address.as_usize() / BYTES_IN_CHUNK;
        if index < self.descriptor_map.len() {
            self.descriptor_map[index]
        } else {
            UNINITIALIZED_DESCRIPTOR
        }
    }
}

} // verus!
