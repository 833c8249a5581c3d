use vstd::prelude::*;

use crate::util::address::Address;
use crate::util::constants::BYTES_IN_ADDRESS;

verus! {

/// The alignment that malloc guarantees.
pub const MALLOC_ALIGNMENT: usize = 16;

/// How an allocation request is served by the C library.
#[derive(Clone, Copy, Debug, PartialEq, Eq, Structural)]
pub enum MallocRequest {
    /// `calloc(1, size)`: malloc's own alignment suffices.
    Calloc { size: usize },
    /// An aligned allocation of `size` bytes, zeroed.
    AlignAlloc { size: usize, align: usize },
    /// `calloc(1, actual_size)`, then the result is placed at `offset` modulo `align`
    /// inside it, with the original address stored in the word before the result.
    OffsetAlloc { actual_size: usize, align: usize, offset: usize },
}

/// The number of bytes to allocate for an offset allocation of `size` bytes: room for
/// the alignment and for the word that keeps the original address.
pub open spec fn offset_alloc_size(size: usize, align: usize) -> int {
    size + align + BYTES_IN_ADDRESS
}

/// How to allocate `size` bytes, which are aligned to `align` at `offset`; also
/// whether it is an offset allocation. Malloc returns 16-byte aligned addresses, so an
/// alignment up to 16 with no offset needs nothing more.
pub fn alloc_request(size: usize, align: usize, offset: usize) -> (r: (MallocRequest, bool))
    requires
        offset != 0 ==> offset_alloc_size(size, align) <= usize::MAX,
    ensures
        align <= MALLOC_ALIGNMENT && offset == 0 ==> r == (MallocRequest::Calloc { size }, false),
        align > MALLOC_ALIGNMENT && offset == 0 ==> r == (MallocRequest::AlignAlloc { size, align }, false),
        offset != 0 ==> r == (
            MallocRequest::OffsetAlloc {
                actual_size: offset_alloc_size(size, align) as usize,
                align,
                offset,
            },
            true,
        ),
{
    if align <= MALLOC_ALIGNMENT && offset == 0 {
        (MallocRequest::Calloc { size }, false)
    } else if align > MALLOC_ALIGNMENT && offset == 0 {
        (MallocRequest::AlignAlloc { size, align }, false)
    } else {
        (MallocRequest::OffsetAlloc { actual_size: size + align + BYTES_IN_ADDRESS, align, offset }, true)
    }
}

/// The least address not below `region` at which an object of alignment `align` is
/// aligned at `offset`.
pub open spec fn aligned_at(region: int, align: int, offset: int) -> int {
    region + (align - (region + offset) % align) % align
}

/// The address just above `region` (possibly `region` itself) at which an object of
/// alignment `align` is aligned at `offset`.
pub fn align_allocation_no_fill(region: Address, align: usize, offset: usize) -> (r: Address)
    requires
        align > 0,
        region.value() + align <= usize::MAX,
    ensures
        region.value() <= r.value() < region.value() + align,
        (r.value() + offset) % (align as int) == 0,
        r.value() == aligned_at(region.value() as int, align as int, offset as int),
{
    let a = region.as_usize();
    let x = a % align;
    let y = offset % align;
    let m = if x >= align - y {
        x - (align - y)
    } else {
        x + y
    };
    proof {
        vstd::arithmetic::div_mod::lemma_add_mod_noop(x as int, y as int, align as int);
        vstd::arithmetic::div_mod::lemma_mod_twice(a as int, align as int);
        vstd::arithmetic::div_mod::lemma_mod_twice(offset as int, align as int);
        if x >= align - y {
            vstd::arithmetic::div_mod::lemma_mod_sub_multiples_vanish((x + y) as int, align as int);
            vstd::arithmetic::div_mod::lemma_small_mod(m as nat, align as nat);
        } else {
            vstd::arithmetic::div_mod::lemma_small_mod(m as nat, align as nat);
        }
        assert(m == (x + y) % (align as int));
    }
    let delta = if m == 0 {
        0
    } else {
        align - m
    };
    proof {
        let ai = a as int;
        let al = align as int;
        let oi = offset as int;
        vstd::arithmetic::div_mod::lemma_add_mod_noop(ai, oi, al);
        assert(m == (ai + oi) % al);
        vstd::arithmetic::div_mod::lemma_fundamental_div_mod(ai + oi, al);
        if m != 0 {
            vstd::arithmetic::div_mod::lemma_small_mod((al - m) as nat, al as nat);
            assert(ai + delta + oi == ((ai + oi) / al + 1) * al) by (nonlinear_arith)
                requires
                    ai + oi == al * ((ai + oi) / al) + m,
                    delta == al - m,
            ;
            vstd::arithmetic::div_mod::lemma_mod_multiples_basic((ai + oi) / al + 1, al);
        } else {
            assert(ai + oi == ((ai + oi) / al) * al);
            vstd::arithmetic::div_mod::lemma_mod_multiples_basic((ai + oi) / al, al);
            vstd::arithmetic::div_mod::lemma_mod_self_0(al);
        }
    }
    region.add(delta)
}

/// Where an offset allocation is placed in the block `address` that `calloc` returned
/// for it: the first address aligned at `offset`, moved up by one alignment if the word
/// below it would not lie in the block. For alignments of at least a word, the word
/// that keeps `address` then lies in the block. A failed `calloc` (the zero address)
/// gives the zero address back.
pub fn align_offset_alloc(address: Address, size: usize, align: usize, offset: usize) -> (r: Address)
    requires
        align > 0,
        address.value() + offset_alloc_size(size, align) <= usize::MAX,
    ensures
        address.value() == 0 ==> r.value() == 0,
        address.value() != 0 ==> ({
            let first = aligned_at(address.value() as int, align as int, (offset % align) as int);
            r.value() == if first - address.value() < BYTES_IN_ADDRESS {
                first + align
            } else {
                first
            }
        }),
        address.value() != 0 ==> (r.value() + offset) % (align as int) == 0,
        address.value() != 0 && align >= BYTES_IN_ADDRESS ==> r.value() >= address.value()
            + BYTES_IN_ADDRESS,
        address.value() != 0 ==> r.value() + size <= address.value() + offset_alloc_size(size, align),
{
    if address.is_zero() {
        return address;
    }
    let mod_offset = offset % align;
    let mut result = align_allocation_no_fill(address, align, mod_offset);
    proof {
        vstd::arithmetic::div_mod::lemma_add_mod_noop(result.value() as int, offset as int, align as int);
        vstd::arithmetic::div_mod::lemma_add_mod_noop(result.value() as int, mod_offset as int, align as int);
        vstd::arithmetic::div_mod::lemma_mod_twice(offset as int, align as int);
    }
    if result.as_usize() - address.as_usize() < BYTES_IN_ADDRESS {
        proof {
            vstd::arithmetic::div_mod::lemma_mod_add_multiples_vanish(
                (result.value() + offset) as int,
                align as int,
            );
        }
        result = result.add(align);
    }
    result
}

/// The address of the word that keeps the original address of an offset allocation.
pub fn offset_header(address: Address) -> (r: Address)
    requires
        address.value() >= BYTES_IN_ADDRESS,
    ensures
        r.value() == address.value() - BYTES_IN_ADDRESS,
{
    address.sub(BYTES_IN_ADDRESS)
}

/// Which address to ask malloc for the usable size of an allocation.
#[derive(Clone, Copy, Debug, PartialEq, Eq, Structural)]
pub enum UsableSizeQuery {
    /// The allocation is malloc's own: ask about this address.
    Direct(Address),
    /// The allocation is an offset allocation: ask about the address stored in the
    /// word at this address.
    ThroughHeader(Address),
}

/// How to find the malloc usable size of `address`; `is_offset_malloc` tells whether
/// it is an offset allocation.
pub fn get_malloc_usable_size(address: Address, is_offset_malloc: bool) -> (r: UsableSizeQuery)
    requires
        is_offset_malloc ==> address.value() >= BYTES_IN_ADDRESS,
    ensures
        !is_offset_malloc ==> r == UsableSizeQuery::Direct(address),
        is_offset_malloc ==> (r matches UsableSizeQuery::ThroughHeader(h) && h.value()
            == address.value() - BYTES_IN_ADDRESS),
{
    if is_offset_malloc {
        UsableSizeQuery::ThroughHeader(offset_header(address))
    } else {
        UsableSizeQuery::Direct(address)
    }
}

} // verus!
