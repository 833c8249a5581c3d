use vstd::prelude::*;

use crate::util::address::Address;

verus! {

/// A side metadata table: one entry of type `T` for each region of `region_bytes`
/// bytes of the heap, starting at the data address `base`.
///
/// The entry for a data address `a` is the one at index `(a - base) / region_bytes`.
pub struct SideTable<T> {
    base: usize,
    region_bytes: usize,
    entries: Vec<T>,
}

impl<T> View for SideTable<T> {
    type V = Seq<T>;

    closed spec fn view(&self) -> Seq<T> {
        self.entries@
    }
}

impl<T> SideTable<T> {
    /// Every entry describes a region of at least one byte, and an index of `usize`
    /// reaches every entry.
    #[verifier::type_invariant]
    closed spec fn regions_nonempty(self) -> bool {
        &&& self.region_bytes > 0
        &&& self.entries@.len() <= usize::MAX
    }
}

impl<T: Copy> SideTable<T> {
    /// The first data address that the table covers.
    pub closed spec fn base(&self) -> usize {
        self.base
    }

    /// The number of data bytes that one entry describes.
    pub closed spec fn region_bytes(&self) -> usize {
        self.region_bytes
    }

    /// The well-formedness of the table.
    pub closed spec fn wf(&self) -> bool {
        &&& self.region_bytes > 0
        &&& self.entries@.len() <= usize::MAX
    }

    /// The index of the entry describing the data address with value `a`.
    pub open spec fn index_at(&self, a: int) -> int {
        (a - self.base()) / (self.region_bytes() as int)
    }

    /// The index of the entry describing data address `addr`.
    pub open spec fn index_of(&self, addr: Address) -> int {
        self.index_at(addr.value() as int)
    }

    /// Whether the table holds an entry for the data address with value `a`.
    pub open spec fn covers_at(&self, a: int) -> bool {
        &&& self.wf()
        &&& self.base() <= a
        &&& 0 <= self.index_at(a) < self@.len()
        &&& self@.len() <= usize::MAX
    }

    /// Whether the table holds an entry for data address `addr`.
    pub open spec fn covers(&self, addr: Address) -> bool {
        self.covers_at(addr.value() as int)
    }

    /// Whether the table holds entries for every data address in `[lo, hi)`.
    pub open spec fn covers_range(&self, lo: int, hi: int) -> bool {
        &&& self.wf()
        &&& self.base() <= lo
        &&& lo < hi ==> self.index_at(hi - 1) < self@.len()
        &&& self@.len() <= usize::MAX
    }

    /// The entry describing the data address with value `a`.
    pub open spec fn entry_at(&self, a: int) -> T {
        self@[self.index_at(a)]
    }

    /// A well-formed table describes regions of at least one byte.
    pub proof fn lemma_region_positive(&self)
        requires
            self.wf(),
        ensures
            self.region_bytes() > 0,
    {
    }

    /// A table that covers a range covers every address in it.
    pub proof fn lemma_covers_range(&self, lo: int, hi: int, a: int)
        requires
            self.covers_range(lo, hi),
            lo <= a < hi,
        ensures
            self.covers_at(a),
    {
        let r = self.region_bytes() as int;
        vstd::arithmetic::div_mod::lemma_div_is_ordered(a - self.base(), hi - 1 - self.base(), r);
        vstd::arithmetic::div_mod::lemma_div_pos_is_pos(a - self.base(), r);
    }

    /// The entry describing data address `addr`.
    pub open spec fn entry(&self, addr: Address) -> T {
        self@[self.index_of(addr)]
    }

    /// A table of `count` entries, all `init`, for the regions from `base` on.
    pub fn new(base: Address, region_bytes: usize, count: usize, init: T) -> (t: Self)
        requires
            region_bytes > 0,
        ensures
            t.wf(),
            t.base() == base.value(),
            t.region_bytes() == region_bytes,
            t@ == Seq::new(count as nat, |_i: int| init),
    {
        let mut entries: Vec<T> = Vec::new();
        let mut i: usize = 0;
        while i < count
            invariant
                i <= count,
                entries@ == Seq::new(i as nat, |_j: int| init),
            decreases count - i,
        {
            entries.push(init);
            i = i + 1;
        }
        SideTable { base: base.as_usize(), region_bytes, entries }
    }

    /// The index of the entry describing data address `addr`.
    pub fn index(&self, addr: Address) -> (i: usize)
        requires
            self.covers(addr),
        ensures
            i == self.index_of(addr),
    {
        (addr.as_usize() - self.base) / self.region_bytes
    }

    /// The entry at index `i`.
    pub fn get(&self, i: usize) -> (v: T)
        requires
            i < self@.len(),
        ensures
            v == self@[i as int],
    {
        self.entries[i]
    }

    /// Overwrite the entry at index `i`.
    pub fn set(&mut self, i: usize, v: T)
        requires
            i < old(self)@.len(),
        ensures
            final(self)@ == old(self)@.update(i as int, v),
            final(self).base() == old(self).base(),
            final(self).region_bytes() == old(self).region_bytes(),
            final(self).wf(),
    {
        proof {
            use_type_invariant(&*self);
        }
        let mut entries: Vec<T> = Vec::new();
        std::mem::swap(&mut entries, &mut self.entries);
        entries.set(i, v);
        self.entries = entries;
    }

    /// Load the entry describing data address `addr`.
    pub fn load(&self, addr: Address) -> (v: T)
        requires
            self.covers(addr),
        ensures
            v == self.entry(addr),
    {
        let i = self.index(addr);
        self.entries[i]
    }

    /// Store `v` into the entry describing data address `addr`.
    pub fn store(&mut self, addr: Address, v: T)
        requires
            old(self).covers(addr),
        ensures
            final(self)@ == old(self)@.update(old(self).index_of(addr), v),
            final(self).base() == old(self).base(),
            final(self).region_bytes() == old(self).region_bytes(),
            final(self).wf(),
    {
        let i = self.index(addr);
        self.set(i, v);
    }

    /// The number of entries.
    pub fn len(&self) -> (n: usize)
        ensures
            n == self@.len(),
            self.wf(),
    {
        proof {
            use_type_invariant(self);
        }
        self.entries.len()
    }
}

/// A load gives back what the last store to the same entry wrote, and a store leaves the
/// entries of every other address as they were.
pub proof fn lemma_load_after_store<T: Copy>(
    before: SideTable<T>,
    after: SideTable<T>,
    addr: Address,
    v: T,
    other: Address,
)
    requires
        before.covers(addr),
        after@ == before@.update(before.index_of(addr), v),
        after.base() == before.base(),
        after.region_bytes() == before.region_bytes(),
    ensures
        after.entry(addr) == v,
        before.covers(other) && before.index_of(other) != before.index_of(addr) ==> after.entry(
            other,
        ) == before.entry(other),
{
}

/// The byte whose bits below `n` are set (all bits for `n >= 8`).
pub open spec fn low_bits(n: u8) -> u8 {
    if n >= 8 {
        0xffu8
    } else {
        ((1u8 << n) - 1) as u8
    }
}

/// The bits of the metadata byte at address `a` that lie between bit `sb` of the byte at
/// `sa` (included) and bit `eb` of the byte at `ea` (excluded).
pub open spec fn range_mask(a: int, sa: int, sb: u8, ea: int, eb: u8) -> u8 {
    if a < sa || a > ea {
        0u8
    } else if a == sa && a == ea {
        low_bits(eb) & !low_bits(sb)
    } else if a == sa {
        !low_bits(sb)
    } else if a == ea {
        low_bits(eb)
    } else {
        0xffu8
    }
}

/// A byte with the bits of `mask` set (`set`) or cleared (`!set`).
pub open spec fn apply_mask(byte: u8, mask: u8, set: bool) -> u8 {
    if set {
        byte | mask
    } else {
        byte & !mask
    }
}

/// Whether bit `k` of `b` is set.
pub open spec fn bit_of(b: u8, k: u8) -> bool {
    (b >> k) & 1u8 == 1u8
}

proof fn lemma_low_bits_range(x: u8, y: u8, k: u8)
    by (bit_vector)
    requires
        x < 8,
        y < 8,
        k < 8,
    ensures
        (((((((1u8 << y) - 1) as u8) & !(((1u8 << x) - 1) as u8)) >> k) & 1u8 == 1u8) <==> (x
            <= k && k < y)),
        ((((!(((1u8 << x) - 1) as u8)) >> k) & 1u8 == 1u8) <==> x <= k),
        (((((((1u8 << y) - 1) as u8)) >> k) & 1u8 == 1u8) <==> k < y),
        (0xffu8 >> k) & 1u8 == 1u8,
        !((0u8 >> k) & 1u8 == 1u8),
{
}

/// The mask of a byte holds exactly the bits whose global position `8 * a + k` lies in
/// the range from `8 * sa + sb` (included) to `8 * ea + eb` (excluded).
pub proof fn lemma_range_mask_bits(a: int, sa: int, sb: u8, ea: int, eb: u8, k: u8)
    requires
        sb < 8,
        eb < 8,
        k < 8,
    ensures
        bit_of(range_mask(a, sa, sb, ea, eb), k) <==> (8 * sa + sb <= 8 * a + k < 8 * ea + eb),
{
    lemma_low_bits_range(sb, eb, k);
}

proof fn lemma_or_and_not_bits(b: u8, m: u8, k: u8)
    by (bit_vector)
    requires
        k < 8,
    ensures
        (((b | m) >> k) & 1u8 == 1u8) == if (m >> k) & 1u8 == 1u8 {
            true
        } else {
            (b >> k) & 1u8 == 1u8
        },
        (((b & !m) >> k) & 1u8 == 1u8) == if (m >> k) & 1u8 == 1u8 {
            false
        } else {
            (b >> k) & 1u8 == 1u8
        },
{
}

/// Setting or clearing a mask sets or clears exactly the mask's bits.
pub proof fn lemma_apply_mask_bits(byte: u8, mask: u8, set: bool, k: u8)
    requires
        k < 8,
    ensures
        bit_of(apply_mask(byte, mask, set), k) == if bit_of(mask, k) {
            set
        } else {
            bit_of(byte, k)
        },
{
    lemma_or_and_not_bits(byte, mask, k);
}

proof fn lemma_empty_mask(b: u8)
    by (bit_vector)
    ensures
        b | 0u8 == b,
        b & !0u8 == b,
{
}

/// The byte mask of bits below `n`, for `n < 8`.
fn low_bits_of(n: u8) -> (r: u8)
    requires
        n < 8,
    ensures
        r == low_bits(n),
{
    assert((1u8 << n) >= 1u8) by (bit_vector)
        requires
            n < 8u8,
    ;
    (1u8 << n) - 1
}

/// Whether the bit range from bit `start_bit` of the metadata byte at `start` (included)
/// to bit `end_bit` of the byte at `end` (excluded) lies within a byte table `meta`. The
/// end may be the byte just past the table when `end_bit` is 0.
pub open spec fn meta_bit_range_ok(
    meta: SideTable<u8>,
    start: Address,
    start_bit: u8,
    end: Address,
    end_bit: u8,
) -> bool {
    &&& meta.wf()
    &&& meta.region_bytes() == 1
    &&& meta.base() <= start.value() <= end.value()
    &&& end.value() - meta.base() <= meta@.len()
    &&& end.value() - meta.base() == meta@.len() ==> end_bit == 0
    &&& start_bit < 8
    &&& end_bit < 8
    &&& start.value() == end.value() ==> start_bit <= end_bit
}

/// Set (`set`) or clear (`!set`) the metadata bits from bit `start_bit` of the byte at
/// `start` (included) to bit `end_bit` of the byte at `end` (excluded). The table holds
/// one entry per byte of metadata.
pub fn update_meta_bits(
    meta: &mut SideTable<u8>,
    start: Address,
    start_bit: u8,
    end: Address,
    end_bit: u8,
    set: bool,
)
    requires
        meta_bit_range_ok(*old(meta), start, start_bit, end, end_bit),
    ensures
        final(meta)@.len() == old(meta)@.len(),
        final(meta).base() == old(meta).base(),
        final(meta).region_bytes() == old(meta).region_bytes(),
        final(meta).wf(),
        forall|i: int|
            0 <= i < old(meta)@.len() ==> #[trigger] final(meta)@[i] == apply_mask(
                old(meta)@[i],
                range_mask(
                    i + old(meta).base(),
                    start.value() as int,
                    start_bit,
                    end.value() as int,
                    end_bit,
                ),
                set,
            ),
{
    let ghost m0 = meta@;
    let base = meta.base;
    let ghost sa = start.value() as int;
    let ghost ea = end.value() as int;
    let si = start.as_usize() - base;
    let ei = end.as_usize() - base;
    let low_start = low_bits_of(start_bit);
    let low_end = low_bits_of(end_bit);
    if si == ei {
        if start_bit < end_bit {
            let mask = low_end & !low_start;
            let b = meta.entries[si];
            let v = if set {
                b | mask
            } else {
                b & !mask
            };
            meta.set(si, v);
        } else {
            assert(low_end & !low_start == 0u8) by (bit_vector)
                requires
                    end_bit <= start_bit < 8u8,
                    low_start == ((1u8 << start_bit) - 1) as u8,
                    low_end == ((1u8 << end_bit) - 1) as u8,
            ;
        }
        assert forall|i: int| 0 <= i < m0.len() implies #[trigger] meta@[i] == apply_mask(
            m0[i],
            range_mask(i + base, sa, start_bit, ea, end_bit),
            set,
        ) by {
            if i != si || start_bit >= end_bit {
                lemma_empty_mask(m0[i]);
            }
        }
    } else {
        // The first byte: the bits from `start_bit` up.
        let first = meta.entries[si];
        let v = if set {
            first | !low_start
        } else {
            first & !!low_start
        };
        assert(!!low_start == low_start) by (bit_vector);
        meta.set(si, v);
        // The whole bytes in between.
        let mut i: usize = si + 1;
        while i < ei
            invariant
                si < i <= ei,
                ei <= m0.len(),
                meta.entries@.len() == m0.len(),
                base == meta.base,
                meta.region_bytes == old(meta).region_bytes,
                forall|j: int|
                    0 <= j < m0.len() ==> #[trigger] meta.entries@[j] == if si <= j < i {
                        apply_mask(m0[j], range_mask(j + base, sa, start_bit, ea, end_bit), set)
                    } else {
                        m0[j]
                    },
                sa == si + base,
                ea == ei + base,
                low_start == low_bits(start_bit),
            decreases ei - i,
        {
            let b = meta.entries[i];
            let full: u8 = if set {
                0xff
            } else {
                0
            };
            assert(set ==> b | 0xffu8 == 0xffu8) by (bit_vector);
            assert(!set ==> b & !0xffu8 == 0u8) by (bit_vector);
            meta.set(i, full);
            i += 1;
        }
        // The last byte: the bits below `end_bit`.
        if end_bit > 0 {
            let last = meta.entries[ei];
            let v = if set {
                last | low_end
            } else {
                last & !low_end
            };
            meta.set(ei, v);
        }
        assert forall|j: int| 0 <= j < m0.len() implies #[trigger] meta@[j] == apply_mask(
            m0[j],
            range_mask(j + base, sa, start_bit, ea, end_bit),
            set,
        ) by {
            if j < si || j > ei {
                lemma_empty_mask(m0[j]);
            } else if j == ei && end_bit == 0 {
                assert(((1u8 << 0u8) - 1) as u8 == 0u8) by (bit_vector);
                lemma_empty_mask(m0[j]);
            }
        }
    }
}

/// The bit at global position `p` (byte `p / 8`, bit `p % 8`) lies in the range from
/// bit `sb` of byte `sa` (included) to bit `eb` of byte `ea` (excluded).
pub open spec fn in_bit_range(p: int, sa: int, sb: u8, ea: int, eb: u8) -> bool {
    8 * sa + sb <= p < 8 * ea + eb
}

/// After an update, each bit of the table is `set` inside the range and unchanged
/// outside it.
pub proof fn lemma_update_meta_bits(
    before: Seq<u8>,
    after: Seq<u8>,
    base: int,
    sa: int,
    sb: u8,
    ea: int,
    eb: u8,
    set: bool,
)
    requires
        sb < 8,
        eb < 8,
        after.len() == before.len(),
        forall|i: int|
            0 <= i < before.len() ==> #[trigger] after[i] == apply_mask(
                before[i],
                range_mask(i + base, sa, sb, ea, eb),
                set,
            ),
    ensures
        forall|i: int, k: u8|
            0 <= i < before.len() && k < 8 ==> #[trigger] bit_of(after[i], k) == if in_bit_range(
                8 * (i + base) + k,
                sa,
                sb,
                ea,
                eb,
            ) {
                set
            } else {
                bit_of(before[i], k)
            },
{
    assert forall|i: int, k: u8| 0 <= i < before.len() && k < 8 implies #[trigger] bit_of(
        after[i],
        k,
    ) == if in_bit_range(8 * (i + base) + k, sa, sb, ea, eb) {
        set
    } else {
        bit_of(before[i], k)
    } by {
        let m = range_mask(i + base, sa, sb, ea, eb);
        lemma_apply_mask_bits(before[i], m, set, k);
        lemma_range_mask_bits(i + base, sa, sb, ea, eb, k);
    }
}

} // verus!
