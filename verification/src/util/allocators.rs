use vstd::prelude::*;

use crate::util::opaque_pointer::{OpaquePointer, VMThread};

verus! {

/// The number of bump-pointer allocators of a mutator.
pub const MAX_BUMP_ALLOCATORS: usize = 6;
/// The number of large-object allocators of a mutator.
pub const MAX_LARGE_OBJECT_ALLOCATORS: usize = 2;
/// The number of malloc allocators of a mutator.
pub const MAX_MALLOC_ALLOCATORS: usize = 1;
/// The number of Immix allocators of a mutator.
pub const MAX_IMMIX_ALLOCATORS: usize = 2;
/// The number of free-list allocators of a mutator.
pub const MAX_FREE_LIST_ALLOCATORS: usize = 2;
/// The number of mark-compact allocators of a mutator.
pub const MAX_MARK_COMPACT_ALLOCATORS: usize = 1;

/// This type describes an allocator of a mutator: its kind and its index among the
/// allocators of that kind.
#[derive(Clone, Copy, Debug, PartialEq, Eq, Structural, Hash, PartialOrd, Ord)]
pub enum AllocatorSelector {
    BumpPointer(u8),
    LargeObject(u8),
    Malloc(u8),
    Immix(u8),
    MarkCompact(u8),
    FreeList(u8),
    /// No allocator.
    Unselected,
}

impl Default for AllocatorSelector {
    fn default() -> (s: AllocatorSelector)
        ensures
            s == AllocatorSelector::Unselected,
    {
        AllocatorSelector::Unselected
    }
}

/// The bit of a selector in the bitmap of initialized allocators: the allocators are
/// numbered kind after kind (bump pointer, large object, malloc, Immix, free list,
/// mark-compact).
pub open spec fn selector_bit(selector: AllocatorSelector) -> int {
    match selector {
        AllocatorSelector::BumpPointer(i) => i as int,
        AllocatorSelector::LargeObject(i) => MAX_BUMP_ALLOCATORS + i,
        AllocatorSelector::Malloc(i) => MAX_BUMP_ALLOCATORS + MAX_LARGE_OBJECT_ALLOCATORS + i,
        AllocatorSelector::Immix(i) => MAX_BUMP_ALLOCATORS + MAX_LARGE_OBJECT_ALLOCATORS
            + MAX_MALLOC_ALLOCATORS + i,
        AllocatorSelector::FreeList(i) => MAX_BUMP_ALLOCATORS + MAX_LARGE_OBJECT_ALLOCATORS
            + MAX_MALLOC_ALLOCATORS + MAX_IMMIX_ALLOCATORS + i,
        AllocatorSelector::MarkCompact(i) => MAX_BUMP_ALLOCATORS + MAX_LARGE_OBJECT_ALLOCATORS
            + MAX_MALLOC_ALLOCATORS + MAX_IMMIX_ALLOCATORS + MAX_FREE_LIST_ALLOCATORS + i,
        AllocatorSelector::Unselected => -1,
    }
}

/// Whether a selector names one of the allocators that a mutator has.
pub open spec fn selector_valid(selector: AllocatorSelector) -> bool {
    match selector {
        AllocatorSelector::BumpPointer(i) => i < MAX_BUMP_ALLOCATORS,
        AllocatorSelector::LargeObject(i) => i < MAX_LARGE_OBJECT_ALLOCATORS,
        AllocatorSelector::Malloc(i) => i < MAX_MALLOC_ALLOCATORS,
        AllocatorSelector::Immix(i) => i < MAX_IMMIX_ALLOCATORS,
        AllocatorSelector::FreeList(i) => i < MAX_FREE_LIST_ALLOCATORS,
        AllocatorSelector::MarkCompact(i) => i < MAX_MARK_COMPACT_ALLOCATORS,
        AllocatorSelector::Unselected => false,
    }
}

/// The total number of allocators of a mutator.
pub open spec fn total_allocators() -> int {
    MAX_BUMP_ALLOCATORS + MAX_LARGE_OBJECT_ALLOCATORS + MAX_MALLOC_ALLOCATORS
        + MAX_IMMIX_ALLOCATORS + MAX_FREE_LIST_ALLOCATORS + MAX_MARK_COMPACT_ALLOCATORS
}

impl AllocatorSelector {
    /// The bit of this selector in the bitmap of initialized allocators.
    pub fn get_bit_offset(self) -> (r: usize)
        requires
            self != AllocatorSelector::Unselected,
        ensures
            r == selector_bit(self),
    {
        match self {
            AllocatorSelector::BumpPointer(i) => i as usize,
            AllocatorSelector::LargeObject(i) => MAX_BUMP_ALLOCATORS + i as usize,
            AllocatorSelector::Malloc(i) => MAX_BUMP_ALLOCATORS + MAX_LARGE_OBJECT_ALLOCATORS
                + i as usize,
            AllocatorSelector::Immix(i) => MAX_BUMP_ALLOCATORS + MAX_LARGE_OBJECT_ALLOCATORS
                + MAX_MALLOC_ALLOCATORS + i as usize,
            AllocatorSelector::FreeList(i) => MAX_BUMP_ALLOCATORS + MAX_LARGE_OBJECT_ALLOCATORS
                + MAX_MALLOC_ALLOCATORS + MAX_IMMIX_ALLOCATORS + i as usize,
            AllocatorSelector::MarkCompact(i) => MAX_BUMP_ALLOCATORS + MAX_LARGE_OBJECT_ALLOCATORS
                + MAX_MALLOC_ALLOCATORS + MAX_IMMIX_ALLOCATORS + MAX_FREE_LIST_ALLOCATORS
                + i as usize,
            AllocatorSelector::Unselected => 0,
        }
    }
}

/// Every valid selector has its own bit, and all the bits fit in the bitmap.
pub proof fn lemma_selector_bits_distinct(a: AllocatorSelector, b: AllocatorSelector)
    requires
        selector_valid(a),
        selector_valid(b),
    ensures
        0 <= selector_bit(a) < total_allocators(),
        total_allocators() <= 32,
        selector_bit(a) == selector_bit(b) ==> a == b,
{
}

/// The allocator kinds that live in arrays of a mutator's allocators.
pub trait HasAllocatorArray {
    /// The number of allocators of this kind.
    spec fn count() -> nat;

    /// The bit of the first allocator of this kind.
    spec fn first_bit() -> nat;

    /// The index among the allocators of this kind that a selector names, if the selector
    /// is of this kind.
    spec fn index_of(selector: AllocatorSelector) -> Option<usize>;

    /// The selector of the allocator at `index` of this kind.
    spec fn selector_at(index: usize) -> AllocatorSelector;

    /// The selector of the allocator at an index of this kind is valid, names that
    /// index, and has the allocator's bit.
    proof fn lemma_selector_at(index: usize)
        requires
            index < Self::count(),
        ensures
            selector_valid(Self::selector_at(index)),
            Self::index_of(Self::selector_at(index)) == Some(index),
            selector_bit(Self::selector_at(index)) == Self::first_bit() + index,
    ;

    /// A selector of this kind is the selector of the index it names.
    proof fn lemma_index_of(selector: AllocatorSelector)
        ensures
            Self::index_of(selector) matches Some(i) ==> selector == Self::selector_at(i),
    ;

    /// The index that a selector of this kind names.
    fn get_index(selector: AllocatorSelector) -> (r: Option<usize>)
        ensures
            r == Self::index_of(selector),
    ;

    /// The bit of the allocator at `index` of this kind.
    fn get_bit_offset(index: usize) -> (r: usize)
        requires
            index < Self::count(),
        ensures
            r == Self::first_bit() + index,
    ;
}

/// The kind of the bump-pointer allocators.
pub struct BumpAllocatorKind;

/// The kind of the large-object allocators.
pub struct LargeObjectAllocatorKind;

/// The kind of the malloc allocators.
pub struct MallocAllocatorKind;

/// The kind of the Immix allocators.
pub struct ImmixAllocatorKind;

/// The kind of the free-list allocators.
pub struct FreeListAllocatorKind;

/// The kind of the mark-compact allocators.
pub struct MarkCompactAllocatorKind;

impl HasAllocatorArray for BumpAllocatorKind {
    open spec fn selector_at(index: usize) -> AllocatorSelector {
        AllocatorSelector::BumpPointer(index as u8)
    }

    proof fn lemma_selector_at(index: usize) {
    }

    proof fn lemma_index_of(selector: AllocatorSelector) {
    }

    open spec fn count() -> nat {
        MAX_BUMP_ALLOCATORS as nat
    }

    open spec fn first_bit() -> nat {
        0
    }

    open spec fn index_of(selector: AllocatorSelector) -> Option<usize> {
        match selector {
            AllocatorSelector::BumpPointer(i) => Some(i as usize),
            _ => None,
        }
    }

    fn get_index(selector: AllocatorSelector) -> (r: Option<usize>) {
        if let AllocatorSelector::BumpPointer(i) = selector {
            Some(i as usize)
        } else {
            None
        }
    }

    fn get_bit_offset(index: usize) -> (r: usize) {
        index
    }
}

impl HasAllocatorArray for LargeObjectAllocatorKind {
    open spec fn selector_at(index: usize) -> AllocatorSelector {
        AllocatorSelector::LargeObject(index as u8)
    }

    proof fn lemma_selector_at(index: usize) {
    }

    proof fn lemma_index_of(selector: AllocatorSelector) {
    }

    open spec fn count() -> nat {
        MAX_LARGE_OBJECT_ALLOCATORS as nat
    }

    open spec fn first_bit() -> nat {
        MAX_BUMP_ALLOCATORS as nat
    }

    open spec fn index_of(selector: AllocatorSelector) -> Option<usize> {
        match selector {
            AllocatorSelector::LargeObject(i) => Some(i as usize),
            _ => None,
        }
    }

    fn get_index(selector: AllocatorSelector) -> (r: Option<usize>) {
        if let AllocatorSelector::LargeObject(i) = selector {
            Some(i as usize)
        } else {
            None
        }
    }

    fn get_bit_offset(index: usize) -> (r: usize) {
        MAX_BUMP_ALLOCATORS + index
    }
}

impl HasAllocatorArray for MallocAllocatorKind {
    open spec fn selector_at(index: usize) -> AllocatorSelector {
        AllocatorSelector::Malloc(index as u8)
    }

    proof fn lemma_selector_at(index: usize) {
    }

    proof fn lemma_index_of(selector: AllocatorSelector) {
    }

    open spec fn count() -> nat {
        MAX_MALLOC_ALLOCATORS as nat
    }

    open spec fn first_bit() -> nat {
        (MAX_BUMP_ALLOCATORS + MAX_LARGE_OBJECT_ALLOCATORS) as nat
    }

    open spec fn index_of(selector: AllocatorSelector) -> Option<usize> {
        match selector {
            AllocatorSelector::Malloc(i) => Some(i as usize),
            _ => None,
        }
    }

    fn get_index(selector: AllocatorSelector) -> (r: Option<usize>) {
        if let AllocatorSelector::Malloc(i) = selector {
            Some(i as usize)
        } else {
            None
        }
    }

    fn get_bit_offset(index: usize) -> (r: usize) {
        MAX_BUMP_ALLOCATORS + MAX_LARGE_OBJECT_ALLOCATORS + index
    }
}

impl HasAllocatorArray for ImmixAllocatorKind {
    open spec fn selector_at(index: usize) -> AllocatorSelector {
        AllocatorSelector::Immix(index as u8)
    }

    proof fn lemma_selector_at(index: usize) {
    }

    proof fn lemma_index_of(selector: AllocatorSelector) {
    }

    open spec fn count() -> nat {
        MAX_IMMIX_ALLOCATORS as nat
    }

    open spec fn first_bit() -> nat {
        (MAX_BUMP_ALLOCATORS + MAX_LARGE_OBJECT_ALLOCATORS + MAX_MALLOC_ALLOCATORS) as nat
    }

    open spec fn index_of(selector: AllocatorSelector) -> Option<usize> {
        match selector {
            AllocatorSelector::Immix(i) => Some(i as usize),
            _ => None,
        }
    }

    fn get_index(selector: AllocatorSelector) -> (r: Option<usize>) {
        if let AllocatorSelector::Immix(i) = selector {
            Some(i as usize)
        } else {
            None
        }
    }

    fn get_bit_offset(index: usize) -> (r: usize) {
        MAX_BUMP_ALLOCATORS + MAX_LARGE_OBJECT_ALLOCATORS + MAX_MALLOC_ALLOCATORS + index
    }
}

impl HasAllocatorArray for FreeListAllocatorKind {
    open spec fn selector_at(index: usize) -> AllocatorSelector {
        AllocatorSelector::FreeList(index as u8)
    }

    proof fn lemma_selector_at(index: usize) {
    }

    proof fn lemma_index_of(selector: AllocatorSelector) {
    }

    open spec fn count() -> nat {
        MAX_FREE_LIST_ALLOCATORS as nat
    }

    open spec fn first_bit() -> nat {
        (MAX_BUMP_ALLOCATORS + MAX_LARGE_OBJECT_ALLOCATORS + MAX_MALLOC_ALLOCATORS
            + MAX_IMMIX_ALLOCATORS) as nat
    }

    open spec fn index_of(selector: AllocatorSelector) -> Option<usize> {
        match selector {
            AllocatorSelector::FreeList(i) => Some(i as usize),
            _ => None,
        }
    }

    fn get_index(selector: AllocatorSelector) -> (r: Option<usize>) {
        if let AllocatorSelector::FreeList(i) = selector {
            Some(i as usize)
        } else {
            None
        }
    }

    fn get_bit_offset(index: usize) -> (r: usize) {
        MAX_BUMP_ALLOCATORS + MAX_LARGE_OBJECT_ALLOCATORS + MAX_MALLOC_ALLOCATORS
            + MAX_IMMIX_ALLOCATORS + index
    }
}

impl HasAllocatorArray for MarkCompactAllocatorKind {
    open spec fn selector_at(index: usize) -> AllocatorSelector {
        AllocatorSelector::MarkCompact(index as u8)
    }

    proof fn lemma_selector_at(index: usize) {
    }

    proof fn lemma_index_of(selector: AllocatorSelector) {
    }

    open spec fn count() -> nat {
        MAX_MARK_COMPACT_ALLOCATORS as nat
    }

    open spec fn first_bit() -> nat {
        (MAX_BUMP_ALLOCATORS + MAX_LARGE_OBJECT_ALLOCATORS + MAX_MALLOC_ALLOCATORS
            + MAX_IMMIX_ALLOCATORS + MAX_FREE_LIST_ALLOCATORS) as nat
    }

    open spec fn index_of(selector: AllocatorSelector) -> Option<usize> {
        match selector {
            AllocatorSelector::MarkCompact(i) => Some(i as usize),
            _ => None,
        }
    }

    fn get_index(selector: AllocatorSelector) -> (r: Option<usize>) {
        if let AllocatorSelector::MarkCompact(i) = selector {
            Some(i as usize)
        } else {
            None
        }
    }

    fn get_bit_offset(index: usize) -> (r: usize) {
        MAX_BUMP_ALLOCATORS + MAX_LARGE_OBJECT_ALLOCATORS + MAX_MALLOC_ALLOCATORS
            + MAX_IMMIX_ALLOCATORS + MAX_FREE_LIST_ALLOCATORS + index
    }
}

/// The bit of a selector computed by its kind agrees with the selector's own bit.
pub proof fn lemma_kind_bits_agree(selector: AllocatorSelector)
    requires
        selector_valid(selector),
    ensures
        selector matches AllocatorSelector::BumpPointer(i) ==> selector_bit(selector)
            == BumpAllocatorKind::first_bit() + BumpAllocatorKind::index_of(selector).unwrap(),
        selector matches AllocatorSelector::LargeObject(i) ==> selector_bit(selector)
            == LargeObjectAllocatorKind::first_bit() + LargeObjectAllocatorKind::index_of(
            selector,
        ).unwrap(),
        selector matches AllocatorSelector::Malloc(i) ==> selector_bit(selector)
            == MallocAllocatorKind::first_bit() + MallocAllocatorKind::index_of(selector).unwrap(),
        selector matches AllocatorSelector::Immix(i) ==> selector_bit(selector)
            == ImmixAllocatorKind::first_bit() + ImmixAllocatorKind::index_of(selector).unwrap(),
        selector matches AllocatorSelector::FreeList(i) ==> selector_bit(selector)
            == FreeListAllocatorKind::first_bit() + FreeListAllocatorKind::index_of(
            selector,
        ).unwrap(),
        selector matches AllocatorSelector::MarkCompact(i) ==> selector_bit(selector)
            == MarkCompactAllocatorKind::first_bit() + MarkCompactAllocatorKind::index_of(
            selector,
        ).unwrap(),
{
}

/// Whether bit `b` of `bitmap` is set.
pub open spec fn bit_set(bitmap: u32, b: u32) -> bool {
    bitmap & (1u32 << b) != 0
}

proof fn lemma_set_bit(x: u32, b: u32, c: u32)
    requires
        b < 32,
        c < 32,
    ensures
        bit_set(x | (1u32 << b), c) <==> (bit_set(x, c) || b == c),
{
    assert(((x | (1u32 << b)) & (1u32 << c) != 0) <==> ((x & (1u32 << c) != 0) || b == c))
        by (bit_vector)
        requires
            b < 32u32,
            c < 32u32,
    ;
}

proof fn lemma_zero_bits(c: u32)
    requires
        c < 32,
    ensures
        !bit_set(0u32, c),
{
    assert(0u32 & (1u32 << c) == 0) by (bit_vector);
}

/// After `Allocators::new(tls, mmtk, space_mapping)`, the allocator at `index` of kind
/// `T` is initialized exactly when `space_mapping` names it.
pub proof fn lemma_initialized_after_new<T: HasAllocatorArray>(
    space_mapping: Seq<(AllocatorSelector, SpaceRef)>,
    bitmap: u32,
    index: usize,
)
    requires
        forall|i: int| 0 <= i < space_mapping.len() ==> selector_valid(#[trigger] space_mapping[i].0),
        forall|c: u32|
            c < 32 ==> (bit_set(bitmap, c) <==> exists|i: int|
                0 <= i < space_mapping.len() && selector_bit(#[trigger] space_mapping[i].0) == c),
        index < T::count(),
        T::first_bit() + T::count() <= 32,
    ensures
        bit_set(bitmap, (T::first_bit() + index) as u32) <==> exists|i: int|
            0 <= i < space_mapping.len() && #[trigger] space_mapping[i].0 == T::selector_at(index),
        bit_set(bitmap, (T::first_bit() + index) as u32) <==> exists|i: int|
            0 <= i < space_mapping.len() && #[trigger] T::index_of(space_mapping[i].0) == Some(
                index,
            ),
{
    T::lemma_selector_at(index);
    let sel = T::selector_at(index);
    let c = (T::first_bit() + index) as u32;
    if bit_set(bitmap, c) {
        let i = choose|i: int|
            0 <= i < space_mapping.len() && selector_bit(#[trigger] space_mapping[i].0) == c;
        lemma_selector_bits_distinct(space_mapping[i].0, sel);
        assert(space_mapping[i].0 == sel);
    }
    if exists|i: int| 0 <= i < space_mapping.len() && #[trigger] space_mapping[i].0 == sel {
        let i = choose|i: int| 0 <= i < space_mapping.len() && #[trigger] space_mapping[i].0 == sel;
        assert(selector_bit(space_mapping[i].0) == c);
    }
    if exists|i: int|
        0 <= i < space_mapping.len() && #[trigger] T::index_of(space_mapping[i].0) == Some(index) {
        let i = choose|i: int|
            0 <= i < space_mapping.len() && #[trigger] T::index_of(space_mapping[i].0) == Some(
                index,
            );
        T::lemma_index_of(space_mapping[i].0);
        assert(space_mapping[i].0 == sel);
    }
    if bit_set(bitmap, c) {
        let i = choose|i: int| 0 <= i < space_mapping.len() && #[trigger] space_mapping[i].0 == sel;
        assert(T::index_of(space_mapping[i].0) == Some(index));
    }
}

/// The kinds of space that only an allocator of the matching kind can allocate into.
#[derive(Clone, Copy, Debug, PartialEq, Eq, Structural)]
pub enum SpaceKind {
    LargeObject,
    Malloc,
    MarkSweep,
    /// Any other space.
    Other,
}

/// A space that allocators allocate into: where it is, and its kind.
#[derive(Clone, Copy, Debug, PartialEq, Eq, Structural)]
pub struct SpaceRef {
    pub space: OpaquePointer,
    pub kind: SpaceKind,
}

/// The allocation context that all allocators of a mutator share.
#[derive(Clone, Copy, Debug, PartialEq, Eq, Structural)]
pub struct AllocatorContext {
    /// The MMTk instance that the allocators allocate for.
    pub mmtk: OpaquePointer,
}

/// An allocator of a mutator, set up for the mutator's thread and for one space.
#[derive(Clone, Copy, Debug, PartialEq, Eq, Structural)]
pub struct BoundAllocator {
    /// The mutator thread that owns the allocator.
    pub tls: VMThread,
    /// The space that it allocates into.
    pub space: SpaceRef,
    /// The shared allocation context.
    pub context: AllocatorContext,
}

/// Whether an allocator named by `selector` can allocate into `space`: large-object,
/// malloc and free-list allocators need a space of their own kind.
pub open spec fn space_fits(selector: AllocatorSelector, space: SpaceRef) -> bool {
    match selector {
        AllocatorSelector::LargeObject(_) => space.kind == SpaceKind::LargeObject,
        AllocatorSelector::Malloc(_) => space.kind == SpaceKind::Malloc,
        AllocatorSelector::FreeList(_) => space.kind == SpaceKind::MarkSweep,
        _ => true,
    }
}

/// The space that the first `n` entries of `mapping` give the allocator `selector`:
/// the last entry that names it wins.
pub open spec fn mapped_space(
    mapping: Seq<(AllocatorSelector, SpaceRef)>,
    selector: AllocatorSelector,
    n: int,
) -> Option<SpaceRef>
    decreases n,
{
    if n <= 0 {
        None
    } else if mapping[n - 1].0 == selector {
        Some(mapping[n - 1].1)
    } else {
        mapped_space(mapping, selector, n - 1)
    }
}

/// The allocators of a mutator, one per selector, and the record of which of them are
/// initialized: one bit per allocator.
pub struct Allocators {
    /// The bitmap of initialized allocators.
    pub initialized_bitmap: u32,
    /// The allocators, indexed by the bit of their selector.
    allocators: Vec<Option<BoundAllocator>>,
    /// The allocation context that the allocators share.
    context: AllocatorContext,
}

impl Allocators {
    /// The bitmap of initialized allocators.
    pub closed spec fn bitmap(&self) -> u32 {
        self.initialized_bitmap
    }

    /// There is one place for each allocator of the mutator.
    pub closed spec fn well_formed(&self) -> bool {
        self.allocators@.len() == total_allocators()
    }

    /// Whether the allocator at `index` of kind `T` is initialized.
    pub fn is_initialized<T: HasAllocatorArray>(&self, index: usize) -> (r: bool)
        requires
            index < T::count(),
            T::first_bit() + T::count() <= 32,
        ensures
            r == bit_set(self.bitmap(), (T::first_bit() + index) as u32),
    {
        let bit = T::get_bit_offset(index);
        (self.initialized_bitmap & (1u32 << (bit as u32))) != 0
    }

    /// Mark the allocator at `index` of kind `T` as initialized.
    pub fn set_initialized<T: HasAllocatorArray>(&mut self, index: usize)
        requires
            index < T::count(),
            T::first_bit() + T::count() <= 32,
        ensures
            forall|c: u32|
                c < 32 ==> (bit_set(final(self).bitmap(), c) <==> (bit_set(
                    old(self).bitmap(),
                    c,
                ) || c == T::first_bit() + index)),
            final(self).allocators_view() == old(self).allocators_view(),
            final(self).context_spec() == old(self).context_spec(),
            final(self).well_formed() == old(self).well_formed(),
    {
        let bit = T::get_bit_offset(index);
        proof {
            assert forall|c: u32| c < 32 implies (bit_set(
                self.initialized_bitmap | (1u32 << (bit as u32)),
                c,
            ) <==> (bit_set(self.initialized_bitmap, c) || c == bit)) by {
                lemma_set_bit(self.initialized_bitmap, bit as u32, c);
            }
        }
        self.initialized_bitmap = self.initialized_bitmap | (1u32 << (bit as u32));
    }

    /// Mark the allocator that `selector` names as initialized.
    fn set_selected(&mut self, selector: AllocatorSelector)
        requires
            selector_valid(selector),
        ensures
            forall|c: u32|
                c < 32 ==> (bit_set(final(self).bitmap(), c) <==> (bit_set(
                    old(self).bitmap(),
                    c,
                ) || c == selector_bit(selector))),
            final(self).allocators@ == old(self).allocators@,
            final(self).context == old(self).context,
    {
        match selector {
            AllocatorSelector::BumpPointer(index) => {
                self.set_initialized::<BumpAllocatorKind>(index as usize)
            },
            AllocatorSelector::LargeObject(index) => {
                self.set_initialized::<LargeObjectAllocatorKind>(index as usize)
            },
            AllocatorSelector::Malloc(index) => {
                self.set_initialized::<MallocAllocatorKind>(index as usize)
            },
            AllocatorSelector::Immix(index) => {
                self.set_initialized::<ImmixAllocatorKind>(index as usize)
            },
            AllocatorSelector::FreeList(index) => {
                self.set_initialized::<FreeListAllocatorKind>(index as usize)
            },
            AllocatorSelector::MarkCompact(index) => {
                self.set_initialized::<MarkCompactAllocatorKind>(index as usize)
            },
            AllocatorSelector::Unselected => {},
        }
    }

    /// The allocator that `selector` names, if it has been set up.
    pub closed spec fn allocator_spec(&self, selector: AllocatorSelector) -> Option<BoundAllocator> {
        self.allocators@[selector_bit(selector)]
    }

    /// The allocators, indexed by the bit of their selector.
    pub closed spec fn allocators_view(&self) -> Seq<Option<BoundAllocator>> {
        self.allocators@
    }

    /// The allocation context that the allocators share.
    pub closed spec fn context_spec(&self) -> AllocatorContext {
        self.context
    }

    /// The allocator that `selector` names, which must be initialized.
    pub fn get_allocator(&self, selector: AllocatorSelector) -> (r: Option<BoundAllocator>)
        requires
            selector_valid(selector),
            self.well_formed(),
            bit_set(self.bitmap(), selector_bit(selector) as u32),
        ensures
            r == self.allocator_spec(selector),
    {
        proof {
            lemma_selector_bits_distinct(selector, selector);
        }
        self.allocators[selector.get_bit_offset()]
    }

    /// The allocator of kind `T` that `selector` names; the selector must be of that
    /// kind and the allocator initialized.
    pub fn get_typed_allocator<T: HasAllocatorArray>(&self, selector: AllocatorSelector) -> (r:
        Option<BoundAllocator>)
        requires
            T::index_of(selector) matches Some(i) && i < T::count()
                && bit_set(self.bitmap(), (T::first_bit() + i) as u32),
            T::first_bit() + T::count() <= 32,
            self.well_formed(),
        ensures
            r == self.allocator_spec(selector),
    {
        let index = T::get_index(selector).unwrap();
        proof {
            T::lemma_index_of(selector);
            T::lemma_selector_at(index);
            lemma_selector_bits_distinct(selector, selector);
        }
        self.allocators[T::get_bit_offset(index)]
    }

    /// The allocators of the mutator `mutator_tls`: for each entry of `space_mapping`,
    /// the allocator that its selector names is set up for the entry's space (a later
    /// entry for the same selector replaces an earlier one), all of them sharing one
    /// context for `mmtk`, and exactly their bits are set. Every selector must name an
    /// allocator, of a kind that can allocate into its space.
    pub fn new(
        mutator_tls: VMThread,
        mmtk: OpaquePointer,
        space_mapping: &Vec<(AllocatorSelector, SpaceRef)>,
    ) -> (r: Self)
        requires
            forall|i: int|
                0 <= i < space_mapping@.len() ==> selector_valid(#[trigger] space_mapping@[i].0)
                    && space_fits(space_mapping@[i].0, space_mapping@[i].1),
        ensures
            forall|c: u32|
                c < 32 ==> (bit_set(r.bitmap(), c) <==> exists|i: int|
                    0 <= i < space_mapping@.len() && selector_bit(#[trigger] space_mapping@[i].0)
                        == c),
            r.context_spec() == (AllocatorContext { mmtk }),
            r.well_formed(),
            forall|sel: AllocatorSelector|
                #![trigger r.allocator_spec(sel)]
                selector_valid(sel) ==> r.allocator_spec(sel) == match mapped_space(
                    space_mapping@,
                    sel,
                    space_mapping@.len() as int,
                ) {
                    Some(space) => Some(
                        BoundAllocator { tls: mutator_tls, space, context: AllocatorContext { mmtk } },
                    ),
                    None => None,
                },
    {
        let context = AllocatorContext { mmtk };
        let mut allocators: Vec<Option<BoundAllocator>> = Vec::new();
        let mut k: usize = 0;
        while k < 14
            invariant
                k <= 14,
                allocators@.len() == k,
                forall|j: int| 0 <= j < k ==> allocators@[j] is None,
            decreases 14 - k,
        {
            allocators.push(None);
            k += 1;
        }
        let mut ret = Allocators { initialized_bitmap: 0, allocators, context };
        assert forall|c: u32| c < 32 implies !bit_set(ret.initialized_bitmap, c) by {
            lemma_zero_bits(c);
        }
        let mut i: usize = 0;
        while i < space_mapping.len()
            invariant
                i <= space_mapping@.len(),
                forall|j: int|
                    0 <= j < space_mapping@.len() ==> selector_valid(#[trigger] space_mapping@[j].0)
                        && space_fits(space_mapping@[j].0, space_mapping@[j].1),
                forall|c: u32|
                    c < 32 ==> (bit_set(ret.initialized_bitmap, c) <==> exists|j: int|
                        0 <= j < i && selector_bit(#[trigger] space_mapping@[j].0) == c),
                ret.context == context,
                ret.allocators@.len() == total_allocators(),
                forall|sel: AllocatorSelector|
                    #![trigger ret.allocators@[selector_bit(sel)]]
                    selector_valid(sel) ==> ret.allocators@[selector_bit(sel)] == match mapped_space(
                        space_mapping@,
                        sel,
                        i as int,
                    ) {
                        Some(space) => Some(BoundAllocator { tls: mutator_tls, space, context }),
                        None => None,
                    },
            decreases space_mapping@.len() - i,
        {
            let (selector, space) = space_mapping[i];
            assert(selector == space_mapping@[i as int].0 && space == space_mapping@[i as int].1);
            let ghost before = ret.bitmap();
            ret.set_selected(selector);
            proof {
                lemma_selector_bits_distinct(selector, selector);
                assert(bit_set(ret.bitmap(), selector_bit(selector) as u32));
            }
            let ghost after = ret.initialized_bitmap;
            let bit = selector.get_bit_offset();
            ret.allocators.set(bit, Some(BoundAllocator { tls: mutator_tls, space, context }));
            assert(ret.initialized_bitmap == after);
            assert forall|c: u32| c < 32 implies (bit_set(ret.initialized_bitmap, c) <==> exists|j: int|
                0 <= j < i + 1 && selector_bit(#[trigger] space_mapping@[j].0) == c) by {
                if bit_set(ret.initialized_bitmap, c) {
                    if c == selector_bit(selector) {
                        assert(selector_bit(space_mapping@[i as int].0) == c);
                    } else {
                        assert(bit_set(before, c));
                    }
                } else {
                    if exists|j: int| 0 <= j < i + 1 && selector_bit(#[trigger] space_mapping@[j].0) == c {
                        let j = choose|j: int| 0 <= j < i + 1 && selector_bit(#[trigger] space_mapping@[j].0) == c;
                        assert(j != i);
                        assert(bit_set(before, c));
                    }
                }
            }
            assert forall|sel: AllocatorSelector| selector_valid(sel) implies #[trigger] ret.allocators@[selector_bit(sel)]
                == match mapped_space(space_mapping@, sel, i + 1) {
                Some(space) => Some(BoundAllocator { tls: mutator_tls, space, context }),
                None => None,
            } by {
                lemma_selector_bits_distinct(sel, selector);
            }
            i += 1;
        }
        ret
    }
}

/// The byte offsets that the fast paths of allocators need, relative to the start of
/// the allocator that holds them.
#[derive(Clone, Copy, Debug)]
pub struct AllocatorFieldOffsets {
    /// The offset of the bump pointer in a bump-pointer allocator.
    pub bump_allocator_bump_pointer: usize,
    /// The offset of the bump pointer in an Immix allocator.
    pub immix_allocator_bump_pointer: usize,
    /// The offset of the bump-pointer allocator in a mark-compact allocator.
    pub mark_compact_bump_allocator: usize,
}

/// This type describes allocator information. It is used to generate fast paths for
/// the GC. All offset fields are relative to the mutator.
#[derive(Clone, Copy, Debug, PartialEq, Eq, Structural, Hash, PartialOrd, Ord)]
pub enum AllocatorInfo {
    /// This allocator uses a bump pointer as its fastpath.
    BumpPointer {
        /// The byte offset from the mutator's pointer to the bump pointer.
        bump_pointer_offset: usize,
    },
    /// This allocator uses a fastpath, but it is not implemented yet.
    Unimplemented,
    /// This allocator does not have a fastpath.
    NoFastPath,
}

impl Default for AllocatorInfo {
    fn default() -> (i: AllocatorInfo)
        ensures
            i == AllocatorInfo::NoFastPath,
    {
        AllocatorInfo::NoFastPath
    }
}

impl AllocatorInfo {
    /// The allocator information for `selector`, given the offset of the selected
    /// allocator in the mutator and the field offsets inside allocators.
    pub fn new(selector: AllocatorSelector, base_offset: usize, offsets: AllocatorFieldOffsets) -> (r:
        AllocatorInfo)
        requires
            base_offset + offsets.bump_allocator_bump_pointer <= usize::MAX,
            base_offset + offsets.immix_allocator_bump_pointer <= usize::MAX,
            base_offset + offsets.mark_compact_bump_allocator + offsets.bump_allocator_bump_pointer
                <= usize::MAX,
        ensures
            r == match selector {
                AllocatorSelector::BumpPointer(_) => AllocatorInfo::BumpPointer {
                    bump_pointer_offset: (base_offset + offsets.bump_allocator_bump_pointer) as usize,
                },
                AllocatorSelector::Immix(_) => AllocatorInfo::BumpPointer {
                    bump_pointer_offset: (base_offset + offsets.immix_allocator_bump_pointer) as usize,
                },
                AllocatorSelector::MarkCompact(_) => AllocatorInfo::BumpPointer {
                    bump_pointer_offset: (base_offset + offsets.mark_compact_bump_allocator
                        + offsets.bump_allocator_bump_pointer) as usize,
                },
                AllocatorSelector::FreeList(_) => AllocatorInfo::Unimplemented,
                _ => AllocatorInfo::NoFastPath,
            },
    {
        match selector {
            AllocatorSelector::BumpPointer(_) => AllocatorInfo::BumpPointer {
                bump_pointer_offset: base_offset + offsets.bump_allocator_bump_pointer,
            },
            AllocatorSelector::Immix(_) => AllocatorInfo::BumpPointer {
                bump_pointer_offset: base_offset + offsets.immix_allocator_bump_pointer,
            },
            AllocatorSelector::MarkCompact(_) => {
                let bump_offset = base_offset + offsets.mark_compact_bump_allocator;
                AllocatorInfo::BumpPointer {
                    bump_pointer_offset: bump_offset + offsets.bump_allocator_bump_pointer,
                }
            },
            AllocatorSelector::FreeList(_) => AllocatorInfo::Unimplemented,
            _ => AllocatorInfo::NoFastPath,
        }
    }
}

} // verus!
