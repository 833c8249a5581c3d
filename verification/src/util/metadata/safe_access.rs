use vstd::prelude::*;

use crate::util::address::Address;
use crate::util::metadata::metadata_val_traits::MetadataValue;
use crate::util::metadata::side_metadata::SideTable;
use std::marker::PhantomData;

verus! {

/// Proof that the world is stopped, which allows non-atomic access to metadata.
#[derive(Clone, Copy)]
pub struct StwProof(());

impl StwProof {
    /// Create a new `StwProof` for tests.
    pub fn new_for_tests() -> (p: Self) {
        StwProof(())
    }
}

/// The metadata entry of one data address, in a table of values of type `T`.
///
/// A slot does not own the table: each access is given the table, which must have an
/// entry for the slot's address. A table that is held exclusively (`&mut`) sees no
/// concurrent access, so the atomic and the plain accesses behave alike on it.
pub struct MetadataSlot<T: MetadataValue> {
    addr: Address,
    _marker: PhantomData<T>,
}

impl<T: MetadataValue> MetadataSlot<T> {
    /// The data address whose metadata the slot refers to.
    pub closed spec fn addr_spec(&self) -> Address {
        self.addr
    }

    /// The slot for the metadata of `addr`. Nothing is checked here: each access asks
    /// for a table that has an entry for `addr`.
    pub fn new_unchecked(addr: Address) -> (s: Self)
        ensures
            s.addr_spec() == addr,
    {
        Self { addr, _marker: PhantomData }
    }

    /// Load the value.
    pub fn load(&self, meta: &SideTable<T>) -> (v: T)
        requires
            meta.covers(self.addr_spec()),
        ensures
            v == meta.entry(self.addr_spec()),
    {
        meta.load(self.addr)
    }

    /// Load the value atomically.
    pub fn load_atomic(&self, meta: &SideTable<T>) -> (v: T)
        requires
            meta.covers(self.addr_spec()),
        ensures
            v == meta.entry(self.addr_spec()),
    {
        meta.load(self.addr)
    }

    /// Store a value.
    pub fn store(&self, meta: &mut SideTable<T>, value: T)
        requires
            old(meta).covers(self.addr_spec()),
        ensures
            final(meta)@ == old(meta)@.update(old(meta).index_of(self.addr_spec()), value),
            final(meta).base() == old(meta).base(),
            final(meta).region_bytes() == old(meta).region_bytes(),
            final(meta).wf(),
    {
        meta.store(self.addr, value)
    }

    /// Store a value atomically.
    pub fn store_atomic(&self, meta: &mut SideTable<T>, value: T)
        requires
            old(meta).covers(self.addr_spec()),
        ensures
            final(meta)@ == old(meta)@.update(old(meta).index_of(self.addr_spec()), value),
            final(meta).base() == old(meta).base(),
            final(meta).region_bytes() == old(meta).region_bytes(),
            final(meta).wf(),
    {
        meta.store(self.addr, value)
    }

    /// Store `new` if the value is `current`. Returns `Ok` with the previous value if it
    /// was stored, and `Err` with the value found otherwise.
    pub fn compare_exchange(&self, meta: &mut SideTable<T>, current: T, new: T) -> (r: Result<
        T,
        T,
    >)
        requires
            old(meta).covers(self.addr_spec()),
        ensures
            old(meta).entry(self.addr_spec()) == current ==> {
                &&& r == Ok::<T, T>(current)
                &&& final(meta)@ == old(meta)@.update(old(meta).index_of(self.addr_spec()), new)
            },
            old(meta).entry(self.addr_spec()) != current ==> {
                &&& r == Err::<T, T>(old(meta).entry(self.addr_spec()))
                &&& final(meta)@ == old(meta)@
            },
            final(meta).base() == old(meta).base(),
            final(meta).region_bytes() == old(meta).region_bytes(),
            final(meta).wf(),
    {
        let prev = meta.load(self.addr);
        if prev.same_value(current) {
            meta.store(self.addr, new);
            Ok(prev)
        } else {
            Err(prev)
        }
    }

    /// Add to the value, wrapping around. Returns the previous value.
    pub fn fetch_add(&self, meta: &mut SideTable<T>, value: T) -> (prev: T)
        requires
            old(meta).covers(self.addr_spec()),
        ensures
            prev == old(meta).entry(self.addr_spec()),
            final(meta)@ == old(meta)@.update(
                old(meta).index_of(self.addr_spec()),
                T::wrapping_add_spec(prev, value),
            ),
            final(meta).base() == old(meta).base(),
            final(meta).region_bytes() == old(meta).region_bytes(),
            final(meta).wf(),
    {
        let prev = meta.load(self.addr);
        meta.store(self.addr, prev.wrapping_add(value));
        prev
    }

    /// Subtract from the value, wrapping around. Returns the previous value.
    pub fn fetch_sub(&self, meta: &mut SideTable<T>, value: T) -> (prev: T)
        requires
            old(meta).covers(self.addr_spec()),
        ensures
            prev == old(meta).entry(self.addr_spec()),
            final(meta)@ == old(meta)@.update(
                old(meta).index_of(self.addr_spec()),
                T::wrapping_sub_spec(prev, value),
            ),
            final(meta).base() == old(meta).base(),
            final(meta).region_bytes() == old(meta).region_bytes(),
            final(meta).wf(),
    {
        let prev = meta.load(self.addr);
        meta.store(self.addr, prev.wrapping_sub(value));
        prev
    }

    /// Bitwise-and the value with `value`. Returns the previous value.
    pub fn fetch_and(&self, meta: &mut SideTable<T>, value: T) -> (prev: T)
        requires
            old(meta).covers(self.addr_spec()),
        ensures
            prev == old(meta).entry(self.addr_spec()),
            final(meta)@ == old(meta)@.update(
                old(meta).index_of(self.addr_spec()),
                T::bitand_spec(prev, value),
            ),
            final(meta).base() == old(meta).base(),
            final(meta).region_bytes() == old(meta).region_bytes(),
            final(meta).wf(),
    {
        let prev = meta.load(self.addr);
        meta.store(self.addr, prev.bitand(value));
        prev
    }

    /// Bitwise-or the value with `value`. Returns the previous value.
    pub fn fetch_or(&self, meta: &mut SideTable<T>, value: T) -> (prev: T)
        requires
            old(meta).covers(self.addr_spec()),
        ensures
            prev == old(meta).entry(self.addr_spec()),
            final(meta)@ == old(meta)@.update(
                old(meta).index_of(self.addr_spec()),
                T::bitor_spec(prev, value),
            ),
            final(meta).base() == old(meta).base(),
            final(meta).region_bytes() == old(meta).region_bytes(),
            final(meta).wf(),
    {
        let prev = meta.load(self.addr);
        meta.store(self.addr, prev.bitor(value));
        prev
    }

    /// Update the value with `f`: if `f` gives a new value for the current one, it is
    /// stored and `Ok` with the previous value is returned; if `f` gives `None`, nothing
    /// changes and `Err` with the current value is returned.
    pub fn fetch_update<F: Fn(T) -> Option<T>>(&self, meta: &mut SideTable<T>, f: F) -> (r: Result<
        T,
        T,
    >)
        requires
            old(meta).covers(self.addr_spec()),
            call_requires(f, (old(meta).entry(self.addr_spec()),)),
        ensures
            final(meta).base() == old(meta).base(),
            final(meta).region_bytes() == old(meta).region_bytes(),
            final(meta).wf(),
            match r {
                Ok(prev) => {
                    &&& prev == old(meta).entry(self.addr_spec())
                    &&& call_ensures(f, (prev,), Some(final(meta).entry(self.addr_spec())))
                    &&& final(meta)@ == old(meta)@.update(
                        old(meta).index_of(self.addr_spec()),
                        final(meta).entry(self.addr_spec()),
                    )
                },
                Err(prev) => {
                    &&& prev == old(meta).entry(self.addr_spec())
                    &&& call_ensures(f, (prev,), None::<T>)
                    &&& final(meta)@ == old(meta)@
                },
            },
    {
        let prev = meta.load(self.addr);
        match f(prev) {
            Some(next) => {
                meta.store(self.addr, next);
                Ok(prev)
            },
            None => Err(prev),
        }
    }
}

} // verus!
