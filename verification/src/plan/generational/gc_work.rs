use vstd::prelude::*;

use super::GenerationalPlanExt;
use crate::plan::tracing::{appended, extends, VectorObjectQueue, VectorQueue};
use crate::policy::gc_work::TraceKind;
use crate::scheduler::gc_work::{load_slot, store_slot};
use crate::scheduler::work_bucket::WorkBucketStage;
use crate::util::address::{Address, ObjectReference};
use crate::util::metadata::side_metadata::SideTable;

verus! {

broadcast use {ObjectReference::lemma_from_value, ObjectReference::lemma_value_injective};

/// The number of entries of the forwarding cache of a nursery packet.
pub const FWD_CACHE_SIZE: usize = 256;

/// The cache entry for an object address: the address without its alignment bits,
/// mixed with higher bits, modulo the cache size.
pub open spec fn cache_index_spec(addr: usize) -> usize {
    ((addr >> 3usize) ^ (addr >> 11usize)) & 255usize
}

/// A direct-mapped cache from the addresses of objects to the addresses they were
/// forwarded to, kept by one nursery packet. It also keeps, as ghost state, every
/// forwarding that was recorded, so that what the cache hands out can be checked:
/// it only ever hands out a forwarding that was recorded for the same object.
pub struct ForwardingCache {
    entries: Vec<(usize, usize)>,
    seen: Ghost<Set<(usize, usize)>>,
}

impl ForwardingCache {
    /// The cache entries.
    pub closed spec fn entries_spec(&self) -> Seq<(usize, usize)> {
        self.entries@
    }

    /// The forwardings recorded so far.
    pub closed spec fn seen_spec(&self) -> Set<(usize, usize)> {
        self.seen@
    }

    /// The cache has one entry per index, and every entry that it would hand out is a
    /// forwarding that was recorded.
    pub closed spec fn wf(&self) -> bool {
        &&& self.entries@.len() == FWD_CACHE_SIZE
        &&& forall|i: int|
            0 <= i < FWD_CACHE_SIZE ==> {
                let (o, f) = #[trigger] self.entries@[i];
                o != 0 && o != f ==> self.seen@.contains((o, f))
            }
    }

    /// What the cache hands out for `addr`: the forwarded address, if the entry for
    /// `addr` holds a forwarding of `addr` itself.
    pub open spec fn lookup_spec(&self, addr: usize) -> Option<usize> {
        let (o, f) = self.entries_spec()[cache_index_spec(addr) as int];
        if o == addr && o != f && o != 0 {
            Some(f)
        } else {
            None
        }
    }

    /// An empty cache.
    pub fn new() -> (c: Self)
        ensures
            c.wf(),
            c.seen_spec() == Set::<(usize, usize)>::empty(),
            forall|a: usize| c.lookup_spec(a) is None,
    {
        let mut entries: Vec<(usize, usize)> = Vec::new();
        let mut i: usize = 0;
        while i < FWD_CACHE_SIZE
            invariant
                i <= FWD_CACHE_SIZE,
                entries@.len() == i,
                forall|j: int| 0 <= j < i ==> #[trigger] entries@[j] == (0usize, 0usize),
            decreases FWD_CACHE_SIZE - i,
        {
            entries.push((0, 0));
            i += 1;
        }
        let c = ForwardingCache { entries, seen: Ghost(Set::empty()) };
        assert forall|a: usize| c.lookup_spec(a) is None by {
            lemma_cache_index_bound(a);
        }
        c
    }

    /// The forwarded address for `addr`, if the cache holds it.
    pub fn lookup(&self, addr: usize) -> (r: Option<usize>)
        requires
            self.wf(),
        ensures
            r == self.lookup_spec(addr),
            r matches Some(f) ==> self.seen_spec().contains((addr, f)),
    {
        let idx = cache_index(addr);
        let (cached_orig, cached_fwd) = self.entries[idx];
        if cached_orig == addr && cached_orig != cached_fwd && cached_orig != 0 {
            Some(cached_fwd)
        } else {
            None
        }
    }

    /// Record that tracing forwarded the object at `addr` to `fwd`.
    pub fn record(&mut self, addr: usize, fwd: usize)
        requires
            old(self).wf(),
        ensures
            final(self).wf(),
            final(self).seen_spec() == old(self).seen_spec().insert((addr, fwd)),
            final(self).entries_spec() == old(self).entries_spec().update(
                cache_index_spec(addr) as int,
                (addr, fwd),
            ),
    {
        let idx = cache_index(addr);
        self.entries.set(idx, (addr, fwd));
        proof {
            self.seen@ = self.seen@.insert((addr, fwd));
        }
    }
}

/// The cache index is within the cache.
pub proof fn lemma_cache_index_bound(addr: usize)
    ensures
        cache_index_spec(addr) < FWD_CACHE_SIZE,
{
    assert(((addr >> 3usize) ^ (addr >> 11usize)) & 255usize < 256usize) by (bit_vector);
}

/// Compute a cache index from an object address.
fn cache_index(addr: usize) -> (r: usize)
    ensures
        r == cache_index_spec(addr),
        r < FWD_CACHE_SIZE,
{
    proof {
        lemma_cache_index_bound(addr);
    }
    ((addr >> 3) ^ (addr >> 11)) & (FWD_CACHE_SIZE - 1)
}

/// Reading the cache after recording a forwarding gives the forwarding back, for an
/// object that moved.
pub proof fn lemma_cache_read_after_record(c0: ForwardingCache, c1: ForwardingCache, addr: usize, fwd: usize)
    requires
        c0.wf(),
        c1.entries_spec() == c0.entries_spec().update(cache_index_spec(addr) as int, (addr, fwd)),
        addr != 0,
        addr != fwd,
    ensures
        c1.lookup_spec(addr) == Some(fwd),
{
    lemma_cache_index_bound(addr);
}

/// Process edges for a nursery GC: like `GCProcessEdges`, with a forwarding cache that
/// avoids tracing again an object that this packet has already seen forwarded.
pub struct GenNurseryProcessEdges<P: GenerationalPlanExt + Copy, K: TraceKind> {
    plan: P,
    kind: K,
    slots: Vec<Address>,
    nodes: VectorObjectQueue,
    roots: bool,
    bucket: WorkBucketStage,
    fwd_cache: ForwardingCache,
}

impl<P: GenerationalPlanExt + Copy, K: TraceKind> GenNurseryProcessEdges<P, K> {
    /// The slots to process.
    pub closed spec fn slots_spec(&self) -> Seq<Address> {
        self.slots@
    }

    /// The plan that traces the objects.
    pub closed spec fn plan_spec(&self) -> P {
        self.plan
    }

    /// The traced objects waiting to be scanned.
    pub closed spec fn nodes_spec(&self) -> Seq<ObjectReference> {
        self.nodes@
    }

    /// The forwarding cache.
    pub closed spec fn cache_spec(&self) -> ForwardingCache {
        self.fwd_cache
    }

    /// Whether the slots come from root scanning.
    pub closed spec fn roots_spec(&self) -> bool {
        self.roots
    }

    /// The work bucket of the packet.
    pub closed spec fn bucket_spec(&self) -> WorkBucketStage {
        self.bucket
    }

    /// The packet is well formed.
    pub open spec fn wf(&self) -> bool {
        self.cache_spec().wf()
    }

    /// A packet for `slots`, with an empty forwarding cache.
    pub fn new(
        slots: Vec<Address>,
        roots: bool,
        plan: P,
        kind: K,
        bucket: WorkBucketStage,
    ) -> (p: Self)
        ensures
            p.wf(),
            p.plan_spec() == plan,
            p.slots_spec() == slots@,
            p.roots_spec() == roots,
            p.bucket_spec() == bucket,
            p.cache_spec().seen_spec() == Set::<(usize, usize)>::empty(),
    {
        Self {
            plan,
            kind,
            slots,
            nodes: VectorQueue::new(),
            roots,
            bucket,
            fwd_cache: ForwardingCache::new(),
        }
    }

    /// Trace an object with the plan's nursery tracing.
    pub fn trace_object(&mut self, object: ObjectReference) -> (r: ObjectReference)
        ensures
            extends(old(self).nodes_spec(), final(self).nodes_spec()),
            old(self).plan_spec().nursery_trace_result::<K>(
                object,
                r,
                appended(old(self).nodes_spec(), final(self).nodes_spec()),
            ),
            final(self).plan_spec() == old(self).plan_spec(),
            final(self).cache_spec() == old(self).cache_spec(),
            final(self).slots_spec() == old(self).slots_spec(),
    {
        self.plan.trace_object_nursery::<VectorObjectQueue, K>(&mut self.nodes, object)
    }

    /// Process one slot. An empty slot is skipped. If the cache holds a forwarding of the
    /// slot's object, the slot is updated from the cache without tracing. Otherwise the
    /// object is traced (the result is returned); if it moved, the slot is updated and
    /// the forwarding is cached.
    ///
    pub fn process_slot(
        &mut self,
        heap: &mut SideTable<usize>,
        slot: Address,
    ) -> (traced: Option<ObjectReference>)
        requires
            old(self).wf(),
            old(heap).covers(slot),
        ensures
            final(self).wf(),
            final(self).slots_spec() == old(self).slots_spec(),
            final(heap).base() == old(heap).base(),
            final(heap).region_bytes() == old(heap).region_bytes(),
            ({
                let w = old(heap).entry(slot);
                let i = old(heap).index_of(slot);
                &&& w == 0 ==> traced is None && final(heap)@ == old(heap)@ && final(self).cache_spec()
                    == old(self).cache_spec()
                &&& w != 0 && old(self).cache_spec().lookup_spec(w) is Some ==> {
                    &&& traced is None
                    &&& final(heap)@ == old(heap)@.update(
                        i,
                        old(self).cache_spec().lookup_spec(w).unwrap(),
                    )
                    &&& final(self).cache_spec() == old(self).cache_spec()
                }
                &&& w != 0 && old(self).cache_spec().lookup_spec(w) is None ==> {
                    &&& traced matches Some(t)
                    &&& t.value() == w ==> final(heap)@ == old(heap)@ && final(self).cache_spec()
                        == old(self).cache_spec()
                    &&& t.value() != w ==> final(heap)@ == old(heap)@.update(i, t.value())
                        && final(self).cache_spec().seen_spec() == old(
                        self,
                    ).cache_spec().seen_spec().insert((w, t.value()))
                }
            }),
    {
        let loaded = load_slot(heap, slot);
        let object = match loaded {
            Some(object) => object,
            None => {
                return None;
            },
        };
        let addr = object.to_raw_address().as_usize();
        match self.fwd_cache.lookup(addr) {
            Some(cached_fwd) => {
                // Cache hit: the object was forwarded earlier in this work packet.
                let new_object = ObjectReference::from_raw_address(Address::from_usize(cached_fwd));
                match new_object {
                    Some(new_object) => {
                        store_slot(heap, slot, new_object);
                    },
                    None => {
                        heap.store(slot, 0);
                    },
                }
                None
            },
            None => {
                let new_object = self.trace_object(object);
                if new_object != object {
                    let fwd = new_object.to_raw_address().as_usize();
                    self.fwd_cache.record(addr, fwd);
                    store_slot(heap, slot, new_object);
                }
                Some(new_object)
            },
        }
    }
}

/// The unlog state of an object's log bit.
pub const UNLOGGED: u8 = 1;

/// Whether some object of `objects` has its log bit in entry `i` of `log_bits`.
pub open spec fn logs_entry(log_bits: &SideTable<u8>, objects: Seq<ObjectReference>, i: int) -> bool {
    exists|j: int|
        0 <= j < objects.len() && log_bits.index_of(#[trigger] objects[j].to_address_spec()) == i
}

/// The modbuf contains a list of objects in mature space(s) that may contain pointers
/// to the nursery space. In a nursery GC, the recorded objects get their log bits set
/// back to "unlogged", and are scanned so that their pointers are forwarded.
pub struct ProcessModBuf {
    modbuf: Vec<ObjectReference>,
}

impl ProcessModBuf {
    /// The recorded objects.
    pub closed spec fn modbuf_spec(&self) -> Seq<ObjectReference> {
        self.modbuf@
    }

    /// A packet for a non-empty mod-buffer.
    pub fn new(modbuf: Vec<ObjectReference>) -> (p: Self)
        requires
            modbuf@.len() > 0,
        ensures
            p.modbuf_spec() == modbuf@,
    {
        Self { modbuf }
    }

    /// Execute the packet. Only in a nursery GC does it do anything: it sets the log bit
    /// of every recorded object to unlogged, and hands out the recorded objects to be
    /// scanned (in the closure stage).
    pub fn do_work(&mut self, is_current_gc_nursery: bool, log_bits: &mut SideTable<u8>) -> (r:
        Option<Vec<ObjectReference>>)
        requires
            forall|j: int|
                0 <= j < old(self).modbuf_spec().len() ==> old(log_bits).covers(
                    #[trigger] old(self).modbuf_spec()[j].to_address_spec(),
                ),
        ensures
            !is_current_gc_nursery ==> r is None && final(log_bits)@ == old(log_bits)@
                && final(self).modbuf_spec() == old(self).modbuf_spec(),
            is_current_gc_nursery ==> {
                &&& r matches Some(v) && v@ == old(self).modbuf_spec()
                &&& final(log_bits)@.len() == old(log_bits)@.len()
                &&& forall|i: int|
                    0 <= i < old(log_bits)@.len() ==> #[trigger] final(log_bits)@[i] == if logs_entry(
                        old(log_bits),
                        old(self).modbuf_spec(),
                        i,
                    ) {
                        UNLOGGED
                    } else {
                        old(log_bits)@[i]
                    }
                &&& final(self).modbuf_spec() == Seq::<ObjectReference>::empty()
            },
            final(log_bits).base() == old(log_bits).base(),
            final(log_bits).region_bytes() == old(log_bits).region_bytes(),
    {
        if !is_current_gc_nursery {
            return None;
        }
        let ghost l0 = *log_bits;
        assert forall|j: int| 0 <= j < self.modbuf@.len() implies l0.covers(
            #[trigger] self.modbuf@[j].to_address_spec(),
        ) by {
            assert(old(log_bits).covers(old(self).modbuf_spec()[j].to_address_spec()));
        }
        let mut i: usize = 0;
        while i < self.modbuf.len()
            invariant
                i <= self.modbuf@.len(),
                self.modbuf@ == old(self).modbuf@,
                forall|j: int|
                    0 <= j < self.modbuf@.len() ==> l0.covers(
                        #[trigger] self.modbuf@[j].to_address_spec(),
                    ),
                log_bits@.len() == l0@.len(),
                log_bits.base() == l0.base(),
                log_bits.region_bytes() == l0.region_bytes(),
                log_bits.wf() == l0.wf(),
                forall|k: int|
                    0 <= k < l0@.len() ==> #[trigger] log_bits@[k] == if logs_entry(
                        &l0,
                        self.modbuf@.take(i as int),
                        k,
                    ) {
                        UNLOGGED
                    } else {
                        l0@[k]
                    },
            decreases self.modbuf@.len() - i,
        {
            let obj = self.modbuf[i];
            assert(l0.covers(self.modbuf@[i as int].to_address_spec()));
            let ghost before = log_bits@;
            log_bits.store(obj.to_raw_address(), UNLOGGED);
            proof {
                let t1 = self.modbuf@.take(i + 1);
                let t0 = self.modbuf@.take(i as int);
                assert forall|k: int| 0 <= k < l0@.len() implies #[trigger] log_bits@[k] == if logs_entry(
                    &l0,
                    t1,
                    k,
                ) {
                    UNLOGGED
                } else {
                    l0@[k]
                } by {
                    if k == l0.index_of(obj.to_address_spec()) {
                        assert(t1[i as int] == obj);
                        assert(logs_entry(&l0, t1, k));
                    } else {
                        if logs_entry(&l0, t1, k) {
                            let j = choose|j: int|
                                0 <= j < t1.len() && l0.index_of(#[trigger] t1[j].to_address_spec())
                                    == k;
                            assert(j < i);
                            assert(t0[j] == t1[j]);
                            assert(logs_entry(&l0, t0, k));
                        }
                        if logs_entry(&l0, t0, k) {
                            let j = choose|j: int|
                                0 <= j < t0.len() && l0.index_of(#[trigger] t0[j].to_address_spec())
                                    == k;
                            assert(t0[j] == t1[j]);
                            assert(logs_entry(&l0, t1, k));
                        }
                    }
                }
            }
            i += 1;
        }
        assert(self.modbuf@.take(self.modbuf@.len() as int) =~= self.modbuf@);
        let mut modbuf: Vec<ObjectReference> = Vec::new();
        std::mem::swap(&mut modbuf, &mut self.modbuf);
        Some(modbuf)
    }
}

/// The array-copy modbuf contains a list of array slices in mature space(s) that may
/// contain pointers to the nursery space. In a nursery GC, every slot of every recorded
/// slice is processed.
pub struct ProcessRegionModBuf {
    /// The slots of each recorded slice.
    modbuf: Vec<Vec<Address>>,
}

impl ProcessRegionModBuf {
    /// The slots of each recorded slice.
    pub closed spec fn modbuf_spec(&self) -> Seq<Seq<Address>> {
        self.modbuf@.map_values(|v: Vec<Address>| v@)
    }

    /// A packet for the recorded slices, each given by its slots.
    pub fn new(modbuf: Vec<Vec<Address>>) -> (p: Self)
        ensures
            p.modbuf_spec() == modbuf@.map_values(|v: Vec<Address>| v@),
    {
        Self { modbuf }
    }

    /// The slots to process: in a nursery GC, all the slots of all the slices, in order.
    pub fn do_work(&self, is_current_gc_nursery: bool) -> (r: Option<Vec<Address>>)
        ensures
            !is_current_gc_nursery ==> r is None,
            is_current_gc_nursery ==> (r matches Some(v) && v@ == self.modbuf_spec().flatten()),
    {
        if !is_current_gc_nursery {
            return None;
        }
        let mut slots: Vec<Address> = Vec::new();
        let mut i: usize = 0;
        while i < self.modbuf.len()
            invariant
                i <= self.modbuf@.len(),
                slots@ == self.modbuf_spec().take(i as int).flatten(),
            decreases self.modbuf@.len() - i,
        {
            let slice = &self.modbuf[i];
            let ghost s0 = slots@;
            let mut k: usize = 0;
            while k < slice.len()
                invariant
                    k <= slice@.len(),
                    slots@ == s0 + slice@.take(k as int),
                decreases slice@.len() - k,
            {
                slots.push(slice[k]);
                assert(slice@.take(k + 1) =~= slice@.take(k as int).push(slice@[k as int]));
                k += 1;
            }
            proof {
                assert(slice@.take(slice@.len() as int) =~= slice@);
                assert(self.modbuf_spec().take(i + 1) =~= self.modbuf_spec().take(i as int).push(
                    slice@,
                ));
                Seq::lemma_flatten_push(self.modbuf_spec().take(i as int), slice@);
            }
            i += 1;
        }
        assert(self.modbuf_spec().take(self.modbuf@.len() as int) =~= self.modbuf_spec());
        Some(slots)
    }
}

} // verus!
