use vstd::prelude::*;

use super::sanity_checker::{SanityChecker, SanityTracePolicy};
use crate::plan::tracing::TracePolicy;
use crate::scheduler::gc_work::{
    edges_of_all, edges_outcome, edges_traced_and_post_scanned, lemma_traced_in_order_concat,
    packet_slots, post_scanned_in_order, select_objects, slots_of_all, slots_processed,
    slots_traced, traced_in_order, GCProcessEdges, GCScanObjects,
};
use crate::scheduler::work_bucket::WorkBucketStage;
use crate::vm::Scanning;
use crate::util::address::{Address, ObjectReference};
use crate::util::metadata::side_metadata::SideTable;

verus! {

broadcast use {ObjectReference::lemma_from_value, ObjectReference::lemma_value_injective};

/// A trace that never moves objects leaves every heap word as it was.
pub proof fn lemma_unmoved_heap(
    heap: &SideTable<usize>,
    slots: Seq<Address>,
    traced: Seq<ObjectReference>,
    k: int,
)
    ensures
        slots_processed(heap, slots, traced, false, k) == heap@,
    decreases k,
{
    if k > 0 {
        lemma_unmoved_heap(heap, slots, traced, k - 1);
    }
}

/// What the sanity trace of the first `k` slots does: no visited object is forgotten,
/// the object in every non-empty slot is visited, and every object visited for the
/// first time is in the queue.
pub proof fn lemma_sanity_slots_traced(
    heap: &SideTable<usize>,
    slots: Seq<Address>,
    traced: Seq<ObjectReference>,
    k: int,
    ctx0: SanityChecker,
    queue0: Seq<ObjectReference>,
    ctx1: SanityChecker,
    queue1: Seq<ObjectReference>,
)
    requires
        0 <= k <= slots.len(),
        slots_traced(SanityTracePolicy {}, heap, slots, traced, false, k, ctx0, queue0, ctx1, queue1),
    ensures
        ctx0.refs_spec().subset_of(ctx1.refs_spec()),
        forall|j: int|
            0 <= j < k && #[trigger] heap.entry(slots[j]) != 0 ==> ctx1.refs_spec().contains(
                heap.entry(slots[j]),
            ),
        forall|v: usize|
            #[trigger] ctx1.refs_spec().contains(v) && !ctx0.refs_spec().contains(v) ==> exists|
                i: int,
            |
                0 <= i < queue1.len() && (#[trigger] queue1[i]).value() == v,
        forall|i: int| 0 <= i < queue0.len() ==> #[trigger] queue1[i] == queue0[i],
        queue0.len() <= queue1.len(),
    decreases k,
{
    if k > 0 {
        lemma_unmoved_heap(heap, slots, traced, k - 1);
        let w = slots_processed(heap, slots, traced, false, k - 1)[heap.index_of(slots[k - 1])];
        assert(w == heap.entry(slots[k - 1]));
        if w == 0 {
            lemma_sanity_slots_traced(heap, slots, traced, k - 1, ctx0, queue0, ctx1, queue1);
        } else {
            let o = ObjectReference::from_value(w);
            let p = SanityTracePolicy {};
            let (c, q) = choose|c: SanityChecker, q: Seq<ObjectReference>|
                #![trigger p.trace_step(c, q, o, ctx1, queue1, traced[k - 1])]
                slots_traced(p, heap, slots, traced, false, k - 1, ctx0, queue0, c, q)
                    && p.trace_step(c, q, o, ctx1, queue1, traced[k - 1]);
            lemma_sanity_slots_traced(heap, slots, traced, k - 1, ctx0, queue0, c, q);
            assert(o.value() == w);
            assert forall|v: usize|
                #[trigger] ctx1.refs_spec().contains(v) && !ctx0.refs_spec().contains(v) implies exists|
                    i: int,
                |
                    0 <= i < queue1.len() && (#[trigger] queue1[i]).value() == v by {
                if c.refs_spec().contains(v) {
                    let i = choose|i: int| 0 <= i < q.len() && (#[trigger] q[i]).value() == v;
                    assert(queue1[i] == q[i]);
                } else {
                    assert(v == w);
                    assert(queue1[queue1.len() - 1] == o);
                }
            }
        }
    }
}

/// Whether `slot` is among the slots of the `pending` slot packets.
pub open spec fn slot_pending(pending: Seq<Seq<Address>>, slot: Address) -> bool {
    exists|i: int, j: int|
        0 <= i < pending.len() && 0 <= j < pending[i].len() && #[trigger] pending[i][j] == slot
}

/// Whether the object at address `v` is among the objects of the `pending` scan packets.
pub open spec fn object_pending(pending: Seq<Seq<ObjectReference>>, v: usize) -> bool {
    exists|i: int, j: int|
        0 <= i < pending.len() && 0 <= j < pending[i].len() && (#[trigger] pending[i][j]).value()
            == v
}

/// Whether the sanity trace has dealt with `slot`: it is still to be processed, or it
/// is empty, or the object it refers to is visited.
pub open spec fn slot_handled(
    heap: &SideTable<usize>,
    refs: Set<usize>,
    edges: Seq<Seq<Address>>,
    slot: Address,
) -> bool {
    ||| slot_pending(edges, slot)
    ||| heap.entry(slot) == 0
    ||| refs.contains(heap.entry(slot))
}

/// Whether the sanity trace has dealt with the references of the object at address
/// `v`: for an object that the binding scans slot by slot, every slot is dealt with;
/// for one whose edges the binding traces, every object they refer to is visited.
pub open spec fn object_handled<S: Scanning>(
    scanning: S,
    heap: &SideTable<usize>,
    refs: Set<usize>,
    edges: Seq<Seq<Address>>,
    v: usize,
) -> bool {
    let o = ObjectReference::from_value(v);
    if scanning.slot_enqueuing(o) {
        forall|j: int|
            0 <= j < scanning.object_slots(o).len() ==> slot_handled(
                heap,
                refs,
                edges,
                #[trigger] scanning.object_slots(o)[j],
            )
    } else {
        forall|j: int|
            0 <= j < scanning.object_edges(o).len() ==> refs.contains(
                (#[trigger] scanning.object_edges(o)[j]).value(),
            )
    }
}

/// The frontier of a sanity trace from the root slots `roots`, with the visited set
/// `refs`, the pending slot packets `edges` and the pending scan packets `scans`: every
/// root slot is dealt with, and every visited object is still to be scanned or has its
/// references dealt with.
pub open spec fn trace_frontier<S: Scanning>(
    scanning: S,
    heap: &SideTable<usize>,
    roots: Seq<Address>,
    refs: Set<usize>,
    edges: Seq<Seq<Address>>,
    scans: Seq<Seq<ObjectReference>>,
) -> bool {
    &&& forall|i: int| 0 <= i < roots.len() ==> slot_handled(heap, refs, edges, #[trigger] roots[i])
    &&& forall|v: usize|
        #[trigger] refs.contains(v) ==> object_pending(scans, v) || object_handled(
            scanning,
            heap,
            refs,
            edges,
            v,
        )
}

/// Whether the object at address `a` refers to the object at address `b`: through one
/// of its slots, if the binding scans it slot by slot, or else through one of its edges.
pub open spec fn refers_to<S: Scanning>(scanning: S, heap: &SideTable<usize>, a: usize, b: usize) -> bool {
    let o = ObjectReference::from_value(a);
    if scanning.slot_enqueuing(o) {
        exists|j: int|
            0 <= j < scanning.object_slots(o).len() && heap.entry(
                #[trigger] scanning.object_slots(o)[j],
            ) == b
    } else {
        exists|j: int|
            0 <= j < scanning.object_edges(o).len() && (#[trigger] scanning.object_edges(o)[j]).value()
                == b
    }
}

/// Whether `path` is a chain of objects, by address, from the root slots `roots` and
/// the root objects `nodes`: the first is the object in a root slot or a root object,
/// and each next one is referred to by the one before.
pub open spec fn is_reference_path<S: Scanning>(
    scanning: S,
    heap: &SideTable<usize>,
    roots: Seq<Address>,
    nodes: Seq<ObjectReference>,
    path: Seq<usize>,
) -> bool {
    &&& path.len() > 0
    &&& forall|k: int| 0 <= k < path.len() ==> #[trigger] path[k] != 0
    &&& (exists|i: int| 0 <= i < roots.len() && #[trigger] heap.entry(roots[i]) == path[0])
        || (exists|i: int| 0 <= i < nodes.len() && (#[trigger] nodes[i]).value() == path[0])
    &&& forall|k: int|
        0 <= k < path.len() - 1 ==> #[trigger] refers_to(scanning, heap, path[k], path[k + 1])
}

/// A slot dealt with stays dealt with when the visited set grows and more slot packets
/// become pending.
proof fn lemma_slot_handled_extend(
    heap: &SideTable<usize>,
    refs0: Set<usize>,
    refs1: Set<usize>,
    edges: Seq<Seq<Address>>,
    more: Seq<Seq<Address>>,
    slot: Address,
)
    requires
        slot_handled(heap, refs0, edges, slot),
        refs0.subset_of(refs1),
    ensures
        slot_handled(heap, refs1, edges + more, slot),
{
    if slot_pending(edges, slot) {
        let (i, j) = choose|i: int, j: int|
            0 <= i < edges.len() && 0 <= j < edges[i].len() && #[trigger] edges[i][j] == slot;
        assert((edges + more)[i] == edges[i]);
        assert((edges + more)[i][j] == slot);
    } else if heap.entry(slot) != 0 {
        assert(refs1.contains(heap.entry(slot)));
    }
}

/// An object whose references are dealt with stays so when the visited set grows and
/// more slot packets become pending.
proof fn lemma_object_handled_extend<S: Scanning>(
    scanning: S,
    heap: &SideTable<usize>,
    refs0: Set<usize>,
    refs1: Set<usize>,
    edges: Seq<Seq<Address>>,
    more: Seq<Seq<Address>>,
    v: usize,
)
    requires
        object_handled(scanning, heap, refs0, edges, v),
        refs0.subset_of(refs1),
    ensures
        object_handled(scanning, heap, refs1, edges + more, v),
{
    let o = ObjectReference::from_value(v);
    if scanning.slot_enqueuing(o) {
        assert forall|j: int| 0 <= j < scanning.object_slots(o).len() implies slot_handled(
            heap,
            refs1,
            edges + more,
            #[trigger] scanning.object_slots(o)[j],
        ) by {
            lemma_slot_handled_extend(heap, refs0, refs1, edges, more, scanning.object_slots(o)[j]);
        }
    }
}

/// A slot dealt with before a slot packet is processed is still dealt with after it:
/// the visited set only grows, and every non-empty slot of the processed packet now
/// refers to a visited object.
proof fn lemma_slot_still_handled(
    heap: &SideTable<usize>,
    refs0: Set<usize>,
    refs1: Set<usize>,
    edges: Seq<Seq<Address>>,
    k: int,
    slot: Address,
)
    requires
        0 <= k < edges.len(),
        slot_handled(heap, refs0, edges, slot),
        refs0.subset_of(refs1),
        forall|j: int|
            0 <= j < edges[k].len() && #[trigger] heap.entry(edges[k][j]) != 0 ==> refs1.contains(
                heap.entry(edges[k][j]),
            ),
    ensures
        slot_handled(heap, refs1, edges.remove(k), slot),
{
    if slot_pending(edges, slot) {
        let (i, j) = choose|i: int, j: int|
            0 <= i < edges.len() && 0 <= j < edges[i].len() && #[trigger] edges[i][j] == slot;
        if i < k {
            assert(edges.remove(k)[i] == edges[i]);
            assert(edges.remove(k)[i][j] == slot);
        } else if i > k {
            assert(edges.remove(k)[i - 1] == edges[i]);
            assert(edges.remove(k)[i - 1][j] == slot);
        } else {
            if heap.entry(edges[k][j]) != 0 {
                assert(refs1.contains(heap.entry(edges[k][j])));
            }
        }
    } else if heap.entry(slot) != 0 {
        assert(refs1.contains(heap.entry(slot)));
    }
}

/// An object pending in a scan packet other than the `k`-th stays pending once that
/// packet leaves and another one may join.
proof fn lemma_object_still_pending(
    scans: Seq<Seq<ObjectReference>>,
    k: int,
    extra: Seq<Seq<ObjectReference>>,
    i: int,
    j: int,
)
    requires
        0 <= k < scans.len(),
        0 <= i < scans.len(),
        i != k,
        0 <= j < scans[i].len(),
    ensures
        object_pending(scans.remove(k) + extra, scans[i][j].value()),
{
    let s1 = scans.remove(k) + extra;
    if i < k {
        assert(s1[i] == scans[i]);
        assert(s1[i][j] == scans[i][j]);
    } else {
        assert(s1[i - 1] == scans[i]);
        assert(s1[i - 1][j] == scans[i][j]);
    }
}

/// Processing a pending slot packet with the sanity trace keeps the frontier: the
/// packet leaves the pending slot packets, and the objects it visited for the first
/// time, if any, become a pending scan packet.
pub proof fn lemma_edges_step_keeps_frontier<S: Scanning>(
    scanning: S,
    heap: &SideTable<usize>,
    roots: Seq<Address>,
    edges: Seq<Seq<Address>>,
    scans: Seq<Seq<ObjectReference>>,
    k: int,
    traced: Seq<ObjectReference>,
    ctx0: SanityChecker,
    ctx1: SanityChecker,
    bucket: WorkBucketStage,
    scan: Option<GCScanObjects<SanityTracePolicy>>,
)
    requires
        0 <= k < edges.len(),
        trace_frontier(scanning, heap, roots, ctx0.refs_spec(), edges, scans),
        edges_outcome(SanityTracePolicy {}, heap, edges[k], traced, false, ctx0, ctx1, bucket, scan),
    ensures
        ctx0.refs_spec().subset_of(ctx1.refs_spec()),
        trace_frontier(
            scanning,
            heap,
            roots,
            ctx1.refs_spec(),
            edges.remove(k),
            match scan {
                Some(w) => scans.push(w.buffer_spec()),
                None => scans,
            },
        ),
{
    let q = choose|q: Seq<ObjectReference>|
        {
            &&& #[trigger] slots_traced(
                SanityTracePolicy {},
                heap,
                edges[k],
                traced,
                false,
                edges[k].len() as int,
                ctx0,
                Seq::empty(),
                ctx1,
                q,
            )
            &&& q.len() == 0 ==> scan is None
            &&& q.len() > 0 ==> (scan matches Some(w) && w.buffer_spec() == q
                && w.policy_spec() == SanityTracePolicy {} && !w.roots_spec() && w.bucket_spec()
                == bucket)
        };
    lemma_sanity_slots_traced(
        heap,
        edges[k],
        traced,
        edges[k].len() as int,
        ctx0,
        Seq::empty(),
        ctx1,
        q,
    );
    let refs0 = ctx0.refs_spec();
    let refs1 = ctx1.refs_spec();
    let scans1 = match scan {
        Some(w) => scans.push(w.buffer_spec()),
        None => scans,
    };
    assert forall|i: int| 0 <= i < roots.len() implies slot_handled(
        heap,
        refs1,
        edges.remove(k),
        #[trigger] roots[i],
    ) by {
        lemma_slot_still_handled(heap, refs0, refs1, edges, k, roots[i]);
    }
    assert forall|v: usize| #[trigger] refs1.contains(v) implies object_pending(scans1, v)
        || object_handled(scanning, heap, refs1, edges.remove(k), v) by {
        if refs0.contains(v) {
            if object_pending(scans, v) {
                let (i, j) = choose|i: int, j: int|
                    0 <= i < scans.len() && 0 <= j < scans[i].len() && (#[trigger] scans[i][j]).value()
                        == v;
                assert(scans1[i] == scans[i]);
                assert(scans1[i][j].value() == v);
            } else {
                let o = ObjectReference::from_value(v);
                if scanning.slot_enqueuing(o) {
                    assert forall|j: int| 0 <= j < scanning.object_slots(o).len() implies slot_handled(
                        heap,
                        refs1,
                        edges.remove(k),
                        #[trigger] scanning.object_slots(o)[j],
                    ) by {
                        lemma_slot_still_handled(
                            heap,
                            refs0,
                            refs1,
                            edges,
                            k,
                            scanning.object_slots(o)[j],
                        );
                    }
                }
            }
        } else {
            let i = choose|i: int| 0 <= i < q.len() && (#[trigger] q[i]).value() == v;
            assert(scans1[scans.len() as int] == q);
            assert(scans1[scans.len() as int][i].value() == v);
        }
    }
}

/// With no slot packet and no scan packet pending, and the root objects visited, the
/// frontier holds every object reachable from the roots: the sanity trace has visited
/// every object on every chain of references from the root slots and root objects.
pub proof fn lemma_frontier_complete<S: Scanning>(
    scanning: S,
    heap: &SideTable<usize>,
    roots: Seq<Address>,
    nodes: Seq<ObjectReference>,
    refs: Set<usize>,
    path: Seq<usize>,
    k: int,
)
    requires
        trace_frontier(scanning, heap, roots, refs, Seq::empty(), Seq::empty()),
        forall|i: int| 0 <= i < nodes.len() ==> refs.contains((#[trigger] nodes[i]).value()),
        is_reference_path(scanning, heap, roots, nodes, path),
        0 <= k < path.len(),
    ensures
        refs.contains(path[k]),
    decreases k,
{
    let none_edges = Seq::<Seq<Address>>::empty();
    assert(path[k] != 0);
    if k == 0 {
        if exists|i: int| 0 <= i < roots.len() && #[trigger] heap.entry(roots[i]) == path[0] {
            let i = choose|i: int| 0 <= i < roots.len() && #[trigger] heap.entry(roots[i]) == path[0];
            assert(slot_handled(heap, refs, none_edges, roots[i]));
        } else {
            let i = choose|i: int| 0 <= i < nodes.len() && (#[trigger] nodes[i]).value() == path[0];
            assert(refs.contains(nodes[i].value()));
        }
    } else {
        lemma_frontier_complete(scanning, heap, roots, nodes, refs, path, k - 1);
        let p = path[k - 1];
        let o = ObjectReference::from_value(p);
        assert(refers_to(scanning, heap, path[k - 1], path[(k - 1) + 1]));
        assert(!object_pending(Seq::<Seq<ObjectReference>>::empty(), p));
        assert(object_handled(scanning, heap, refs, none_edges, p));
        if scanning.slot_enqueuing(o) {
            let j = choose|j: int|
                0 <= j < scanning.object_slots(o).len() && heap.entry(
                    #[trigger] scanning.object_slots(o)[j],
                ) == path[k];
            assert(slot_handled(heap, refs, none_edges, scanning.object_slots(o)[j]));
        } else {
            let j = choose|j: int|
                0 <= j < scanning.object_edges(o).len() && (#[trigger] scanning.object_edges(
                    o,
                )[j]).value() == path[k];
            assert(refs.contains(scanning.object_edges(o)[j].value()));
        }
    }
}

/// A sanity trace starts with nothing visited and every root slot in a pending slot
/// packet: the frontier holds.
pub proof fn lemma_frontier_initial<S: Scanning>(
    scanning: S,
    heap: &SideTable<usize>,
    roots: Seq<Address>,
    batches: Seq<Seq<Address>>,
)
    requires
        forall|i: int| 0 <= i < roots.len() ==> slot_pending(batches, #[trigger] roots[i]),
    ensures
        trace_frontier(
            scanning,
            heap,
            roots,
            Set::<usize>::empty(),
            batches,
            Seq::<Seq<ObjectReference>>::empty(),
        ),
{
}

/// What the sanity trace of a sequence of objects does: no visited object is
/// forgotten, every traced object is visited, and every object visited for the first
/// time is in the queue.
pub proof fn lemma_sanity_traced_in_order(
    ctx0: SanityChecker,
    queue0: Seq<ObjectReference>,
    objects: Seq<ObjectReference>,
    ctx1: SanityChecker,
    queue1: Seq<ObjectReference>,
)
    requires
        traced_in_order(SanityTracePolicy {}, ctx0, queue0, objects, ctx1, queue1),
    ensures
        ctx0.refs_spec().subset_of(ctx1.refs_spec()),
        forall|j: int|
            0 <= j < objects.len() ==> ctx1.refs_spec().contains((#[trigger] objects[j]).value()),
        forall|v: usize|
            #[trigger] ctx1.refs_spec().contains(v) && !ctx0.refs_spec().contains(v) ==> exists|
                i: int,
            |
                0 <= i < queue1.len() && (#[trigger] queue1[i]).value() == v,
        forall|i: int| 0 <= i < queue0.len() ==> #[trigger] queue1[i] == queue0[i],
        queue0.len() <= queue1.len(),
    decreases objects.len(),
{
    if objects.len() > 0 {
        let p = SanityTracePolicy {};
        let (c, q, r) = choose|c: SanityChecker, q: Seq<ObjectReference>, r: ObjectReference|
            #![trigger p.trace_step(c, q, objects.last(), ctx1, queue1, r)]
            traced_in_order(p, ctx0, queue0, objects.drop_last(), c, q) && p.trace_step(
                c,
                q,
                objects.last(),
                ctx1,
                queue1,
                r,
            );
        lemma_sanity_traced_in_order(ctx0, queue0, objects.drop_last(), c, q);
        assert forall|j: int| 0 <= j < objects.len() implies ctx1.refs_spec().contains(
            (#[trigger] objects[j]).value(),
        ) by {
            if j < objects.len() - 1 {
                assert(objects[j] == objects.drop_last()[j]);
            }
        }
        assert forall|v: usize|
            #[trigger] ctx1.refs_spec().contains(v) && !ctx0.refs_spec().contains(v) implies exists|
                i: int,
            |
                0 <= i < queue1.len() && (#[trigger] queue1[i]).value() == v by {
            if c.refs_spec().contains(v) {
                let i = choose|i: int| 0 <= i < q.len() && (#[trigger] q[i]).value() == v;
                assert(queue1[i] == q[i]);
            } else {
                assert(v == objects.last().value());
                assert(queue1[queue1.len() - 1] == objects.last());
            }
        }
    }
}

/// Processing a batch of root objects with the sanity trace keeps the frontier: the root
/// objects are visited, and those visited for the first time become a pending scan
/// packet.
pub proof fn lemma_root_nodes_step_keeps_frontier<S: Scanning>(
    scanning: S,
    heap: &SideTable<usize>,
    roots: Seq<Address>,
    edges: Seq<Seq<Address>>,
    scans: Seq<Seq<ObjectReference>>,
    nodes: Seq<ObjectReference>,
    ctx0: SanityChecker,
    ctx1: SanityChecker,
    queue: Seq<ObjectReference>,
)
    requires
        trace_frontier(scanning, heap, roots, ctx0.refs_spec(), edges, scans),
        traced_in_order(SanityTracePolicy {}, ctx0, Seq::empty(), nodes, ctx1, queue),
    ensures
        ctx0.refs_spec().subset_of(ctx1.refs_spec()),
        forall|i: int| 0 <= i < nodes.len() ==> ctx1.refs_spec().contains((#[trigger] nodes[i]).value()),
        trace_frontier(scanning, heap, roots, ctx1.refs_spec(), edges, scans.push(queue)),
{
    lemma_sanity_traced_in_order(ctx0, Seq::empty(), nodes, ctx1, queue);
    let refs0 = ctx0.refs_spec();
    let refs1 = ctx1.refs_spec();
    let none = Seq::<Seq<Address>>::empty();
    assert(edges + none =~= edges);
    assert forall|i: int| 0 <= i < roots.len() implies slot_handled(
        heap,
        refs1,
        edges,
        #[trigger] roots[i],
    ) by {
        lemma_slot_handled_extend(heap, refs0, refs1, edges, none, roots[i]);
    }
    assert forall|v: usize| #[trigger] refs1.contains(v) implies object_pending(scans.push(queue), v)
        || object_handled(scanning, heap, refs1, edges, v) by {
        if !refs0.contains(v) {
            let i = choose|i: int| 0 <= i < queue.len() && (#[trigger] queue[i]).value() == v;
            assert(scans.push(queue)[scans.len() as int] == queue);
            assert(scans.push(queue)[scans.len() as int][i].value() == v);
        } else if object_pending(scans, v) {
            let (i, j) = choose|i: int, j: int|
                0 <= i < scans.len() && 0 <= j < scans[i].len() && (#[trigger] scans[i][j]).value()
                    == v;
            assert(scans.push(queue)[i] == scans[i]);
            assert(scans.push(queue)[i][j].value() == v);
        } else {
            lemma_object_handled_extend(scanning, heap, refs0, refs1, edges, none, v);
        }
    }
}

/// The objects of `objects` scanned the way `want` says include every one of them
/// scanned that way.
proof fn lemma_select_member<S: Scanning>(
    scanning: S,
    objects: Seq<ObjectReference>,
    want: bool,
    j: int,
)
    requires
        0 <= j < objects.len(),
        scanning.slot_enqueuing(objects[j]) == want,
    ensures
        exists|x: int|
            0 <= x < select_objects(scanning, objects, want).len() && #[trigger] select_objects(
                scanning,
                objects,
                want,
            )[x] == objects[j],
    decreases objects.len(),
{
    let prev = select_objects(scanning, objects.drop_last(), want);
    let all = select_objects(scanning, objects, want);
    if j == objects.len() - 1 {
        assert(all[prev.len() as int] == objects[j]);
    } else {
        lemma_select_member(scanning, objects.drop_last(), want, j);
        let x = choose|x: int|
            0 <= x < prev.len() && #[trigger] prev[x] == objects.drop_last()[j];
        assert(all[x] == prev[x]);
    }
}

/// Every edge of every one of `objects` is among their edges.
proof fn lemma_edges_of_all_member<S: Scanning>(
    scanning: S,
    objects: Seq<ObjectReference>,
    j: int,
    m: int,
)
    requires
        0 <= j < objects.len(),
        0 <= m < scanning.object_edges(objects[j]).len(),
    ensures
        exists|p: int|
            0 <= p < edges_of_all(scanning, objects).len() && #[trigger] edges_of_all(
                scanning,
                objects,
            )[p] == scanning.object_edges(objects[j])[m],
    decreases objects.len(),
{
    let prev = edges_of_all(scanning, objects.drop_last());
    let all = edges_of_all(scanning, objects);
    if j == objects.len() - 1 {
        assert(all[prev.len() + m] == scanning.object_edges(objects[j])[m]);
    } else {
        lemma_edges_of_all_member(scanning, objects.drop_last(), j, m);
        let p = choose|p: int|
            0 <= p < prev.len() && #[trigger] prev[p] == scanning.object_edges(
                objects.drop_last()[j],
            )[m];
        assert(all[p] == prev[p]);
    }
}

/// Every slot of every one of `objects` is among their slots.
proof fn lemma_slots_of_all_member<S: Scanning>(
    scanning: S,
    objects: Seq<ObjectReference>,
    j: int,
    m: int,
)
    requires
        0 <= j < objects.len(),
        0 <= m < scanning.object_slots(objects[j]).len(),
    ensures
        exists|p: int|
            0 <= p < slots_of_all(scanning, objects).len() && #[trigger] slots_of_all(
                scanning,
                objects,
            )[p] == scanning.object_slots(objects[j])[m],
    decreases objects.len(),
{
    let prev = slots_of_all(scanning, objects.drop_last());
    let all = slots_of_all(scanning, objects);
    if j == objects.len() - 1 {
        assert(all[prev.len() + m] == scanning.object_slots(objects[j])[m]);
    } else {
        lemma_slots_of_all_member(scanning, objects.drop_last(), j, m);
        let p = choose|p: int|
            0 <= p < prev.len() && #[trigger] prev[p] == scanning.object_slots(
                objects.drop_last()[j],
            )[m];
        assert(all[p] == prev[p]);
    }
}

/// Every slot among the slots of `packets` is a slot of one of them.
proof fn lemma_packet_slots_member<T: TracePolicy>(packets: Seq<GCProcessEdges<T>>, p: int)
    requires
        0 <= p < packet_slots(packets).len(),
    ensures
        exists|i: int, m: int|
            0 <= i < packets.len() && 0 <= m < packets[i].slots_spec().len() && #[trigger] packets[i].slots_spec()[m]
                == packet_slots(packets)[p],
    decreases packets.len(),
{
    let prev = packet_slots(packets.drop_last());
    if p < prev.len() {
        lemma_packet_slots_member(packets.drop_last(), p);
        let (i, m) = choose|i: int, m: int|
            0 <= i < packets.drop_last().len() && 0 <= m < packets.drop_last()[i].slots_spec().len()
                && #[trigger] packets.drop_last()[i].slots_spec()[m] == prev[p];
        assert(packets[i] == packets.drop_last()[i]);
    } else {
        let i = packets.len() - 1;
        assert(packets[i].slots_spec()[p - prev.len()] == packet_slots(packets)[p]);
    }
}

/// The sanity trace's post-scan hook changes nothing.
pub proof fn lemma_sanity_post_scanned(
    ctx0: SanityChecker,
    objects: Seq<ObjectReference>,
    ctx1: SanityChecker,
)
    requires
        post_scanned_in_order(SanityTracePolicy {}, ctx0, objects, ctx1),
    ensures
        ctx1 == ctx0,
    decreases objects.len(),
{
    if objects.len() > 0 {
        let p = SanityTracePolicy {};
        let c = choose|c: SanityChecker|
            #![trigger p.post_scan_step(c, objects.last(), ctx1)]
            post_scanned_in_order(p, ctx0, objects.drop_last(), c) && p.post_scan_step(
                c,
                objects.last(),
                ctx1,
            );
        lemma_sanity_post_scanned(ctx0, objects.drop_last(), c);
    }
}

/// Scanning objects by tracing their edges, with the sanity trace, is tracing all their
/// edges in order.
pub proof fn lemma_sanity_edges_traced<S: Scanning>(
    scanning: S,
    ctx0: SanityChecker,
    queue0: Seq<ObjectReference>,
    objects: Seq<ObjectReference>,
    ctx1: SanityChecker,
    queue1: Seq<ObjectReference>,
)
    requires
        edges_traced_and_post_scanned(
            SanityTracePolicy {},
            scanning,
            ctx0,
            queue0,
            objects,
            ctx1,
            queue1,
        ),
    ensures
        traced_in_order(
            SanityTracePolicy {},
            ctx0,
            queue0,
            edges_of_all(scanning, objects),
            ctx1,
            queue1,
        ),
    decreases objects.len(),
{
    let p = SanityTracePolicy {};
    if objects.len() == 0 {
        assert(edges_of_all(scanning, objects) =~= Seq::<ObjectReference>::empty());
    } else {
        let (c, q, c2) = choose|c: SanityChecker, q: Seq<ObjectReference>, c2: SanityChecker|
            #![trigger traced_in_order(p, c, q, scanning.object_edges(objects.last()), c2, queue1), p.post_scan_step(c2, objects.last(), ctx1)]
            edges_traced_and_post_scanned(p, scanning, ctx0, queue0, objects.drop_last(), c, q)
                && traced_in_order(p, c, q, scanning.object_edges(objects.last()), c2, queue1)
                && p.post_scan_step(c2, objects.last(), ctx1);
        lemma_sanity_edges_traced(scanning, ctx0, queue0, objects.drop_last(), c, q);
        lemma_traced_in_order_concat(
            p,
            ctx0,
            queue0,
            edges_of_all(scanning, objects.drop_last()),
            c,
            q,
            scanning.object_edges(objects.last()),
            c2,
            queue1,
        );
    }
}

/// Processing a pending scan packet keeps the frontier: the packet leaves the pending
/// scan packets; the slots of its objects that the binding scans slot by slot become
/// pending slot packets; the objects that the edges of the others refer to are visited,
/// and those visited for the first time, if any, become a pending scan packet.
pub proof fn lemma_scan_step_keeps_frontier<S: Scanning>(
    scanning: S,
    heap: &SideTable<usize>,
    roots: Seq<Address>,
    edges: Seq<Seq<Address>>,
    scans: Seq<Seq<ObjectReference>>,
    k: int,
    ctx0: SanityChecker,
    ctx1: SanityChecker,
    packets: Seq<GCProcessEdges<SanityTracePolicy>>,
    scan: Option<GCScanObjects<SanityTracePolicy>>,
)
    requires
        0 <= k < scans.len(),
        trace_frontier(scanning, heap, roots, ctx0.refs_spec(), edges, scans),
        packet_slots(packets) == slots_of_all(
            scanning,
            select_objects(scanning, scans[k], true),
        ),
        exists|mid: SanityChecker, q: Seq<ObjectReference>|
            {
                &&& #[trigger] post_scanned_in_order(
                    SanityTracePolicy {},
                    ctx0,
                    select_objects(scanning, scans[k], true),
                    mid,
                )
                &&& #[trigger] edges_traced_and_post_scanned(
                    SanityTracePolicy {},
                    scanning,
                    mid,
                    Seq::empty(),
                    select_objects(scanning, scans[k], false),
                    ctx1,
                    q,
                )
                &&& q.len() == 0 ==> scan is None
                &&& q.len() > 0 ==> (scan matches Some(w) && w.buffer_spec() == q)
            },
    ensures
        ctx0.refs_spec().subset_of(ctx1.refs_spec()),
        trace_frontier(
            scanning,
            heap,
            roots,
            ctx1.refs_spec(),
            edges + packets.map_values(|p: GCProcessEdges<SanityTracePolicy>| p.slots_spec()),
            match scan {
                Some(w) => scans.remove(k).push(w.buffer_spec()),
                None => scans.remove(k),
            },
        ),
{
    let later = select_objects(scanning, scans[k], false);
    let (mid, q) = choose|mid: SanityChecker, q: Seq<ObjectReference>|
        {
            &&& #[trigger] post_scanned_in_order(
                SanityTracePolicy {},
                ctx0,
                select_objects(scanning, scans[k], true),
                mid,
            )
            &&& #[trigger] edges_traced_and_post_scanned(
                SanityTracePolicy {},
                scanning,
                mid,
                Seq::empty(),
                later,
                ctx1,
                q,
            )
            &&& q.len() == 0 ==> scan is None
            &&& q.len() > 0 ==> (scan matches Some(w) && w.buffer_spec() == q)
        };
    lemma_sanity_post_scanned(ctx0, select_objects(scanning, scans[k], true), mid);
    lemma_sanity_edges_traced(scanning, mid, Seq::empty(), later, ctx1, q);
    lemma_sanity_traced_in_order(ctx0, Seq::empty(), edges_of_all(scanning, later), ctx1, q);
    let refs0 = ctx0.refs_spec();
    let refs1 = ctx1.refs_spec();
    let more = packets.map_values(|p: GCProcessEdges<SanityTracePolicy>| p.slots_spec());
    let edges1 = edges + more;
    let extra = match scan {
        Some(w) => seq![w.buffer_spec()],
        None => Seq::<Seq<ObjectReference>>::empty(),
    };
    let scans1 = scans.remove(k) + extra;
    assert(scans1 == match scan {
        Some(w) => scans.remove(k).push(w.buffer_spec()),
        None => scans.remove(k),
    });
    assert forall|i: int| 0 <= i < roots.len() implies slot_handled(
        heap,
        refs1,
        edges1,
        #[trigger] roots[i],
    ) by {
        lemma_slot_handled_extend(heap, refs0, refs1, edges, more, roots[i]);
    }
    assert forall|v: usize| #[trigger] refs1.contains(v) implies object_pending(scans1, v)
        || object_handled(scanning, heap, refs1, edges1, v) by {
        let o = ObjectReference::from_value(v);
        if !refs0.contains(v) {
            let i = choose|i: int| 0 <= i < q.len() && (#[trigger] q[i]).value() == v;
            assert(scans1[scans.remove(k).len() as int] == q);
            assert(scans1[scans.remove(k).len() as int][i].value() == v);
        } else if object_pending(scans, v) {
            let (i, j) = choose|i: int, j: int|
                0 <= i < scans.len() && 0 <= j < scans[i].len() && (#[trigger] scans[i][j]).value()
                    == v;
            if i != k {
                lemma_object_still_pending(scans, k, extra, i, j);
            } else {
                assert(o.value() == v);
                assert(scans[k][j].value() == o.value());
                assert(scans[k][j] == o);
                if scanning.slot_enqueuing(o) {
                    lemma_select_member(scanning, scans[k], true, j);
                    let x = choose|x: int|
                        0 <= x < select_objects(scanning, scans[k], true).len()
                            && #[trigger] select_objects(scanning, scans[k], true)[x] == scans[k][j];
                    assert forall|m: int| 0 <= m < scanning.object_slots(o).len() implies slot_handled(
                        heap,
                        refs1,
                        edges1,
                        #[trigger] scanning.object_slots(o)[m],
                    ) by {
                        let now = select_objects(scanning, scans[k], true);
                        lemma_slots_of_all_member(scanning, now, x, m);
                        let p = choose|p: int|
                            0 <= p < slots_of_all(scanning, now).len() && #[trigger] slots_of_all(
                                scanning,
                                now,
                            )[p] == scanning.object_slots(now[x])[m];
                        lemma_packet_slots_member(packets, p);
                        let (pi, pm) = choose|pi: int, pm: int|
                            0 <= pi < packets.len() && 0 <= pm < packets[pi].slots_spec().len()
                                && #[trigger] packets[pi].slots_spec()[pm] == packet_slots(
                                packets,
                            )[p];
                        assert(edges1[edges.len() + pi] == more[pi]);
                        assert(edges1[edges.len() + pi][pm] == scanning.object_slots(o)[m]);
                    }
                } else {
                    lemma_select_member(scanning, scans[k], false, j);
                    let x = choose|x: int|
                        0 <= x < later.len() && #[trigger] later[x] == scans[k][j];
                    assert forall|m: int| 0 <= m < scanning.object_edges(o).len() implies refs1.contains(
                        (#[trigger] scanning.object_edges(o)[m]).value(),
                    ) by {
                        lemma_edges_of_all_member(scanning, later, x, m);
                        let p = choose|p: int|
                            0 <= p < edges_of_all(scanning, later).len() && #[trigger] edges_of_all(
                                scanning,
                                later,
                            )[p] == scanning.object_edges(later[x])[m];
                        assert(refs1.contains(edges_of_all(scanning, later)[p].value()));
                    }
                }
            }
        } else {
            lemma_object_handled_extend(scanning, heap, refs0, refs1, edges, more, v);
        }
    }
}

/// The frontier depends on the heap only through its words: the sanity trace, which
/// writes no slot, keeps it on the heap it leaves behind.
pub proof fn lemma_frontier_same_words<S: Scanning>(
    scanning: S,
    heap0: &SideTable<usize>,
    heap1: &SideTable<usize>,
    roots: Seq<Address>,
    refs: Set<usize>,
    edges: Seq<Seq<Address>>,
    scans: Seq<Seq<ObjectReference>>,
)
    requires
        heap1@ == heap0@,
        heap1.base() == heap0.base(),
        heap1.region_bytes() == heap0.region_bytes(),
        trace_frontier(scanning, heap0, roots, refs, edges, scans),
    ensures
        trace_frontier(scanning, heap1, roots, refs, edges, scans),
{
    assert forall|slot: Address| #[trigger] heap1.entry(slot) == heap0.entry(slot) by {}
    assert forall|slot: Address|
        slot_handled(heap0, refs, edges, slot) implies #[trigger] slot_handled(
            heap1,
            refs,
            edges,
            slot,
        ) by {
        assert(heap1.entry(slot) == heap0.entry(slot));
    }
    assert forall|v: usize|
        object_handled(scanning, heap0, refs, edges, v) implies #[trigger] object_handled(
            scanning,
            heap1,
            refs,
            edges,
            v,
        ) by {
        let o = ObjectReference::from_value(v);
        if scanning.slot_enqueuing(o) {
            assert forall|j: int| 0 <= j < scanning.object_slots(o).len() implies slot_handled(
                heap1,
                refs,
                edges,
                #[trigger] scanning.object_slots(o)[j],
            ) by {
                assert(slot_handled(heap0, refs, edges, scanning.object_slots(o)[j]));
            }
        }
    }
}

} // verus!
