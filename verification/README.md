# mmtk (verified core)

Building blocks of a memory manager, written in Verus and proved against their
contracts:

- `util::address`: addresses and object references.
- `util::metadata`: side metadata tables (`SideTable`), bulk setting and clearing of
  metadata bits, metadata values and slots with their read-modify-write operations.
- `util::object_forwarding`: the forwarding state machine of copying collectors.
- `util::allocators`, `util::malloc`: which allocators a mutator has, their fast-path
  offsets, and how malloc-based allocation requests are placed.
- `util::heap`: chunks, the 64-bit and 32-bit space maps, and the free lists of units
  (chunks or pages) that they hand out.
- `policy::immix`: Immix blocks and lines, line counting and block sweeping.
- `policy::marksweepspace::native_ms`: mark-sweep blocks, their metadata and the sweep
  that builds the free list of a block.
- `plan` and `scheduler`: trace policies, object queues, the work packets of tracing
  (slot processing, object scanning, root processing, nursery and concurrent marking,
  mod-buffers) and the actions of the scheduling packets of a collection.
- `vm`: what the VM binding provides for scanning objects.
- `util::sanity`: the sanity trace, and its laws: from any order of running its slot
  and scan packets, once none is left every object reachable from the roots is visited.

Heap memory and metadata are modelled as tables of plain values, so that every
operation states exactly which entries it reads and writes. The work packets return the
actions or the follow-up packets they produce, and leave running them to the caller.

`app/` holds what needs the C library: allocation with `calloc` and `posix_memalign`,
and the header word of offset allocations; and the loop of concurrent marking, which
reads the plan's current pause between the rounds that the library runs.
