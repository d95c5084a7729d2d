# nabi

The verified core of the Nabi async runtime, written in Verus.

- `id` — `Nid`, the 128-bit tree-structured task identifier: bit layout,
  accessors, constructors drawing from a `NidSequence`, ancestry checks.
- `memory` — the 24-bit `Generation` counter, the generational `Slab` with
  its in-band LIFO free list and packed `SlabKey`, and the `BumpAllocator`
  arena with its phases, byte buffer and drop-registry bookkeeping.
- `task` — the packed `TaskRef` handle, the `TaskState` lifecycle and its
  transition rule, the `TaskCell` holding a task's future and then its
  output, the `Affine`/`Stealing` mode markers, and the intrusive children
  list over any `TaskStorage` (`TaskTable` is the one provided).
- `flat` — `FlatLayout`, fixed-size types whose little-endian bytes (their
  in-memory bytes on little-endian targets) are their wire format.
- `hint`, `cancellation`, `uring` — scheduling hints, cancellation kinds and
  the `io_uring` capability record.

`app/` holds what verified code cannot: the process-wide id sequence, the
atomic task-state cell, polling a task's future, raw wakers, the arena's
destructor registry, and the Linux `io_uring` probe.
