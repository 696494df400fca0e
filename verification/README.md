# mycelium

Building blocks of a small operating system kernel, written in Verus and
proved against their contracts.

`src/` is the verified library:

- `list`, `list::cursor`: a doubly-linked list whose nodes live in slots of
  the list's own storage, freed slots being reused, with cursors that walk
  it as a ring through a ghost position, and that split, splice and filter
  it.
- `mpsc_queue`, `transfer_stack`, `sorted_list`: a first-in first-out queue
  with a stub node, a last-in first-out stack drained all at once, and a list
  kept sorted on insertion by a key that each element gives.
- `buddy`, `buddy::page_alloc`, `bump`: a buddy-block page allocator, with
  the laws that its free blocks never overlap and that its free bytes are
  conserved, the page allocator over it that refuses pages larger than its
  minimum block, and a bump allocator.
- `addr`, `mem`, `mem::page`, `mem::frame`: physical and virtual addresses,
  memory regions, pages and frames, and the page-table interface that maps
  ranges of pages through handles on their entries.
- `pack`, `from_bits`, `example`, `bitfield`, `bitfield::unicode`: packing
  values into bit fields of an integer, enums converted to and from raw
  bits, and the ASCII and box-drawing displays of a bit field.
- `task_state`, `scheduler`, `backoff`: the state word of an async task, the
  bookkeeping of a scheduler tick, and an exponential spin backoff.
- `framebuffer`, `interrupt`, `multiboot2`, `math`, `loom`: drawing to a
  framebuffer, interrupt registration errors, Multiboot2 identifiers,
  power-of-two arithmetic and a value wrapper.

`app/` holds what the verifier does not see: the global allocator glue, the
async scheduler's run loop over real futures, the `embedded-graphics` drawing
target and the address error's `Error` impl.
