# bluerdma_rust

Verified core of the Blue RDMA user-space driver, written in Verus.

- `src/ring/ring_ptr.rs` — hardware ring pointers `{guard, idx}` for rings of
  `2^BUF_SIZE_EXP` slots, with their modular arithmetic and laws.
- `src/ring/producer.rs` — the host-to-card ring: free-slot accounting,
  batched and all-or-nothing publication of descriptors.
- `src/ring/consumer.rs` — the card-to-host ring: taking filled descriptors,
  clearing their slots, and assembling multi-descriptor elements.
- `src/ring/laws.rs` — properties that tie the ring operations together.
- `src/ring/csr.rs` — register access, modelled by the history of values
  written to and read from each pointer register, and `ToCardRegisters` and
  `ToHostRegisters`, the registers of an emulated card.
- `src/ring/{desc_ring,traits,desc_alloc}.rs` — descriptor slots, element
  encodings and ring memory allocation.
- `src/mem/` — page size, DMA buffer records, the emulated page allocator,
  u-dma-buf bookkeeping and parsing of its sysfs attributes.
- `src/rdma_utils/pagemaps.rs` — region lookup and physical address
  composition over the process's memory map.
- `app/` — the system calls (mmap, device files, `/proc`, `sysconf`) around
  the library.
- `tests/` — executable tests of the library.
