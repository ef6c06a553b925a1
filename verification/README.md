# device-os core

A single-address-space microkernel for the device side of AI/compute
accelerators, on QEMU `virt` (AArch64). The decisions the kernel makes are a
Verus-verified library; the hardware accesses that carry them out are a thin
program around it.

- `src/` — the verified library (crate `lib`)
  - `drivers/mmio.rs` — register accesses a driver asks for, and what they do
  - `drivers/pl011.rs` — PL011 UART: configuration, divisors, line control,
    initialisation sequence, transmit/receive decisions
  - `drivers/virtio.rs` — virtio-mmio block device: probing, bring-up steps,
    request descriptor chains, completion
  - `mm.rs` — frame allocator and translation tables: identity blocks,
    `map_page`, `unmap_page`, `is_mapped`, and the table stores they need
  - `sched.rs` — the task table and round-robin `yield_now`
  - `arch/` — task contexts, exception syndrome decoding, the spin-lock word
  - `boards/qemu_virt.rs` — memory map and console set-up
- `tests/` — tests of the library on concrete values
- `app/` — the kernel program: MMIO, system registers, context switches,
  rings in memory, locking of shared state, printing
