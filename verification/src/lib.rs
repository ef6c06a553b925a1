//! Verified core of a single-address-space microkernel for the device side
//! of compute accelerators: the PL011 console driver, the virtio block
//! driver, the scheduler's task table, the frame allocator and translation
//! tables, and the AArch64 register values they rely on.
//!
//! Nothing here touches hardware: the functions decide which registers,
//! descriptors and table entries to read and write, return those accesses
//! to the caller, and their contracts say exactly what they are.
pub mod arch;
pub mod boards;
pub mod drivers;
pub mod mm;
pub mod sched;
