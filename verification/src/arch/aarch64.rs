//! AArch64 register values the kernel computes with.
use vstd::prelude::*;

pub mod context;
pub mod exceptions;
pub mod spinlock;

verus! {

/// The exception level from the value of the `CurrentEL` register
/// (bits 3:2).
pub fn current_el(current_el_reg: u64) -> (r: u64)
    ensures
        r == (current_el_reg / 4) % 4,
        r < 4,
{
    assert((current_el_reg >> 2u64) & 3 == (current_el_reg / 4) % 4) by (bit_vector);
    (current_el_reg >> 2) & 0b11
}

/// `CPACR_EL1` with FP/SIMD enabled at EL1: `FPEN` (bits 21:20) set to
/// 0b11, the other bits kept.
pub fn enable_fp(cpacr: u64) -> (r: u64)
    ensures
        (r >> 20u64) & 3 == 3,
        r & !0x30_0000u64 == cpacr & !0x30_0000u64,
{
    let r = cpacr | 0x30_0000;
    assert((r >> 20u64) & 3 == 3 && r & !0x30_0000u64 == cpacr & !0x30_0000u64) by (bit_vector)
        requires
            r == cpacr | 0x30_0000u64,
    ;
    r
}

/// `SCTLR_EL1` with the MMU and both caches on: `M` (bit 0), `C` (bit 2)
/// and `I` (bit 12) set, the other bits kept.
pub fn mmu_enable_bits(sctlr: u64) -> (r: u64)
    ensures
        r == sctlr | 0x1005,
        r & 1 == 1 && (r >> 2u64) & 1 == 1 && (r >> 12u64) & 1 == 1,
        r & !0x1005u64 == sctlr & !0x1005u64,
{
    let r = sctlr | 0x1 | 0x4 | 0x1000;
    assert(r == sctlr | 0x1005 && r & 1 == 1 && (r >> 2u64) & 1 == 1 && (r >> 12u64) & 1 == 1 && r
        & !0x1005u64 == sctlr & !0x1005u64) by (bit_vector)
        requires
            r == sctlr | 0x1u64 | 0x4u64 | 0x1000u64,
    ;
    r
}

} // verus!
