//! Register accesses that a driver asks its caller to perform.
//!
//! The drivers in this crate never touch a device themselves: each
//! operation returns the list of accesses, in order, relative to the
//! device's base address. `apply` and `apply_all` say what those accesses
//! do to the register values the driver has programmed.
use vstd::prelude::*;

verus! {

/// One access to a 32-bit device register at `offset` from the base.
#[derive(Clone, Copy, PartialEq, Eq, Debug, Structural)]
pub enum MmioOp {
    /// Store `value`.
    Write { offset: usize, value: u32 },
    /// Read the register and store it back with the bits of `mask` set.
    SetBits { offset: usize, mask: u32 },
    /// Read the register and store it back with the bits of `mask` cleared.
    ClearBits { offset: usize, mask: u32 },
    /// Read the register until none of the bits of `mask` are set.
    WaitClear { offset: usize, mask: u32 },
}

/// The effect of one access on the programmed register values, seen as a
/// function from offset to the value last stored there.
pub open spec fn apply(regs: spec_fn(usize) -> u32, op: MmioOp) -> spec_fn(usize) -> u32 {
    match op {
        MmioOp::Write { offset, value } => |o: usize| if o == offset { value } else { regs(o) },
        MmioOp::SetBits { offset, mask } => |o: usize|
            if o == offset { regs(o) | mask } else { regs(o) },
        MmioOp::ClearBits { offset, mask } => |o: usize|
            if o == offset { regs(o) & !mask } else { regs(o) },
        MmioOp::WaitClear { .. } => regs,
    }
}

/// The effect of a sequence of accesses, first to last.
pub open spec fn apply_all(regs: spec_fn(usize) -> u32, ops: Seq<MmioOp>) -> spec_fn(usize) -> u32
    decreases ops.len(),
{
    if ops.len() == 0 {
        regs
    } else {
        apply_all(apply(regs, ops[0]), ops.skip(1))
    }
}

/// The offset an access goes to.
pub open spec fn op_offset(op: MmioOp) -> usize {
    match op {
        MmioOp::Write { offset, .. } => offset,
        MmioOp::SetBits { offset, .. } => offset,
        MmioOp::ClearBits { offset, .. } => offset,
        MmioOp::WaitClear { offset, .. } => offset,
    }
}

/// Carrying out the accesses from position `k` on is carrying out the
/// access at `k`, then those after it.
pub proof fn lemma_apply_all_step(regs: spec_fn(usize) -> u32, ops: Seq<MmioOp>, k: int)
    requires
        0 <= k < ops.len(),
    ensures
        apply_all(regs, ops.skip(k)) == apply_all(apply(regs, ops[k]), ops.skip(k + 1)),
{
    assert(ops.skip(k).skip(1) =~= ops.skip(k + 1));
    assert(ops.skip(k)[0] == ops[k]);
}

} // verus!
