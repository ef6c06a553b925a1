//! Callee-saved register state of a task.
use vstd::prelude::*;

verus! {

/// List of registers on AArch64 to save when switching context.
/// Offsets: x19..x28 = 0..72, fp = 80, lr = 88, sp = 96.
#[derive(Clone, Copy, PartialEq, Eq, Debug, Structural)]
pub struct Context {
    pub x19: u64,
    pub x20: u64,
    pub x21: u64,
    pub x22: u64,
    pub x23: u64,
    pub x24: u64,
    pub x25: u64,
    pub x26: u64,
    pub x27: u64,
    pub x28: u64,
    pub fp: u64,
    pub lr: u64,
    pub sp: u64,
}

/// The context a new task starts from: every register zero but the entry
/// point (in x19), the return address (the trampoline that calls x19) and
/// the stack pointer.
pub open spec fn initial_context(entry: u64, trampoline: u64, stack_top: u64) -> Context {
    Context {
        x19: entry,
        x20: 0,
        x21: 0,
        x22: 0,
        x23: 0,
        x24: 0,
        x25: 0,
        x26: 0,
        x27: 0,
        x28: 0,
        fp: 0,
        lr: trampoline,
        sp: stack_top,
    }
}

impl Context {
    /// All registers zero.
    pub fn zeroed() -> (r: Self)
        ensures
            r == initial_context(0, 0, 0),
    {
        Context {
            x19: 0,
            x20: 0,
            x21: 0,
            x22: 0,
            x23: 0,
            x24: 0,
            x25: 0,
            x26: 0,
            x27: 0,
            x28: 0,
            fp: 0,
            lr: 0,
            sp: 0,
        }
    }

    /// The context of a task that starts at address `entry`: the first
    /// switch to it returns into `trampoline`, which calls the entry stashed
    /// in x19 on the stack that ends at `stack_top`.
    pub fn new(entry: u64, trampoline: u64, stack_top: u64) -> (r: Self)
        ensures
            r == initial_context(entry, trampoline, stack_top),
    {
        Context { x19: entry, lr: trampoline, sp: stack_top, ..Context::zeroed() }
    }
}

/// A new task's first switch enters the trampoline (`lr`) on its own stack
/// (`sp` is the stack top) with its entry point in x19, the register the
/// trampoline calls; no other register carries anything (the frame pointer
/// too starts at 0, ending frame-pointer walks).
pub proof fn lemma_initial_context(entry: u64, trampoline: u64, stack_top: u64)
    ensures
        ({
            let c = initial_context(entry, trampoline, stack_top);
            &&& c.x19 == entry && c.lr == trampoline && c.sp == stack_top && c.fp == 0
            &&& c.x20 == 0 && c.x21 == 0 && c.x22 == 0 && c.x23 == 0 && c.x24 == 0
            &&& c.x25 == 0 && c.x26 == 0 && c.x27 == 0 && c.x28 == 0
        }),
{
}

} // verus!
