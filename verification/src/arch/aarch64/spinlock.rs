//! A spinning lock word with the interrupt-mask hand-off of its holders.
//!
//! Taking the lock starts with interrupts masked; the caller reads `DAIF`
//! before masking and hands that value in. The guard keeps it, and
//! releasing the lock (or failing to take it) hands the same value back
//! for the caller to restore.
use vstd::prelude::*;
use core::sync::atomic::{AtomicBool, Ordering};

verus! {

/// The lock word: `true` while held.
pub struct SpinMutex {
    pub locked: AtomicBool,
}

/// Proof of holding a `SpinMutex`, with the `DAIF` value to restore on
/// release.
pub struct SpinGuard {
    irq_state: u64,
}

impl SpinGuard {
    /// The `DAIF` value saved when the lock was taken.
    pub closed spec fn saved(&self) -> u64 {
        self.irq_state
    }

    /// The `DAIF` value saved when the lock was taken.
    pub fn irq_state(&self) -> (r: u64)
        ensures
            r == self.saved(),
    {
        self.irq_state
    }
}

impl SpinMutex {
    /// An unlocked lock: the lock word starts `false`. The contract leaves
    /// that unsaid: vstd gives `AtomicBool::new` no statement about the
    /// value stored, and a spec function over the word's contents would not
    /// survive the stores made through `&self`.
    pub fn new() -> (r: Self) {
        SpinMutex { locked: AtomicBool::new(false) }
    }

    /// One attempt to take the lock as part of a spin (a weak
    /// compare-exchange, which may fail spuriously). On failure the saved
    /// `irq_state` comes back: keep interrupts masked, wait while
    /// `is_locked`, and try again.
    pub fn lock(&self, irq_state: u64) -> (r: Result<SpinGuard, u64>)
        ensures
            match r {
                Ok(g) => g.saved() == irq_state,
                Err(s) => s == irq_state,
            },
    {
        match self.locked.compare_exchange_weak(false, true, Ordering::Acquire, Ordering::Relaxed) {
            Ok(_) => Ok(SpinGuard { irq_state }),
            Err(_) => Err(irq_state),
        }
    }

    /// Take the lock only if it is uncontended. Useful in a panic handler,
    /// where blocking forever is worse than garbled output. On failure the
    /// saved `irq_state` comes back for the caller to restore.
    pub fn try_lock(&self, irq_state: u64) -> (r: Result<SpinGuard, u64>)
        ensures
            match r {
                Ok(g) => g.saved() == irq_state,
                Err(s) => s == irq_state,
            },
    {
        match self.locked.compare_exchange(false, true, Ordering::Acquire, Ordering::Relaxed) {
            Ok(_) => Ok(SpinGuard { irq_state }),
            Err(_) => Err(irq_state),
        }
    }

    /// Whether the lock is held right now (a relaxed read, for spinning).
    /// The answer is the word's value at the moment of the load, which other
    /// cores change at any time, so the contract states nothing of it.
    pub fn is_locked(&self) -> bool {
        self.locked.load(Ordering::Relaxed)
    }

    /// Release the lock held through `guard`, returning the `DAIF` value
    /// to restore.
    pub fn unlock(&self, guard: SpinGuard) -> (r: u64)
        ensures
            r == guard.saved(),
    {
        self.locked.store(false, Ordering::Release);
        guard.irq_state
    }

    /// Break the lock open. Only for a panic handler that has given up on
    /// the rest of the system: any live guard elsewhere is now aliasing.
    pub fn force_unlock(&self) {
        self.locked.store(false, Ordering::Release);
    }
}

} // verus!
