//! `IMSC` / `RIS` / `MIS` / `ICR`: interrupt bits (same layout in all four).
use vstd::prelude::*;

verus! {

pub const RIM: u32 = 0x001;
pub const CTSM: u32 = 0x002;
pub const DCDM: u32 = 0x004;
pub const DSRM: u32 = 0x008;
/// Receive interrupt.
pub const RX: u32 = 0x010;
/// Transmit interrupt.
pub const TX: u32 = 0x020;
/// Receive timeout.
pub const RT: u32 = 0x040;
/// Framing error.
pub const FE: u32 = 0x080;
/// Parity error.
pub const PE: u32 = 0x100;
/// Break error.
pub const BE: u32 = 0x200;
/// Overrun error.
pub const OE: u32 = 0x400;

/// Every interrupt source.
pub const ALL: u32 = 0x7FF;
/// All error sources.
pub const ERRORS: u32 = 0x780;

} // verus!
