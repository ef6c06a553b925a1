//! `CR`: control register bits.
use vstd::prelude::*;

verus! {

/// UART enable.
pub const UARTEN: u32 = 0x0001;
pub const SIREN: u32 = 0x0002;
pub const SIRLP: u32 = 0x0004;
/// Loopback enable.
pub const LBE: u32 = 0x0080;
/// Transmit enable.
pub const TXE: u32 = 0x0100;
/// Receive enable.
pub const RXE: u32 = 0x0200;
pub const DTR: u32 = 0x0400;
pub const RTS: u32 = 0x0800;
pub const OUT1: u32 = 0x1000;
pub const OUT2: u32 = 0x2000;
/// RTS hardware flow control enable.
pub const RTSEN: u32 = 0x4000;
/// CTS hardware flow control enable.
pub const CTSEN: u32 = 0x8000;

} // verus!
