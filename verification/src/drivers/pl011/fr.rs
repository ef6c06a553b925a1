//! `FR`: flag register bits.
use vstd::prelude::*;

verus! {

/// Clear to send.
pub const CTS: u32 = 0x001;
/// Data set ready.
pub const DSR: u32 = 0x002;
/// Data carrier detect.
pub const DCD: u32 = 0x004;
/// Transmitter busy (set while a character is still shifting out).
pub const BUSY: u32 = 0x008;
/// Receive FIFO empty.
pub const RXFE: u32 = 0x010;
/// Transmit FIFO full.
pub const TXFF: u32 = 0x020;
/// Receive FIFO full.
pub const RXFF: u32 = 0x040;
/// Transmit FIFO empty.
pub const TXFE: u32 = 0x080;
/// Ring indicator.
pub const RI: u32 = 0x100;

} // verus!
