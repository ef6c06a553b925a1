//! `LCR_H`: line control bits.
use vstd::prelude::*;

verus! {

/// Send break.
pub const BRK: u32 = 0x01;
/// Parity enable.
pub const PEN: u32 = 0x02;
/// Even parity select.
pub const EPS: u32 = 0x04;
/// Two stop bits.
pub const STP2: u32 = 0x08;
/// Enable FIFOs.
pub const FEN: u32 = 0x10;
/// Stick parity select.
pub const SPS: u32 = 0x80;

/// Word length field, bits 6:5: 5 bits -> 0b00, 6 -> 0b01, 7 -> 0b10, 8 -> 0b11.
pub fn wlen(bits: u32) -> (r: u32)
    requires
        bits >= 5,
    ensures
        r == ((bits - 5) % 4) * 32,
        5 <= bits <= 8 ==> r == (bits - 5) * 32,
{
    let x: u32 = bits - 5;
    assert((x & 3) << 5 == (x % 4) * 32) by (bit_vector);
    (x & 0b11) << 5
}

} // verus!
