//! Decoding synchronous exceptions taken at EL1.
use vstd::prelude::*;

verus! {

/// Exception class: data abort taken without a change in exception level.
pub const EC_DATA_ABORT_SAME_EL: u64 = 0x25;
/// Exception class: data abort from a lower exception level.
pub const EC_DATA_ABORT_LOWER_EL: u64 = 0x24;
/// Exception class: instruction abort from a lower exception level.
pub const EC_INSTRUCTION_ABORT_LOWER_EL: u64 = 0x20;

/// What a synchronous exception is, from `ESR_EL1`.
#[derive(Clone, Copy, PartialEq, Eq, Debug, Structural)]
pub enum SyncException {
    /// A data abort at EL1: a page fault. `translation` when the fault
    /// status code says translation fault (levels 0 to 3); `write` when
    /// the access was a write.
    PageFault { translation: bool, write: bool },
    /// A data abort from a lower level.
    DataAbort,
    /// An instruction abort from a lower level.
    InstructionAbort,
    /// Any other exception class.
    Unknown { ec: u64 },
}

/// The exception class: `ESR_EL1` bits 31:26.
pub open spec fn exception_class(esr: u64) -> u64 {
    (esr >> 26u64) & 0x3F
}

/// The data fault status code: bits 5:0.
pub open spec fn fault_status(esr: u64) -> u64 {
    esr & 0x3F
}

/// The write-not-read bit: bit 6.
pub open spec fn write_not_read(esr: u64) -> bool {
    (esr >> 6u64) & 1 == 1
}

/// The class of the synchronous exception whose syndrome is `esr`.
pub open spec fn sync_class(esr: u64) -> SyncException {
    if exception_class(esr) == EC_DATA_ABORT_SAME_EL {
        SyncException::PageFault {
            translation: 4 <= fault_status(esr) <= 7,
            write: write_not_read(esr),
        }
    } else if exception_class(esr) == EC_DATA_ABORT_LOWER_EL {
        SyncException::DataAbort
    } else if exception_class(esr) == EC_INSTRUCTION_ABORT_LOWER_EL {
        SyncException::InstructionAbort
    } else {
        SyncException::Unknown { ec: exception_class(esr) }
    }
}

/// Classify a synchronous exception from its syndrome register.
pub fn classify_sync(esr: u64) -> (r: SyncException)
    ensures
        r == sync_class(esr),
{
    let ec = (esr >> 26) & 0x3F;
    if ec == EC_DATA_ABORT_SAME_EL {
        let dfsc = esr & 0x3F;
        let is_translation_fault = 0b000100 <= dfsc && dfsc <= 0b000111;
        let is_write = (esr >> 6) & 1 == 1;
        SyncException::PageFault { translation: is_translation_fault, write: is_write }
    } else if ec == EC_DATA_ABORT_LOWER_EL {
        SyncException::DataAbort
    } else if ec == EC_INSTRUCTION_ABORT_LOWER_EL {
        SyncException::InstructionAbort
    } else {
        SyncException::Unknown { ec }
    }
}

/// How a syndrome is classified, bit by bit: a page fault exactly when
/// bits 31:26 are 0x25; then a translation fault exactly when all six DFSC
/// bits 5:0 lie in 0b000100..=0b000111, that is bits 5:2 are 0b0001 (so a
/// permission fault, 0b0011xx, is none), and a write exactly when bit 6 is
/// set. Bits 25:7 play no part, and any other class carries bits 31:26.
pub proof fn lemma_sync_class_bits(esr: u64)
    ensures
        sync_class(esr) is PageFault <==> esr & 0xFC00_0000 == 0x9400_0000,
        sync_class(esr) matches SyncException::PageFault { translation, write } ==> (translation <==> esr
            & 0x3C == 0x04) && (write <==> esr & 0x40 != 0),
        (esr & 0xFC00_0000 == 0x9000_0000) <==> sync_class(esr) is DataAbort,
        (esr & 0xFC00_0000 == 0x8000_0000) <==> sync_class(esr) is InstructionAbort,
        sync_class(esr) matches SyncException::Unknown { ec } ==> ec * 0x400_0000 == esr & 0xFC00_0000,
        sync_class(esr) == sync_class(esr & 0xFC00_007F),
{
    let m = esr & 0xFC00_007F;
    assert(((esr >> 26u64) & 0x3F == 0x25) == (esr & 0xFC00_0000 == 0x9400_0000)) by (bit_vector);
    assert(((esr >> 26u64) & 0x3F == 0x24) == (esr & 0xFC00_0000 == 0x9000_0000)) by (bit_vector);
    assert(((esr >> 26u64) & 0x3F == 0x20) == (esr & 0xFC00_0000 == 0x8000_0000)) by (bit_vector);
    assert(((esr >> 26u64) & 0x3F) * 0x400_0000 == esr & 0xFC00_0000) by (bit_vector);
    assert((4 <= esr & 0x3F && esr & 0x3F <= 7) == (esr & 0x3C == 0x04)) by (bit_vector);
    assert((((esr >> 6u64) & 1) == 1) == (esr & 0x40 != 0)) by (bit_vector);
    assert((m >> 26u64) & 0x3F == (esr >> 26u64) & 0x3F && m & 0x3F == esr & 0x3F && (m >> 6u64) & 1 == (esr
        >> 6u64) & 1) by (bit_vector)
        requires
            m == esr & 0xFC00_007F,
    ;
}

} // verus!
