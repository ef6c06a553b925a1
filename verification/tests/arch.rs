use lib::arch::aarch64::context::Context;
use lib::arch::aarch64::exceptions::{classify_sync, SyncException};
use lib::arch::aarch64::spinlock::SpinMutex;
use lib::arch::aarch64::{current_el, enable_fp, mmu_enable_bits};
use lib::boards::qemu_virt;
use lib::drivers::mmio::MmioOp;
use std::sync::atomic::AtomicBool;

#[test]
fn current_el_field() {
    assert_eq!(current_el(0b0100), 1);
    assert_eq!(current_el(0b1000), 2);
    assert_eq!(current_el(0b1111), 3);
    assert_eq!(current_el(0), 0);
}

#[test]
fn enable_fp_sets_fpen() {
    assert_eq!(enable_fp(0), 0x30_0000);
    assert_eq!(enable_fp(0x10_0001), 0x30_0001);
}

#[test]
fn classify_page_faults() {
    let esr = (0x25u64 << 26) | (1 << 6) | 0b000101;
    assert_eq!(classify_sync(esr), SyncException::PageFault { translation: true, write: true });
    let esr = (0x25u64 << 26) | 0b100001;
    assert_eq!(classify_sync(esr), SyncException::PageFault { translation: false, write: false });
    let esr = (0x25u64 << 26) | 0b000111;
    assert_eq!(classify_sync(esr), SyncException::PageFault { translation: true, write: false });
    let esr = (0x25u64 << 26) | 0b000011;
    assert_eq!(classify_sync(esr), SyncException::PageFault { translation: false, write: false });
}

#[test]
fn classify_other_aborts() {
    assert_eq!(classify_sync(0x24u64 << 26), SyncException::DataAbort);
    assert_eq!(classify_sync(0x20u64 << 26), SyncException::InstructionAbort);
    assert_eq!(classify_sync(0x15u64 << 26), SyncException::Unknown { ec: 0x15 });
    assert_eq!(classify_sync(1u64 << 32 | 0x20u64 << 26), SyncException::InstructionAbort);
}

#[test]
fn context_new() {
    let c = Context::new(0x1000, 0x2000, 0x3000);
    assert_eq!(c.x19, 0x1000);
    assert_eq!(c.lr, 0x2000);
    assert_eq!(c.sp, 0x3000);
    assert_eq!(c.x20, 0);
    assert_eq!(c.x28, 0);
    assert_eq!(c.fp, 0);
    assert_eq!(Context::zeroed(), Context::new(0, 0, 0));
}

#[test]
fn spinlock_hands_back_irq_state() {
    let m = SpinMutex::new();
    let g = m.try_lock(0x3C0).ok().unwrap();
    assert_eq!(g.irq_state(), 0x3C0);
    assert!(m.is_locked());
    assert_eq!(m.try_lock(0x40).err(), Some(0x40));
    assert_eq!(m.unlock(g), 0x3C0);
    assert!(!m.is_locked());
    let g = loop {
        match m.lock(0x80) {
            Ok(g) => break g,
            Err(s) => assert_eq!(s, 0x80),
        }
    };
    assert_eq!(m.lock(0x81).err(), Some(0x81));
    m.force_unlock();
    assert!(!m.is_locked());
    assert_eq!(g.irq_state(), 0x80);
}

#[test]
fn uart0_taken_once() {
    let taken = AtomicBool::new(false);
    let (u, ops) = qemu_virt::init(&taken).unwrap();
    assert_eq!(u.base(), qemu_virt::UART0_BASE);
    assert_eq!(ops.len(), 10);
    assert!(qemu_virt::init(&taken).is_none());
    assert!(qemu_virt::take_uart0(&taken).is_none());
}

#[test]
fn console_config_is_default() {
    let c = qemu_virt::console_config();
    assert_eq!(c.baud, 115_200);
    assert_eq!(c.clock_hz, qemu_virt::UART_CLK_HZ);
    assert_eq!(c.divisors(), (13, 1));
}

#[test]
fn uart0_hand_out_follows_taken_flag() {
    assert!(qemu_virt::hand_out_uart0(true).is_none());
    let u = qemu_virt::hand_out_uart0(false).unwrap();
    assert_eq!(u.base(), 0x0900_0000);
}

#[test]
fn console_set_up_from_claim() {
    assert!(qemu_virt::init_console(None).is_none());
    let (u, ops) = qemu_virt::init_console(qemu_virt::hand_out_uart0(false)).unwrap();
    assert_eq!(u.base(), qemu_virt::UART0_BASE);
    assert_eq!(ops.len(), 10);
    assert_eq!(ops[0], MmioOp::Write { offset: 0x30, value: 0 });
    assert_eq!(ops[5], MmioOp::Write { offset: 0x24, value: 13 });
    assert_eq!(ops[6], MmioOp::Write { offset: 0x28, value: 1 });
}

#[test]
fn mmu_enable_sets_m_c_i() {
    assert_eq!(mmu_enable_bits(0), 0x1005);
    assert_eq!(mmu_enable_bits(0x30D0_0800), 0x30D0_1805);
    assert_eq!(mmu_enable_bits(0x1005), 0x1005);
}
