use lib::drivers::mmio::MmioOp;
use lib::drivers::pl011::{
    cr, fr, intr, lcr_h, Config, Error, FifoLevel, Parity, Pl011, Pl011Regs, StopBits, CR, DR,
    FBRD, FR, IBRD, ICR, IFLS, IMSC, LCR_H, RSR_ECR,
};

#[test]
fn wlen_encodes_word_length() {
    assert_eq!(lcr_h::wlen(5), 0b00 << 5);
    assert_eq!(lcr_h::wlen(6), 0b01 << 5);
    assert_eq!(lcr_h::wlen(7), 0b10 << 5);
    assert_eq!(lcr_h::wlen(8), 0b11 << 5);
}

#[test]
fn config_new_is_115200_8n1() {
    let c = Config::new(24_000_000);
    assert_eq!(c.clock_hz, 24_000_000);
    assert_eq!(c.baud, 115_200);
    assert_eq!(c.data_bits, 8);
    assert_eq!(c.parity, Parity::NoParity);
    assert_eq!(c.stop_bits, StopBits::One);
    assert!(c.fifo);
    assert!(!c.flow_control);
    assert_eq!(c.rx_trigger, FifoLevel::Half);
    assert_eq!(c.tx_trigger, FifoLevel::Half);
}

#[test]
fn builders_change_one_field() {
    let c = Config::new(1)
        .baud(9600)
        .data_bits(7)
        .parity(Parity::Even)
        .stop_bits(StopBits::Two)
        .fifo(false)
        .flow_control(true);
    assert_eq!(c.clock_hz, 1);
    assert_eq!(c.baud, 9600);
    assert_eq!(c.data_bits, 7);
    assert_eq!(c.parity, Parity::Even);
    assert_eq!(c.stop_bits, StopBits::Two);
    assert!(!c.fifo);
    assert!(c.flow_control);
    assert_eq!(c.rx_trigger, FifoLevel::Half);
}

#[test]
fn divisors_for_console() {
    // 24 MHz / (16 * 115200) = 13.02: IBRD 13, FBRD round(0.02 * 64) = 1.
    let c = Config::new(24_000_000);
    assert_eq!(c.divisors(), (13, 1));
}

#[test]
fn divisors_half_fraction() {
    // 48 MHz / (16 * 9600) = 312.5: IBRD 312, FBRD 32.
    let c = Config::new(48_000_000).baud(9600);
    let (i, f) = c.divisors();
    assert_eq!((i, f), (312, 32));
    assert_eq!(64 * i + f, ((8 * 48_000_000 / 9600) + 1) / 2);
}

#[test]
fn divisors_fraction_carries_into_integer() {
    // 255 Hz / (16 * 8) = 1.992: rounds to 2 + 0/64, never FBRD 64.
    let c = Config::new(255).baud(8);
    assert_eq!(c.divisors(), (2, 0));
}

#[test]
fn lcr_h_bits_default() {
    assert_eq!(Config::new(24_000_000).lcr_h_bits(), 0x70);
}

#[test]
fn lcr_h_bits_even_two_stop_seven_bits() {
    let c = Config::new(24_000_000)
        .data_bits(7)
        .parity(Parity::Even)
        .stop_bits(StopBits::Two)
        .fifo(false);
    let v = c.lcr_h_bits();
    assert_eq!(v, 0x4E);
    assert_eq!((v >> 5) & 3, 2);
    assert_ne!(v & lcr_h::PEN, 0);
    assert_ne!(v & lcr_h::EPS, 0);
    assert_ne!(v & lcr_h::STP2, 0);
    assert_eq!(v & lcr_h::FEN, 0);
}

#[test]
fn lcr_h_bits_odd_five_bits() {
    let c = Config::new(24_000_000).data_bits(5).parity(Parity::Odd);
    assert_eq!(c.lcr_h_bits(), 0x12);
}

fn console_init_ops(flow: bool) -> Vec<MmioOp> {
    vec![
        MmioOp::Write { offset: CR, value: 0 },
        MmioOp::WaitClear { offset: FR, mask: fr::BUSY },
        MmioOp::ClearBits { offset: LCR_H, mask: lcr_h::FEN },
        MmioOp::Write { offset: IMSC, value: 0 },
        MmioOp::Write { offset: ICR, value: intr::ALL },
        MmioOp::Write { offset: IBRD, value: 13 },
        MmioOp::Write { offset: FBRD, value: 1 },
        MmioOp::Write { offset: LCR_H, value: 0x70 },
        MmioOp::Write { offset: IFLS, value: 0x12 },
        MmioOp::Write { offset: CR, value: if flow { 0xC301 } else { 0x301 } },
    ]
}

#[test]
fn init_follows_trm_order() {
    let mut u = Pl011::new(0x0900_0000);
    let ops = u.init(&Config::new(24_000_000));
    assert_eq!(ops, console_init_ops(false));
    assert_eq!(u.base(), 0x0900_0000);
}

#[test]
fn init_with_flow_control() {
    let mut u = Pl011::new(0x0900_0000);
    let ops = u.init(&Config::new(24_000_000).flow_control(true));
    assert_eq!(ops, console_init_ops(true));
    assert_eq!(ops[9], MmioOp::Write { offset: CR, value: cr::UARTEN | cr::TXE | cr::RXE | cr::RTSEN | cr::CTSEN });
}

#[test]
fn init_programs_register_file() {
    let mut regs = Pl011Regs::zeroed();
    regs.lcr_h = 0x7F;
    regs.imsc = 0x7FF;
    let mut u = Pl011::new(0x0900_0000);
    let cfg = Config::new(48_000_000).baud(9600).parity(Parity::Odd);
    for op in u.init(&cfg) {
        regs.apply(op);
    }
    assert_eq!(regs.ibrd, 312);
    assert_eq!(regs.fbrd, 32);
    assert_eq!(regs.lcr_h, cfg.lcr_h_bits());
    assert_eq!(regs.cr, 0x301);
    assert_eq!(regs.imsc, 0);
    assert_eq!(regs.icr, 0x7FF);
    assert_eq!(regs.ifls, 0x12);
}

#[test]
fn regs_read_write() {
    let mut regs = Pl011Regs::zeroed();
    regs.write(IBRD, 7);
    assert_eq!(regs.read(IBRD), 7);
    assert_eq!(regs.ibrd, 7);
    assert_eq!(regs.read(FBRD), 0);
}

#[test]
fn disable_after_enable_restores_mask() {
    let mut regs = Pl011Regs::zeroed();
    regs.imsc = intr::TX;
    let mut u = Pl011::new(0);
    for op in u.enable_interrupts(intr::RX | intr::RT) {
        regs.apply(op);
    }
    assert_eq!(regs.imsc, intr::TX | intr::RX | intr::RT);
    for op in u.disable_interrupts(intr::RX | intr::RT) {
        regs.apply(op);
    }
    assert_eq!(regs.imsc, intr::TX);
}

#[test]
fn interrupt_ops() {
    let mut u = Pl011::new(0);
    assert_eq!(u.enable_interrupts(intr::ERRORS), vec![MmioOp::SetBits { offset: IMSC, mask: 0x780 }]);
    assert_eq!(u.disable_interrupts(intr::ALL), vec![MmioOp::ClearBits { offset: IMSC, mask: 0x7FF }]);
    assert_eq!(u.clear_interrupts(intr::RX), vec![MmioOp::Write { offset: ICR, value: 0x10 }]);
}

#[test]
fn read_byte_empty_would_block() {
    let mut u = Pl011::new(0);
    let r = u.read_byte(fr::RXFE);
    assert_eq!(r.unwrap_err(), Error::WouldBlock);
}

#[test]
fn read_byte_ok() {
    let mut u = Pl011::new(0);
    let ready = u.read_byte(fr::TXFE).unwrap();
    let (r, ops) = u.receive(ready, 0x41);
    assert_eq!(r, Ok(b'A'));
    assert!(ops.is_empty());
}

#[test]
fn read_byte_errors_in_priority_order() {
    let mut u = Pl011::new(0);
    let clear = vec![MmioOp::Write { offset: RSR_ECR, value: 0 }];
    for (dr, e) in [
        (0x841, Error::Overrun),
        (0x441, Error::Break),
        (0x241, Error::Parity),
        (0x141, Error::Framing),
        (0xF41, Error::Overrun),
        (0x641, Error::Break),
    ] {
        let ready = u.read_byte(0).unwrap();
        assert_eq!(u.receive(ready, dr), (Err(e), clear.clone()));
    }
}

#[test]
fn read_byte_blocking_polls() {
    let mut u = Pl011::new(0);
    assert!(u.read_byte_blocking(fr::RXFE).is_none());
    let ready = u.read_byte_blocking(0).unwrap();
    assert_eq!(u.receive(ready, 0x7A), (Ok(b'z'), vec![]));
}

#[test]
fn raw_flags_and_interrupt_status() {
    let u = Pl011::new(0);
    assert_eq!(u.flags(fr::TXFE | fr::RXFE), 0x90);
    assert_eq!(u.interrupt_status(intr::RX | intr::OE), 0x410);
}

#[test]
fn try_write_byte_full_returns_byte() {
    let mut u = Pl011::new(0);
    assert_eq!(u.try_write_byte(fr::TXFF, b'x'), Err(b'x'));
    assert_eq!(u.try_write_byte(fr::TXFE, b'x'), Ok(vec![MmioOp::Write { offset: DR, value: 0x78 }]));
}

#[test]
fn write_byte_waits_for_room() {
    let mut u = Pl011::new(0);
    assert_eq!(
        u.write_byte(b'q'),
        vec![MmioOp::WaitClear { offset: FR, mask: fr::TXFF }, MmioOp::Write { offset: DR, value: b'q' as u32 }]
    );
}

#[test]
fn write_bytes_in_order() {
    let mut u = Pl011::new(0);
    let ops = u.write_bytes(b"hi");
    assert_eq!(ops.len(), 4);
    assert_eq!(ops[1], MmioOp::Write { offset: DR, value: b'h' as u32 });
    assert_eq!(ops[3], MmioOp::Write { offset: DR, value: b'i' as u32 });
    assert!(u.write_bytes(b"").is_empty());
}

fn written(ops: &[MmioOp]) -> Vec<u8> {
    ops.iter()
        .filter_map(|op| match op {
            MmioOp::Write { offset, value } if *offset == DR => Some(*value as u8),
            _ => None,
        })
        .collect()
}

#[test]
fn write_str_expands_newlines() {
    let mut u = Pl011::new(0);
    assert_eq!(written(&u.write_str(b"a\nb\n")), b"a\r\nb\r\n".to_vec());
    assert_eq!(written(&u.write_str(b"no newline")), b"no newline".to_vec());
    assert_eq!(u.write_str(b"\n").len(), 4);
}

#[test]
fn write_str_piecewise_equals_whole() {
    let mut u = Pl011::new(0);
    let mut parts = u.write_str(b"ab\n");
    parts.extend(u.write_str(b"\ncd"));
    assert_eq!(parts, u.write_str(b"ab\n\ncd"));
}

#[test]
fn flush_and_disable() {
    let mut u = Pl011::new(0);
    assert_eq!(u.flush(), vec![MmioOp::WaitClear { offset: FR, mask: fr::BUSY }]);
    assert_eq!(
        u.disable(),
        vec![MmioOp::WaitClear { offset: FR, mask: fr::BUSY }, MmioOp::Write { offset: CR, value: 0 }]
    );
}

#[test]
fn status_bits() {
    let u = Pl011::new(0);
    assert!(u.tx_full(fr::TXFF | fr::BUSY));
    assert!(!u.tx_full(fr::TXFE));
    assert!(u.rx_empty(fr::RXFE));
    assert!(!u.rx_empty(fr::RXFF));
    assert!(u.busy(fr::BUSY));
    assert!(!u.busy(0));
}

#[test]
fn fifo_level_bits() {
    assert_eq!(FifoLevel::Eighth.bits(), 0);
    assert_eq!(FifoLevel::Quarter.bits(), 1);
    assert_eq!(FifoLevel::Half.bits(), 2);
    assert_eq!(FifoLevel::ThreeQuarters.bits(), 3);
    assert_eq!(FifoLevel::SevenEighths.bits(), 4);
}

#[test]
fn regs_address() {
    let u = Pl011::new(0x0900_0000);
    assert_eq!(u.regs(FR), 0x0900_0018);
}
