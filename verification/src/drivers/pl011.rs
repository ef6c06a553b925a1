//! ARM PrimeCell UART (PL011) driver logic.
//!
//! `Pl011` decides which register accesses each operation makes; the
//! accesses themselves are returned as [`MmioOp`]s, relative to the UART's
//! base address, for the caller to carry out in order.
use vstd::prelude::*;
use crate::drivers::mmio;
use crate::drivers::mmio::MmioOp;

pub mod cr;
pub mod fr;
pub mod intr;
pub mod lcr_h;

verus! {

// Register offsets from the base address (the layout of `Pl011Regs`).
/// Data register.
pub const DR: usize = 0x00;
/// Receive status / error clear.
pub const RSR_ECR: usize = 0x04;
/// Flag register.
pub const FR: usize = 0x18;
/// IrDA low-power counter.
pub const ILPR: usize = 0x20;
/// Integer baud rate divisor.
pub const IBRD: usize = 0x24;
/// Fractional baud rate divisor.
pub const FBRD: usize = 0x28;
/// Line control, high byte.
pub const LCR_H: usize = 0x2C;
/// Control register.
pub const CR: usize = 0x30;
/// Interrupt FIFO level select.
pub const IFLS: usize = 0x34;
/// Interrupt mask set/clear.
pub const IMSC: usize = 0x38;
/// Raw interrupt status.
pub const RIS: usize = 0x3C;
/// Masked interrupt status.
pub const MIS: usize = 0x40;
/// Interrupt clear.
pub const ICR: usize = 0x44;
/// DMA control.
pub const DMACR: usize = 0x48;

// Per-character error flags in bits 11:8 of a word read from `DR`.
/// Overrun error.
pub const DR_OE: u32 = 0x800;
/// Break error.
pub const DR_BE: u32 = 0x400;
/// Parity error.
pub const DR_PE: u32 = 0x200;
/// Framing error.
pub const DR_FE: u32 = 0x100;

/// The PL011 register block, one field per 32-bit register, in address
/// order. As a value it is the set of values programmed into a UART.
pub struct Pl011Regs {
    /// 0x00: data register.
    pub dr: u32,
    /// 0x04: receive status / error clear.
    pub rsr_ecr: u32,
    /// 0x08..0x18: reserved.
    pub reserved0: [u32; 4],
    /// 0x18: flag register.
    pub fr: u32,
    /// 0x1C: reserved.
    pub reserved1: u32,
    /// 0x20: IrDA low-power counter.
    pub ilpr: u32,
    /// 0x24: integer baud rate divisor.
    pub ibrd: u32,
    /// 0x28: fractional baud rate divisor.
    pub fbrd: u32,
    /// 0x2C: line control, high byte.
    pub lcr_h: u32,
    /// 0x30: control register.
    pub cr: u32,
    /// 0x34: interrupt FIFO level select.
    pub ifls: u32,
    /// 0x38: interrupt mask set/clear.
    pub imsc: u32,
    /// 0x3C: raw interrupt status.
    pub ris: u32,
    /// 0x40: masked interrupt status.
    pub mis: u32,
    /// 0x44: interrupt clear.
    pub icr: u32,
    /// 0x48: DMA control.
    pub dmacr: u32,
}

/// The offsets of the named registers.
pub open spec fn is_register(off: usize) -> bool {
    off == DR || off == RSR_ECR || off == FR || off == ILPR || off == IBRD || off == FBRD
        || off == LCR_H || off == CR || off == IFLS || off == IMSC || off == RIS || off == MIS
        || off == ICR || off == DMACR
}

impl Pl011Regs {
    /// All registers zero.
    pub fn zeroed() -> (r: Self)
        ensures
            forall|o: usize| #[trigger] r.get(o) == 0,
    {
        Pl011Regs {
            dr: 0,
            rsr_ecr: 0,
            reserved0: [0, 0, 0, 0],
            fr: 0,
            reserved1: 0,
            ilpr: 0,
            ibrd: 0,
            fbrd: 0,
            lcr_h: 0,
            cr: 0,
            ifls: 0,
            imsc: 0,
            ris: 0,
            mis: 0,
            icr: 0,
            dmacr: 0,
        }
    }

    /// The value of the named register at `off` (0 for any other offset).
    pub open spec fn get(&self, off: usize) -> u32 {
        if off == DR {
            self.dr
        } else if off == RSR_ECR {
            self.rsr_ecr
        } else if off == FR {
            self.fr
        } else if off == ILPR {
            self.ilpr
        } else if off == IBRD {
            self.ibrd
        } else if off == FBRD {
            self.fbrd
        } else if off == LCR_H {
            self.lcr_h
        } else if off == CR {
            self.cr
        } else if off == IFLS {
            self.ifls
        } else if off == IMSC {
            self.imsc
        } else if off == RIS {
            self.ris
        } else if off == MIS {
            self.mis
        } else if off == ICR {
            self.icr
        } else if off == DMACR {
            self.dmacr
        } else {
            0
        }
    }

    /// The registers as a function from offset to value.
    pub open spec fn view(&self) -> spec_fn(usize) -> u32 {
        |o: usize| self.get(o)
    }

    /// Read the register at `off`.
    pub fn read(&self, off: usize) -> (r: u32)
        requires
            is_register(off),
        ensures
            r == self.get(off),
    {
        if off == DR {
            self.dr
        } else if off == RSR_ECR {
            self.rsr_ecr
        } else if off == FR {
            self.fr
        } else if off == ILPR {
            self.ilpr
        } else if off == IBRD {
            self.ibrd
        } else if off == FBRD {
            self.fbrd
        } else if off == LCR_H {
            self.lcr_h
        } else if off == CR {
            self.cr
        } else if off == IFLS {
            self.ifls
        } else if off == IMSC {
            self.imsc
        } else if off == RIS {
            self.ris
        } else if off == MIS {
            self.mis
        } else if off == ICR {
            self.icr
        } else {
            self.dmacr
        }
    }

    /// Store `value` in the register at `off`; the others keep their values.
    pub fn write(&mut self, off: usize, value: u32)
        requires
            is_register(off),
        ensures
            forall|o: usize|
                #[trigger] final(self).get(o) == if o == off {
                    value
                } else {
                    old(self).get(o)
                },
    {
        if off == DR {
            self.dr = value;
        } else if off == RSR_ECR {
            self.rsr_ecr = value;
        } else if off == FR {
            self.fr = value;
        } else if off == ILPR {
            self.ilpr = value;
        } else if off == IBRD {
            self.ibrd = value;
        } else if off == FBRD {
            self.fbrd = value;
        } else if off == LCR_H {
            self.lcr_h = value;
        } else if off == CR {
            self.cr = value;
        } else if off == IFLS {
            self.ifls = value;
        } else if off == IMSC {
            self.imsc = value;
        } else if off == RIS {
            self.ris = value;
        } else if off == MIS {
            self.mis = value;
        } else if off == ICR {
            self.icr = value;
        } else {
            self.dmacr = value;
        }
    }

    /// Carry out one access on these register values. A `WaitClear` reads
    /// only, so it changes nothing.
    pub fn apply(&mut self, op: MmioOp)
        requires
            is_register(mmio::op_offset(op)),
        ensures
            forall|o: usize| #[trigger] final(self).get(o) == mmio::apply(old(self)@, op)(o),
    {
        match op {
            MmioOp::Write { offset, value } => self.write(offset, value),
            MmioOp::SetBits { offset, mask } => {
                let v = self.read(offset);
                self.write(offset, v | mask);
            },
            MmioOp::ClearBits { offset, mask } => {
                let v = self.read(offset);
                self.write(offset, v & !mask);
            },
            MmioOp::WaitClear { .. } => {},
        }
    }
}

#[derive(Clone, Copy, PartialEq, Eq, Debug, Structural)]
pub enum Parity {
    NoParity,
    Even,
    Odd,
}

#[derive(Clone, Copy, PartialEq, Eq, Debug, Structural)]
pub enum StopBits {
    One,
    Two,
}

/// Receive/transmit FIFO interrupt trigger level.
#[derive(Clone, Copy, PartialEq, Eq, Debug, Structural)]
pub enum FifoLevel {
    Eighth,
    Quarter,
    Half,
    ThreeQuarters,
    SevenEighths,
}

impl FifoLevel {
    /// The 3-bit `IFLS` field value of this level.
    pub open spec fn spec_bits(self) -> u32 {
        match self {
            FifoLevel::Eighth => 0,
            FifoLevel::Quarter => 1,
            FifoLevel::Half => 2,
            FifoLevel::ThreeQuarters => 3,
            FifoLevel::SevenEighths => 4,
        }
    }

    /// The 3-bit `IFLS` field value of this level.
    #[verifier::when_used_as_spec(spec_bits)]
    pub fn bits(self) -> (r: u32)
        ensures
            r == self.spec_bits(),
    {
        match self {
            FifoLevel::Eighth => 0,
            FifoLevel::Quarter => 1,
            FifoLevel::Half => 2,
            FifoLevel::ThreeQuarters => 3,
            FifoLevel::SevenEighths => 4,
        }
    }
}

#[derive(Clone, Copy, PartialEq, Eq, Debug, Structural)]
pub struct Config {
    pub clock_hz: u32,
    pub baud: u32,
    /// Data bits, 5..=8.
    pub data_bits: u32,
    pub parity: Parity,
    pub stop_bits: StopBits,
    /// Enable the 16-deep hardware FIFOs.
    pub fifo: bool,
    /// RTS/CTS hardware flow control.
    pub flow_control: bool,
    pub rx_trigger: FifoLevel,
    pub tx_trigger: FifoLevel,
}

/// `UARTCLK / (16 * baud)` in units of 1/128, rounded down: `(8 * clk) / baud`.
pub open spec fn scaled_divisor(clock_hz: u32, baud: u32) -> int {
    (8 * clock_hz) / (baud as int)
}

/// The `LCR_H` field values for a parity setting (`PEN`, plus `EPS` for even).
pub open spec fn parity_bits(p: Parity) -> u32 {
    match p {
        Parity::NoParity => 0,
        Parity::Even => 6,
        Parity::Odd => 2,
    }
}

/// The `IFLS` value for the two trigger levels: transmit in bits 2:0,
/// receive in bits 5:3.
pub open spec fn ifls_value(cfg: Config) -> u32 {
    (cfg.tx_trigger.spec_bits() + 8 * cfg.rx_trigger.spec_bits()) as u32
}

/// The `CR` value that enables the UART with transmit and receive, plus
/// RTS/CTS flow control when asked for.
pub open spec fn enable_value(flow_control: bool) -> u32 {
    if flow_control {
        0xC301
    } else {
        0x0301
    }
}

/// A configuration the hardware can be programmed with without overflow:
/// a non-zero baud rate, `8 * clock_hz` within 32 bits, at least 5 data bits.
pub open spec fn config_valid(cfg: Config) -> bool {
    &&& cfg.baud > 0
    &&& 8 * cfg.clock_hz <= u32::MAX
    &&& cfg.data_bits >= 5
}

proof fn lemma_lcr_h_fields(w: u32, f: u32, p: u32, s: u32)
    by (bit_vector)
    requires
        w == 0 || w == 32 || w == 64 || w == 96,
        f == 0 || f == 16,
        p == 0 || p == 2 || p == 6,
        s == 0 || s == 8,
    ensures
        (w | f | p | s) == w + f + p + s,
        ((w | f | p | s) >> 5) & 3 == w / 32,
        ((w | f | p | s) & 0x10 != 0) == (f == 16),
        ((w | f | p | s) & 0x02 != 0) == (p != 0),
        ((w | f | p | s) & 0x04 != 0) == (p == 6),
        ((w | f | p | s) & 0x08 != 0) == (s == 8),
        (w | f | p | s) & 0x01 == 0,
        (w | f | p | s) & 0x80 == 0,
        (w | f | p | s) < 128,
{
}

impl Config {
    /// 115200 8N1, FIFOs on, no flow control.
    pub fn new(clock_hz: u32) -> (r: Self)
        ensures
            r == (Config {
                clock_hz,
                baud: 115_200,
                data_bits: 8,
                parity: Parity::NoParity,
                stop_bits: StopBits::One,
                fifo: true,
                flow_control: false,
                rx_trigger: FifoLevel::Half,
                tx_trigger: FifoLevel::Half,
            }),
    {
        Config {
            clock_hz,
            baud: 115_200,
            data_bits: 8,
            parity: Parity::NoParity,
            stop_bits: StopBits::One,
            fifo: true,
            flow_control: false,
            rx_trigger: FifoLevel::Half,
            tx_trigger: FifoLevel::Half,
        }
    }

    pub fn baud(self, baud: u32) -> (r: Self)
        ensures
            r == (Config { baud, ..self }),
    {
        let mut c = self;
        c.baud = baud;
        c
    }

    pub fn data_bits(self, bits: u32) -> (r: Self)
        ensures
            r == (Config { data_bits: bits, ..self }),
    {
        let mut c = self;
        c.data_bits = bits;
        c
    }

    pub fn parity(self, parity: Parity) -> (r: Self)
        ensures
            r == (Config { parity, ..self }),
    {
        let mut c = self;
        c.parity = parity;
        c
    }

    pub fn stop_bits(self, stop: StopBits) -> (r: Self)
        ensures
            r == (Config { stop_bits: stop, ..self }),
    {
        let mut c = self;
        c.stop_bits = stop;
        c
    }

    pub fn fifo(self, on: bool) -> (r: Self)
        ensures
            r == (Config { fifo: on, ..self }),
    {
        let mut c = self;
        c.fifo = on;
        c
    }

    pub fn flow_control(self, on: bool) -> (r: Self)
        ensures
            r == (Config { flow_control: on, ..self }),
    {
        let mut c = self;
        c.flow_control = on;
        c
    }

    /// `UARTCLK / (16 * baud)` rounded to the nearest 1/64 (halves up), in
    /// units of 1/64: `((8 * clk) / baud + 1) / 2`.
    pub open spec fn spec_divisor64(self) -> int {
        (scaled_divisor(self.clock_hz, self.baud) + 1) / 2
    }

    /// The integer divisor `IBRD`: the whole part of the rounded divisor.
    pub open spec fn spec_ibrd(self) -> u32 {
        (self.spec_divisor64() / 64) as u32
    }

    /// The 6-bit fractional divisor `FBRD`: the rounded divisor's 1/64ths.
    pub open spec fn spec_fbrd(self) -> u32 {
        (self.spec_divisor64() % 64) as u32
    }

    /// Split `UARTCLK / (16 * baud)` into the integer and 6-bit fractional
    /// divisors. Computed as `(8 * clk) / baud`, which keeps the fraction in
    /// the low 7 bits and lets us round to 6 bits without floating point; a
    /// fraction that rounds up to a whole carries into the integer divisor.
    pub fn divisors(&self) -> (r: (u32, u32))
        requires
            self.baud > 0,
            8 * self.clock_hz <= u32::MAX,
        ensures
            r.0 == self.spec_ibrd(),
            r.1 == self.spec_fbrd(),
            64 * r.0 + r.1 == (scaled_divisor(self.clock_hz, self.baud) + 1) / 2,
            r.1 <= 63,
    {
        let div: u32 = (8 * self.clock_hz) / self.baud;
        let half: u32 = div / 2 + div % 2;
        assert(half == (div + 1) / 2);
        let ibrd: u32 = half >> 6;
        let fbrd: u32 = half & 0x3F;
        assert(half >> 6 == half / 64 && half & 0x3F == half % 64) by (bit_vector);
        (ibrd, fbrd)
    }

    /// The `LCR_H` value implied by this configuration: word length in
    /// bits 6:5, `FEN`, `PEN`/`EPS` for the parity, `STP2` for two stop bits.
    pub open spec fn spec_lcr_h_bits(self) -> u32 {
        ((((self.data_bits - 5) % 4) * 32) + (if self.fifo {
            16int
        } else {
            0
        }) + parity_bits(self.parity) + (if self.stop_bits == StopBits::Two {
            8int
        } else {
            0
        })) as u32
    }

    /// The `LCR_H` value implied by this config.
    pub fn lcr_h_bits(&self) -> (r: u32)
        requires
            self.data_bits >= 5,
        ensures
            r == self.spec_lcr_h_bits(),
            (r >> 5) & 3 == (self.data_bits - 5) % 4,
            (r & lcr_h::FEN != 0) == self.fifo,
            (r & lcr_h::PEN != 0) == (self.parity != Parity::NoParity),
            (r & lcr_h::EPS != 0) == (self.parity == Parity::Even),
            (r & lcr_h::STP2 != 0) == (self.stop_bits == StopBits::Two),
            r & lcr_h::BRK == 0,
            r & lcr_h::SPS == 0,
    {
        let w = lcr_h::wlen(self.data_bits);
        let f: u32 = if self.fifo {
            lcr_h::FEN
        } else {
            0
        };
        let p: u32 = match self.parity {
            Parity::NoParity => 0,
            Parity::Even => lcr_h::PEN + lcr_h::EPS,
            Parity::Odd => lcr_h::PEN,
        };
        let s: u32 = if self.stop_bits == StopBits::Two {
            lcr_h::STP2
        } else {
            0
        };
        proof {
            lemma_lcr_h_fields(w, f, p, s);
        }
        w | f | p | s
    }
}

#[derive(Clone, Copy, PartialEq, Eq, Debug, Structural)]
pub enum Error {
    /// No data in the receive FIFO.
    WouldBlock,
    /// FIFO overran; a byte was lost.
    Overrun,
    /// Bad stop bit.
    Framing,
    /// Parity mismatch.
    Parity,
    /// Line held low longer than a frame.
    Break,
}

/// What a word popped from `DR` means: the first error flag set, in the
/// order overrun, break, parity, framing, else the byte in bits 7:0.
pub open spec fn rx_word_result(dr: u32) -> Result<u8, Error> {
    if dr & DR_OE != 0 {
        Err(Error::Overrun)
    } else if dr & DR_BE != 0 {
        Err(Error::Break)
    } else if dr & DR_PE != 0 {
        Err(Error::Parity)
    } else if dr & DR_FE != 0 {
        Err(Error::Framing)
    } else {
        Ok((dr % 256) as u8)
    }
}

/// Every access of writing one byte: wait for room in the transmit FIFO,
/// then store the byte in `DR`.
pub open spec fn byte_ops(b: u8) -> Seq<MmioOp> {
    seq![MmioOp::WaitClear { offset: FR, mask: fr::TXFF }, MmioOp::Write { offset: DR, value: b as u32 }]
}

/// The accesses of writing every byte of `bytes`, in order.
pub open spec fn bytes_ops(bytes: Seq<u8>) -> Seq<MmioOp>
    decreases bytes.len(),
{
    if bytes.len() == 0 {
        seq![]
    } else {
        bytes_ops(bytes.drop_last()) + byte_ops(bytes.last())
    }
}

/// Console text: every `\n` preceded by a `\r`.
pub open spec fn crlf(s: Seq<u8>) -> Seq<u8>
    decreases s.len(),
{
    if s.len() == 0 {
        seq![]
    } else {
        crlf(s.drop_last()) + if s.last() == 10 {
            seq![13u8, 10u8]
        } else {
            seq![s.last()]
        }
    }
}

/// The full initialisation sequence the PL011 needs: disable, drain, flush
/// the FIFOs, mask and clear interrupts, program the divisors, then
/// `LCR_H` (which latches them), the FIFO levels, and enable.
pub open spec fn init_ops(cfg: Config) -> Seq<MmioOp> {
    seq![
        MmioOp::Write { offset: CR, value: 0 },
        MmioOp::WaitClear { offset: FR, mask: fr::BUSY },
        MmioOp::ClearBits { offset: LCR_H, mask: lcr_h::FEN },
        MmioOp::Write { offset: IMSC, value: 0 },
        MmioOp::Write { offset: ICR, value: intr::ALL },
        MmioOp::Write { offset: IBRD, value: cfg.spec_ibrd() },
        MmioOp::Write { offset: FBRD, value: cfg.spec_fbrd() },
        MmioOp::Write { offset: LCR_H, value: cfg.spec_lcr_h_bits() },
        MmioOp::Write { offset: IFLS, value: ifls_value(cfg) },
        MmioOp::Write { offset: CR, value: enable_value(cfg.flow_control) },
    ]
}

/// Leave to pop one word from `DR`: made only by `read_byte` when the flag
/// register showed the receive FIFO non-empty.
#[derive(Debug)]
pub struct RxReady {
    fr: u32,
}

impl RxReady {
    /// The flag register value that showed data.
    pub closed spec fn flags(&self) -> u32 {
        self.fr
    }
}

#[derive(Debug)]
pub struct Pl011 {
    base: usize,
}

impl Pl011 {
    /// A driver for the UART whose registers start at `base`.
    pub fn new(base: usize) -> (r: Self)
        ensures
            r.base() == base,
    {
        Pl011 { base }
    }

    /// The base address of the register block.
    pub closed spec fn spec_base(&self) -> usize {
        self.base
    }

    #[verifier::when_used_as_spec(spec_base)]
    pub fn base(&self) -> (r: usize)
        ensures
            r == self.spec_base(),
    {
        self.base
    }

    /// The address of the register at offset `off`.
    pub fn regs(&self, off: usize) -> (r: usize)
        requires
            self.spec_base() + off <= usize::MAX,
        ensures
            r == self.spec_base() + off,
    {
        self.base + off
    }

    /// Reset and configure the UART.
    ///
    /// Follows the ordering the PL011 needs: disable, drain, reprogram,
    /// re-enable.
    /// `LCR_H` must be written *after* `IBRD`/`FBRD`: that write is what
    /// latches the new divisors.
    pub fn init(&mut self, cfg: &Config) -> (ops: Vec<MmioOp>)
        requires
            config_valid(*cfg),
        ensures
            ops@ == init_ops(*cfg),
            *final(self) == *old(self),
    {
        let (ibrd, fbrd) = cfg.divisors();
        let lcr = cfg.lcr_h_bits();
        let t = cfg.tx_trigger.bits();
        let x = cfg.rx_trigger.bits();
        assert(t <= 4 && x <= 4 ==> (t | (x << 3)) == t + 8 * x) by (bit_vector);
        let ifls: u32 = t | (x << 3);
        let mut c: u32 = cr::UARTEN + cr::TXE + cr::RXE;
        if cfg.flow_control {
            c = c + cr::RTSEN + cr::CTSEN;
        }
        let ops = vec![
            MmioOp::Write { offset: CR, value: 0 },
            MmioOp::WaitClear { offset: FR, mask: fr::BUSY },
            MmioOp::ClearBits { offset: LCR_H, mask: lcr_h::FEN },
            MmioOp::Write { offset: IMSC, value: 0 },
            MmioOp::Write { offset: ICR, value: intr::ALL },
            MmioOp::Write { offset: IBRD, value: ibrd },
            MmioOp::Write { offset: FBRD, value: fbrd },
            MmioOp::Write { offset: LCR_H, value: lcr },
            MmioOp::Write { offset: IFLS, value: ifls },
            MmioOp::Write { offset: CR, value: c },
        ];
        assert(ops@ =~= init_ops(*cfg));
        ops
    }
}


impl Pl011 {
    /// Disable the UART, draining the transmitter first.
    pub fn disable(&mut self) -> (ops: Vec<MmioOp>)
        ensures
            ops@ == seq![
                MmioOp::WaitClear { offset: FR, mask: fr::BUSY },
                MmioOp::Write { offset: CR, value: 0 },
            ],
            *final(self) == *old(self),
    {
        let mut ops = self.flush();
        ops.push(MmioOp::Write { offset: CR, value: 0 });
        ops
    }

    // -- transmit ----------------------------------------------------------

    /// Write one byte, spinning until there is room in the transmit FIFO.
    pub fn write_byte(&mut self, byte: u8) -> (ops: Vec<MmioOp>)
        ensures
            ops@ == byte_ops(byte),
            *final(self) == *old(self),
    {
        let ops = vec![
            MmioOp::WaitClear { offset: FR, mask: fr::TXFF },
            MmioOp::Write { offset: DR, value: byte as u32 },
        ];
        assert(ops@ =~= byte_ops(byte));
        ops
    }

    /// Write one byte if the FIFO has room (as flag register value `fr`
    /// shows), otherwise return the byte back.
    pub fn try_write_byte(&mut self, fr: u32, byte: u8) -> (r: Result<Vec<MmioOp>, u8>)
        ensures
            match r {
                Ok(ops) => fr & fr::TXFF == 0 && ops@ == seq![
                    MmioOp::Write { offset: DR, value: byte as u32 },
                ],
                Err(b) => fr & fr::TXFF != 0 && b == byte,
            },
            *final(self) == *old(self),
    {
        if fr & fr::TXFF != 0 {
            Err(byte)
        } else {
            let ops = vec![MmioOp::Write { offset: DR, value: byte as u32 }];
            assert(ops@ =~= seq![MmioOp::Write { offset: DR, value: byte as u32 }]);
            Ok(ops)
        }
    }

    /// Write a slice, blocking until it has all been handed to the FIFO.
    pub fn write_bytes(&mut self, bytes: &[u8]) -> (ops: Vec<MmioOp>)
        ensures
            ops@ == bytes_ops(bytes@),
            *final(self) == *old(self),
    {
        let mut ops: Vec<MmioOp> = Vec::new();
        let mut i: usize = 0;
        while i < bytes.len()
            invariant
                i <= bytes.len(),
                ops@ == bytes_ops(bytes@.subrange(0, i as int)),
            decreases bytes.len() - i,
        {
            let b = bytes[i];
            ops.push(MmioOp::WaitClear { offset: FR, mask: fr::TXFF });
            ops.push(MmioOp::Write { offset: DR, value: b as u32 });
            proof {
                let pre = bytes@.subrange(0, i as int + 1);
                assert(pre.drop_last() =~= bytes@.subrange(0, i as int));
                assert(pre.last() == b);
            }
            i = i + 1;
        }
        assert(bytes@.subrange(0, bytes.len() as int) =~= bytes@);
        ops
    }

    /// Write text to the console: each `\n` goes out as `\r\n`.
    pub fn write_str(&mut self, s: &[u8]) -> (ops: Vec<MmioOp>)
        ensures
            ops@ == bytes_ops(crlf(s@)),
            *final(self) == *old(self),
    {
        let mut out: Vec<u8> = Vec::new();
        let mut i: usize = 0;
        while i < s.len()
            invariant
                i <= s.len(),
                out@ == crlf(s@.subrange(0, i as int)),
            decreases s.len() - i,
        {
            let b = s[i];
            if b == 10 {
                out.push(13);
            }
            out.push(b);
            proof {
                let pre = s@.subrange(0, i as int + 1);
                assert(pre.drop_last() =~= s@.subrange(0, i as int));
                assert(pre.last() == b);
                assert(out@ =~= crlf(pre));
            }
            i = i + 1;
        }
        assert(s@.subrange(0, s.len() as int) =~= s@);
        self.write_bytes(out.as_slice())
    }

    /// Block until the transmitter has fully drained (FIFO empty *and* the
    /// shift register idle). Call this before resetting or powering down.
    pub fn flush(&mut self) -> (ops: Vec<MmioOp>)
        ensures
            ops@ == seq![MmioOp::WaitClear { offset: FR, mask: fr::BUSY }],
            *final(self) == *old(self),
    {
        let ops = vec![MmioOp::WaitClear { offset: FR, mask: fr::BUSY }];
        assert(ops@ =~= seq![MmioOp::WaitClear { offset: FR, mask: fr::BUSY }]);
        ops
    }

    // -- receive -----------------------------------------------------------

    /// Read one byte if the receive FIFO is non-empty, first step: decide
    /// from the flag register value `fr` alone. `WouldBlock` when the FIFO
    /// is empty: then `DR` must not be read (no access is made at all).
    /// Otherwise the leave to pop one word from `DR`, to be handed with that
    /// word to `receive`.
    pub fn read_byte(&mut self, fr: u32) -> (r: Result<RxReady, Error>)
        ensures
            (fr & fr::RXFE != 0) <==> r is Err,
            r matches Err(e) ==> e == Error::WouldBlock,
            r matches Ok(t) ==> t.flags() == fr,
            *final(self) == *old(self),
    {
        if fr & fr::RXFE != 0 {
            Err(Error::WouldBlock)
        } else {
            Ok(RxReady { fr })
        }
    }

    /// Read one byte, second step: `dr` is the word popped from `DR` under
    /// the leave `ready`. The error flags in its upper bits belong to the
    /// byte in the low 8; an error is acknowledged by writing `RSR_ECR`.
    pub fn receive(&mut self, ready: RxReady, dr: u32) -> (r: (Result<u8, Error>, Vec<MmioOp>))
        ensures
            r.0 == rx_word_result(dr),
            r.1@ == if r.0 is Ok {
                Seq::<MmioOp>::empty()
            } else {
                seq![MmioOp::Write { offset: RSR_ECR, value: 0 }]
            },
            *final(self) == *old(self),
    {
        let clear = vec![MmioOp::Write { offset: RSR_ECR, value: 0 }];
        assert(clear@ =~= seq![MmioOp::Write { offset: RSR_ECR, value: 0 }]);
        if dr & DR_OE != 0 {
            return (Err(Error::Overrun), clear);
        }
        if dr & DR_BE != 0 {
            return (Err(Error::Break), clear);
        }
        if dr & DR_PE != 0 {
            return (Err(Error::Parity), clear);
        }
        if dr & DR_FE != 0 {
            return (Err(Error::Framing), clear);
        }
        assert(dr & 0xFF == dr % 256) by (bit_vector);
        (Ok((dr & 0xFF) as u8), Vec::new())
    }

    /// One poll of a blocking read: `None` while the receive FIFO is empty
    /// (keep spinning, without reading `DR`), otherwise the leave to pop
    /// `DR` that `read_byte` gives.
    pub fn read_byte_blocking(&mut self, fr: u32) -> (r: Option<RxReady>)
        ensures
            (fr & fr::RXFE != 0) <==> r is None,
            r matches Some(t) ==> t.flags() == fr,
            *final(self) == *old(self),
    {
        match self.read_byte(fr) {
            Ok(t) => Some(t),
            Err(_) => None,
        }
    }

    // -- interrupts --------------------------------------------------------

    /// Unmask the given interrupt sources (see [`intr`]).
    pub fn enable_interrupts(&mut self, mask: u32) -> (ops: Vec<MmioOp>)
        ensures
            ops@ == seq![MmioOp::SetBits { offset: IMSC, mask }],
            *final(self) == *old(self),
    {
        let ops = vec![MmioOp::SetBits { offset: IMSC, mask }];
        assert(ops@ =~= seq![MmioOp::SetBits { offset: IMSC, mask }]);
        ops
    }

    /// Mask the given interrupt sources.
    pub fn disable_interrupts(&mut self, mask: u32) -> (ops: Vec<MmioOp>)
        ensures
            ops@ == seq![MmioOp::ClearBits { offset: IMSC, mask }],
            *final(self) == *old(self),
    {
        let ops = vec![MmioOp::ClearBits { offset: IMSC, mask }];
        assert(ops@ =~= seq![MmioOp::ClearBits { offset: IMSC, mask }]);
        ops
    }

    /// Acknowledge interrupts. Do this *before* draining the FIFO, so a byte
    /// arriving mid-handler isn't dropped.
    pub fn clear_interrupts(&mut self, mask: u32) -> (ops: Vec<MmioOp>)
        ensures
            ops@ == seq![MmioOp::Write { offset: ICR, value: mask }],
            *final(self) == *old(self),
    {
        let ops = vec![MmioOp::Write { offset: ICR, value: mask }];
        assert(ops@ =~= seq![MmioOp::Write { offset: ICR, value: mask }]);
        ops
    }

    /// Which enabled interrupts are asserted, from the masked interrupt
    /// status register value `mis`: every bit of it.
    pub fn interrupt_status(&self, mis: u32) -> (r: u32)
        ensures
            r == mis,
    {
        mis
    }

    // -- status ------------------------------------------------------------

    /// The raw flags, from the flag register value `fr`: every bit of it.
    pub fn flags(&self, fr: u32) -> (r: u32)
        ensures
            r == fr,
    {
        fr
    }

    /// Whether flag register value `fr` says the transmit FIFO is full.
    pub fn tx_full(&self, fr: u32) -> (r: bool)
        ensures
            r == (fr & fr::TXFF != 0),
    {
        fr & fr::TXFF != 0
    }

    /// Whether flag register value `fr` says the receive FIFO is empty.
    pub fn rx_empty(&self, fr: u32) -> (r: bool)
        ensures
            r == (fr & fr::RXFE != 0),
    {
        fr & fr::RXFE != 0
    }

    /// Whether flag register value `fr` says the transmitter is busy.
    pub fn busy(&self, fr: u32) -> (r: bool)
        ensures
            r == (fr & fr::BUSY != 0),
    {
        fr & fr::BUSY != 0
    }
}

/// The number of `\n` bytes in `s`.
pub open spec fn newlines(s: Seq<u8>) -> nat
    decreases s.len(),
{
    if s.len() == 0 {
        0
    } else {
        newlines(s.drop_last()) + if s.last() == 10 {
            1nat
        } else {
            0
        }
    }
}

/// Initialising the UART leaves it programmed with the configuration:
/// whatever the registers held before, after the `init` accesses the
/// divisors, line control, FIFO levels and control register hold the
/// values the configuration implies, and every interrupt is masked.
pub proof fn lemma_init_programs_config(regs: spec_fn(usize) -> u32, cfg: Config)
    ensures
        ({
            let after = mmio::apply_all(regs, init_ops(cfg));
            &&& after(IBRD) == cfg.spec_ibrd()
            &&& after(FBRD) == cfg.spec_fbrd()
            &&& after(LCR_H) == cfg.spec_lcr_h_bits()
            &&& after(IFLS) == ifls_value(cfg)
            &&& after(CR) == enable_value(cfg.flow_control)
            &&& after(IMSC) == 0
            &&& after(ICR) == intr::ALL
            &&& after(IFLS) & 7 == cfg.tx_trigger.spec_bits()
            &&& (after(IFLS) >> 3u32) & 7 == cfg.rx_trigger.spec_bits()
            &&& after(IFLS) < 64
            &&& after(CR) & cr::UARTEN != 0 && after(CR) & cr::TXE != 0 && after(CR) & cr::RXE != 0
            &&& (after(CR) & cr::RTSEN != 0) == cfg.flow_control
            &&& (after(CR) & cr::CTSEN != 0) == cfg.flow_control
            &&& after(CR) & !0xC301u32 == 0
        }),
{
    lemma_ifls_fields(cfg.tx_trigger.spec_bits(), cfg.rx_trigger.spec_bits());
    lemma_enable_bits();
    let ops = init_ops(cfg);
    let f0 = regs;
    mmio::lemma_apply_all_step(f0, ops, 0);
    let f1 = mmio::apply(f0, ops[0]);
    mmio::lemma_apply_all_step(f1, ops, 1);
    let f2 = mmio::apply(f1, ops[1]);
    mmio::lemma_apply_all_step(f2, ops, 2);
    let f3 = mmio::apply(f2, ops[2]);
    mmio::lemma_apply_all_step(f3, ops, 3);
    let f4 = mmio::apply(f3, ops[3]);
    mmio::lemma_apply_all_step(f4, ops, 4);
    let f5 = mmio::apply(f4, ops[4]);
    mmio::lemma_apply_all_step(f5, ops, 5);
    let f6 = mmio::apply(f5, ops[5]);
    mmio::lemma_apply_all_step(f6, ops, 6);
    let f7 = mmio::apply(f6, ops[6]);
    mmio::lemma_apply_all_step(f7, ops, 7);
    let f8 = mmio::apply(f7, ops[7]);
    mmio::lemma_apply_all_step(f8, ops, 8);
    let f9 = mmio::apply(f8, ops[8]);
    mmio::lemma_apply_all_step(f9, ops, 9);
    let f10 = mmio::apply(f9, ops[9]);
    assert(ops.skip(0) =~= ops);
    assert(ops.skip(10).len() == 0);
    assert(mmio::apply_all(regs, ops) == f10);
}

proof fn lemma_ifls_fields(t: u32, x: u32)
    by (bit_vector)
    requires
        t <= 4,
        x <= 4,
    ensures
        ((t + 8 * x) as u32) & 7 == t,
        (((t + 8 * x) as u32) >> 3u32) & 7 == x,
        ((t + 8 * x) as u32) < 64,
{
}

proof fn lemma_enable_bits()
    by (bit_vector)
    ensures
        0xC301u32 & 0x0001 != 0 && 0xC301u32 & 0x0100 != 0 && 0xC301u32 & 0x0200 != 0,
        0xC301u32 & 0x4000 != 0 && 0xC301u32 & 0x8000 != 0 && 0xC301u32 & !0xC301u32 == 0,
        0x0301u32 & 0x0001 != 0 && 0x0301u32 & 0x0100 != 0 && 0x0301u32 & 0x0200 != 0,
        0x0301u32 & 0x4000 == 0 && 0x0301u32 & 0x8000 == 0 && 0x0301u32 & !0xC301u32 == 0,
{
}

/// A word popped from `DR` gives its byte, all eight data bits of it,
/// exactly when none of the error flags (bits 11:8) is set; otherwise the
/// error of the highest flag set (overrun, break, parity, framing). Bits
/// above 11 play no part.
pub proof fn lemma_rx_word(dr: u32)
    ensures
        rx_word_result(dr) is Ok <==> dr & 0xF00 == 0,
        rx_word_result(dr) matches Ok(b) ==> b as u32 == dr & 0xFF,
        dr & 0x800 != 0 ==> rx_word_result(dr) == Err::<u8, Error>(Error::Overrun),
        dr & 0xC00 == 0x400 ==> rx_word_result(dr) == Err::<u8, Error>(Error::Break),
        dr & 0xE00 == 0x200 ==> rx_word_result(dr) == Err::<u8, Error>(Error::Parity),
        dr & 0xF00 == 0x100 ==> rx_word_result(dr) == Err::<u8, Error>(Error::Framing),
        rx_word_result(dr) == rx_word_result(dr & 0xFFF),
{
    let m = dr & 0xFFF;
    assert(dr & 0xF00 == 0 <==> (dr & 0x800 == 0 && dr & 0x400 == 0 && dr & 0x200 == 0 && dr & 0x100 == 0))
        by (bit_vector);
    assert((dr & 0x800 != 0) == (dr & 0xC00 != 0x400 && dr & 0xE00 != 0x200 && dr & 0xF00 != 0x100 && dr
        & 0x800 != 0)) by (bit_vector);
    assert(dr & 0xC00 == 0x400 <==> (dr & 0x800 == 0 && dr & 0x400 != 0)) by (bit_vector);
    assert(dr & 0xE00 == 0x200 <==> (dr & 0x800 == 0 && dr & 0x400 == 0 && dr & 0x200 != 0)) by (bit_vector);
    assert(dr & 0xF00 == 0x100 <==> (dr & 0x800 == 0 && dr & 0x400 == 0 && dr & 0x200 == 0 && dr & 0x100
        != 0)) by (bit_vector);
    assert(((dr % 256) as u8) as u32 == dr & 0xFF) by (bit_vector);
    assert(m & 0x800 == dr & 0x800 && m & 0x400 == dr & 0x400 && m & 0x200 == dr & 0x200 && m & 0x100
        == dr & 0x100 && (m % 256) as u8 == (dr % 256) as u8) by (bit_vector)
        requires
            m == dr & 0xFFF,
    ;
}

/// Writing bytes hands each byte, in order and unchanged, to `DR`, each
/// after waiting for room in the transmit FIFO: two accesses per byte.
pub proof fn lemma_bytes_ops(bytes: Seq<u8>)
    ensures
        bytes_ops(bytes).len() == 2 * bytes.len(),
        forall|k: int|
            0 <= k < bytes.len() ==> #[trigger] bytes_ops(bytes)[2 * k] == (MmioOp::WaitClear {
                offset: FR,
                mask: fr::TXFF,
            }) && bytes_ops(bytes)[2 * k + 1] == (MmioOp::Write { offset: DR, value: bytes[k] as u32 }),
    decreases bytes.len(),
{
    if bytes.len() > 0 {
        lemma_bytes_ops(bytes.drop_last());
        let p = bytes.drop_last();
        assert forall|k: int| 0 <= k < bytes.len() implies #[trigger] bytes_ops(bytes)[2 * k] == (
        MmioOp::WaitClear { offset: FR, mask: fr::TXFF }) && bytes_ops(bytes)[2 * k + 1] == (MmioOp::Write {
            offset: DR,
            value: bytes[k] as u32,
        }) by {
            if k < p.len() {
                assert(bytes_ops(p)[2 * k] == (MmioOp::WaitClear { offset: FR, mask: fr::TXFF }));
                assert(p[k] == bytes[k]);
            }
        }
    }
}

/// The receive and transmit FIFO trigger levels are encoded in `IFLS` in
/// order of fill: 1/8 is 0, and each fuller level has a larger code, up to
/// 7/8 at 4.
pub proof fn lemma_fifo_level_order()
    ensures
        FifoLevel::Eighth.spec_bits() == 0,
        FifoLevel::Eighth.spec_bits() < FifoLevel::Quarter.spec_bits(),
        FifoLevel::Quarter.spec_bits() < FifoLevel::Half.spec_bits(),
        FifoLevel::Half.spec_bits() < FifoLevel::ThreeQuarters.spec_bits(),
        FifoLevel::ThreeQuarters.spec_bits() < FifoLevel::SevenEighths.spec_bits(),
        FifoLevel::SevenEighths.spec_bits() == 4,
{
}

/// The divisors are `UARTCLK / (16 * baud)` rounded to the nearest 1/64:
/// with `d = 64 * IBRD + FBRD`, `d - 1/2 <= clk / (16 * baud) * 64 < d + 1/2`
/// (written without fractions), and `FBRD` fits its 6 bits.
pub proof fn lemma_divisor_rounding(cfg: Config)
    requires
        config_valid(cfg),
    ensures
        ({
            let d = 64 * cfg.spec_ibrd() + cfg.spec_fbrd();
            &&& (2 * d - 1) * cfg.baud <= 8 * cfg.clock_hz
            &&& 8 * cfg.clock_hz < (2 * d + 1) * cfg.baud
            &&& cfg.spec_fbrd() < 64
        }),
{
    let c = 8 * cfg.clock_hz as int;
    let b = cfg.baud as int;
    let q = c / b;
    let h = (q + 1) / 2;
    assert(0 <= q <= c) by (nonlinear_arith)
        requires
            b >= 1,
            c >= 0,
            q == c / b,
    ;
    assert(h / 64 <= u32::MAX && h % 64 < 64);
    assert(64 * cfg.spec_ibrd() + cfg.spec_fbrd() == h);
    assert(q * b <= c < (q + 1) * b) by (nonlinear_arith)
        requires
            b >= 1,
            q == c / b,
    ;
    assert((2 * h - 1) * b <= q * b) by (nonlinear_arith)
        requires
            2 * h - 1 <= q,
            b >= 1,
    ;
    assert((q + 1) * b <= (2 * h + 1) * b) by (nonlinear_arith)
        requires
            q + 1 <= 2 * h + 1,
            b >= 1,
    ;
}

/// The divisor writes of `init` come before the `LCR_H` write that latches
/// them, the UART is disabled by the first access and enabled by the last.
pub proof fn lemma_init_order(cfg: Config)
    ensures
        ({
            let ops = init_ops(cfg);
            &&& ops[0] == MmioOp::Write { offset: CR, value: 0 }
            &&& ops[ops.len() - 1] == MmioOp::Write { offset: CR, value: enable_value(cfg.flow_control) }
            &&& forall|i: int, j: int|
                #![trigger ops[i], ops[j]]
                0 <= i < ops.len() && 0 <= j < ops.len() && (ops[i] matches MmioOp::Write {
                    offset,
                    ..
                } && (offset == IBRD || offset == FBRD)) && ops[j] == (MmioOp::Write {
                    offset: LCR_H,
                    value: cfg.spec_lcr_h_bits(),
                }) ==> i < j
        }),
{
}

/// Masking interrupt sources undoes unmasking them: after
/// `enable_interrupts(mask)` then `disable_interrupts(mask)` the mask
/// register holds its old value with the bits of `mask` cleared, that is,
/// its old value when those sources were masked before.
pub proof fn lemma_disable_undoes_enable(regs: spec_fn(usize) -> u32, mask: u32)
    ensures
        ({
            let ops = seq![MmioOp::SetBits { offset: IMSC, mask }, MmioOp::ClearBits { offset: IMSC, mask }];
            &&& mmio::apply_all(regs, ops)(IMSC) == regs(IMSC) & !mask
            &&& regs(IMSC) & mask == 0 ==> mmio::apply_all(regs, ops)(IMSC) == regs(IMSC)
            &&& forall|o: usize| o != IMSC ==> #[trigger] mmio::apply_all(regs, ops)(o) == regs(o)
        }),
{
    reveal_with_fuel(mmio::apply_all, 3);
    let ops = seq![MmioOp::SetBits { offset: IMSC, mask }, MmioOp::ClearBits { offset: IMSC, mask }];
    assert(ops.skip(1) =~= seq![MmioOp::ClearBits { offset: IMSC, mask }]);
    assert(ops.skip(1).skip(1) =~= Seq::<MmioOp>::empty());
    let v = regs(IMSC);
    assert((v | mask) & !mask == v & !mask) by (bit_vector);
    assert(v & mask == 0 ==> v & !mask == v) by (bit_vector);
}

/// Console text grows by one `\r` for each `\n`, and every `\n` in it is
/// immediately preceded by a `\r`.
pub proof fn lemma_crlf(s: Seq<u8>)
    ensures
        crlf(s).len() == s.len() + newlines(s),
        forall|i: int| 0 <= i < crlf(s).len() && #[trigger] crlf(s)[i] == 10 ==> i > 0 && crlf(s)[i - 1] == 13,
    decreases s.len(),
{
    if s.len() > 0 {
        lemma_crlf(s.drop_last());
        let a = crlf(s.drop_last());
        assert forall|i: int| 0 <= i < crlf(s).len() && #[trigger] crlf(s)[i] == 10 implies i > 0 && crlf(s)[i - 1] == 13 by {
            if i < a.len() {
                assert(crlf(s)[i] == a[i]);
                assert(crlf(s)[i - 1] == a[i - 1]);
            }
        }
    }
}

/// Writing text piecewise writes the same bytes as writing it whole.
pub proof fn lemma_crlf_append(a: Seq<u8>, b: Seq<u8>)
    ensures
        crlf(a + b) == crlf(a) + crlf(b),
    decreases b.len(),
{
    if b.len() == 0 {
        assert(a + b =~= a);
        assert(crlf(a) + crlf(b) =~= crlf(a));
    } else {
        lemma_crlf_append(a, b.drop_last());
        assert((a + b).drop_last() =~= a + b.drop_last());
        assert((a + b).last() == b.last());
        let t = if b.last() == 10 { seq![13u8, 10u8] } else { seq![b.last()] };
        assert(crlf(a) + crlf(b.drop_last()) + t =~= crlf(a) + (crlf(b.drop_last()) + t));
    }
}

} // verus!
