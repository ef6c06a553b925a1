//! The QEMU `virt` board: memory map and console set-up.
use vstd::prelude::*;
use core::sync::atomic::{AtomicBool, Ordering};
use crate::drivers::mmio::MmioOp;
use crate::drivers::pl011::{Config, Pl011};

verus! {

// ---------------------------------------------------------------------------
// Memory map
// ---------------------------------------------------------------------------

pub const UART0_BASE: usize = 0x0900_0000;
pub const UART1_BASE: usize = 0x0904_0000;
/// 4 KiB.
pub const UART_SIZE: usize = 0x1000;

/// GIC distributor.
pub const GICD_BASE: usize = 0x0800_0000;
/// GICv2 CPU interface.
pub const GICC_BASE: usize = 0x0801_0000;
/// GICv3 redistributor.
pub const GICR_BASE: usize = 0x080A_0000;

pub const RTC_BASE: usize = 0x0901_0000;
pub const VIRTIO_MMIO_BASE: usize = 0x0A00_0000;

/// RAM starts at 1 GiB.
pub const RAM_GIB: usize = 64;
pub const RAM_BASE: u64 = 0x4000_0000;
pub const RAM_END: u64 = 0x10_4000_0000;

// ---------------------------------------------------------------------------
// Console
// ---------------------------------------------------------------------------

pub const UART_CLK_HZ: u32 = 24_000_000;

/// Default console settings: 115200 8N1, FIFOs on.
pub open spec fn spec_console_config() -> Config {
    Config {
        clock_hz: UART_CLK_HZ,
        baud: 115_200,
        data_bits: 8,
        parity: crate::drivers::pl011::Parity::NoParity,
        stop_bits: crate::drivers::pl011::StopBits::One,
        fifo: true,
        flow_control: false,
        rx_trigger: crate::drivers::pl011::FifoLevel::Half,
        tx_trigger: crate::drivers::pl011::FifoLevel::Half,
    }
}

/// Default console settings: 115200 8N1, FIFOs on.
pub fn console_config() -> (r: Config)
    ensures
        r == spec_console_config(),
        crate::drivers::pl011::config_valid(r),
{
    Config::new(UART_CLK_HZ).baud(115_200)
}

/// Hand out UART0 given the state of its taken flag before this claim:
/// `None` when it was already taken, else the driver for UART0.
pub fn hand_out_uart0(was_taken: bool) -> (r: Option<Pl011>)
    ensures
        r is None <==> was_taken,
        r matches Some(u) ==> u.base() == UART0_BASE,
{
    if was_taken {
        None
    } else {
        Some(Pl011::new(UART0_BASE))
    }
}

/// Hand out UART0 once: the flag is set atomically, and the claim that
/// found it clear (the first) gets the driver for UART0, every later one
/// `None` (see `hand_out_uart0`). Which claim came first is decided by the
/// atomic swap on `taken`, whose previous value vstd does not specify: so
/// this states only what holds whatever it was.
pub fn take_uart0(taken: &AtomicBool) -> (r: Option<Pl011>)
    ensures
        r matches Some(u) ==> u.base() == UART0_BASE,
{
    hand_out_uart0(taken.swap(true, Ordering::AcqRel))
}

/// Console set-up from the outcome of claiming UART0: `None` when the
/// claim failed, else the driver with the accesses that program it with
/// the console settings.
pub fn init_console(uart: Option<Pl011>) -> (r: Option<(Pl011, Vec<MmioOp>)>)
    ensures
        r is None <==> uart is None,
        r matches Some((u, ops)) ==> uart == Some(u) && ops@ == crate::drivers::pl011::init_ops(
            spec_console_config(),
        ),
{
    match uart {
        Some(mut uart) => {
            let cfg = console_config();
            let ops = uart.init(&cfg);
            Some((uart, ops))
        },
        None => None,
    }
}

/// Console initialisation: take UART0 and program it with the console
/// settings (see `init_console`). The caller carries out the accesses and
/// installs the driver as the console. Whether UART0 was still free is
/// decided by `take_uart0`'s atomic swap.
pub fn init(taken: &AtomicBool) -> (r: Option<(Pl011, Vec<MmioOp>)>)
    ensures
        r matches Some((u, ops)) ==> u.base() == UART0_BASE && ops@ == crate::drivers::pl011::init_ops(
            spec_console_config(),
        ),
{
    init_console(take_uart0(taken))
}

} // verus!
