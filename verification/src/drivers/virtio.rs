//! virtio-mmio block device: probing, bring-up and single-request I/O.
//!
//! The device is found by probing the 32 virtio-mmio slots, brought up
//! with the virtio driver initialisation sequence, and driven
//! with one request in flight on a queue of `QSIZE` descriptors. Each step
//! here decides the register accesses and ring contents; the caller reads
//! the registers, fills the rings and waits for the device in between.
use vstd::prelude::*;
use crate::drivers::mmio;
use crate::drivers::mmio::MmioOp;

verus! {

pub const SECTOR: usize = 512;
pub const QSIZE: usize = 8;

pub const MMIO_BASE: usize = 0x0a00_0000;
pub const MMIO_STRIDE: usize = 0x200;
pub const MMIO_SLOTS: usize = 32;

// virtio-mmio register offsets
/// 0x74726976 "virt"
pub const MAGIC: usize = 0x000;
/// Must be 2.
pub const VERSION: usize = 0x004;
/// 2 = block.
pub const DEVICE_ID: usize = 0x008;
pub const DEV_FEAT: usize = 0x010;
pub const DEV_FEAT_SEL: usize = 0x014;
pub const DRV_FEAT: usize = 0x020;
pub const DRV_FEAT_SEL: usize = 0x024;
pub const QUEUE_SEL: usize = 0x030;
pub const QUEUE_NUM_MAX: usize = 0x034;
pub const QUEUE_NUM: usize = 0x038;
pub const QUEUE_READY: usize = 0x044;
pub const QUEUE_NOTIFY: usize = 0x050;
pub const INT_STATUS: usize = 0x060;
pub const INT_ACK: usize = 0x064;
pub const STATUS: usize = 0x070;
pub const QUEUE_DESC_LO: usize = 0x080;
pub const QUEUE_DESC_HI: usize = 0x084;
/// Avail ring.
pub const QUEUE_DRV_LO: usize = 0x090;
pub const QUEUE_DRV_HI: usize = 0x094;
/// Used ring.
pub const QUEUE_DEV_LO: usize = 0x0a0;
pub const QUEUE_DEV_HI: usize = 0x0a4;
/// Block device configuration: capacity in sectors, u64 little endian.
pub const CONFIG: usize = 0x100;

pub const VIRTIO_MAGIC: u32 = 0x7472_6976;
pub const BLOCK_DEVICE: u32 = 2;

// device status bits
pub const ST_ACK: u32 = 1;
pub const ST_DRIVER: u32 = 2;
pub const ST_DRIVER_OK: u32 = 4;
pub const ST_FEATURES_OK: u32 = 8;
pub const ST_FAILED: u32 = 128;

// descriptor flags
pub const DF_NEXT: u16 = 1;
/// The device writes this buffer.
pub const DF_WRITE: u16 = 2;

// block request types
/// Read.
pub const BLK_IN: u32 = 0;
/// Write.
pub const BLK_OUT: u32 = 1;

/// A split-virtqueue descriptor.
#[derive(Clone, Copy, PartialEq, Eq, Debug, Structural)]
pub struct Desc {
    pub addr: u64,
    pub len: u32,
    pub flags: u16,
    pub next: u16,
}

/// The header of a block request.
#[derive(Clone, Copy, PartialEq, Eq, Debug, Structural)]
pub struct BlkReqHdr {
    pub ty: u32,
    pub reserved: u32,
    pub sector: u64,
}

/// The block device as the driver knows it.
#[derive(Clone, Copy, PartialEq, Eq, Debug, Structural)]
pub struct Blk {
    /// Base address of its virtio-mmio registers.
    pub base: usize,
    /// The used-ring index of the last completed request.
    pub last_used: u16,
    /// Capacity in sectors.
    pub capacity: u64,
    /// Brought up and ready for requests.
    pub ready: bool,
}

/// Why bring-up failed.
#[derive(Clone, Copy, PartialEq, Eq, Debug, Structural)]
pub enum InitError {
    /// The block device only speaks the legacy interface.
    Legacy,
    /// No slot holds a block device.
    NotFound,
    /// The device does not offer `VIRTIO_F_VERSION_1`.
    NoVersion1,
    /// The device did not accept the features.
    FeaturesRejected,
    /// Queue 0 has fewer than `QSIZE` entries.
    QueueTooSmall,
}

impl InitError {
    /// The message the kernel reports for this error.
    pub fn message(self) -> (r: &'static str)
        ensures
            self == InitError::Legacy ==> r@
                == "blk device is legacy; add -global virtio-mmio.force-legacy=false"@,
            self == InitError::NotFound ==> r@
                == "no virtio-blk device found (missing -drive/-device flags?)"@,
            self == InitError::NoVersion1 ==> r@ == "device lacks VERSION_1 feature"@,
            self == InitError::FeaturesRejected ==> r@ == "device rejected features"@,
            self == InitError::QueueTooSmall ==> r@ == "queue too small"@,
    {
        match self {
            InitError::Legacy => "blk device is legacy; add -global virtio-mmio.force-legacy=false",
            InitError::NotFound => "no virtio-blk device found (missing -drive/-device flags?)",
            InitError::NoVersion1 => "device lacks VERSION_1 feature",
            InitError::FeaturesRejected => "device rejected features",
            InitError::QueueTooSmall => "queue too small",
        }
    }
}

impl Blk {
    /// No device yet: not ready, so every request is refused.
    pub fn new() -> (r: Self)
        ensures
            !r.ready && r.base == 0 && r.capacity == 0 && r.last_used == 0,
    {
        Blk { base: 0, last_used: 0, capacity: 0, ready: false }
    }
}

// ---------------------------------------------------------------------------
// Probe and bring-up
// ---------------------------------------------------------------------------

/// What a probed slot holds.
#[derive(Clone, Copy, PartialEq, Eq, Debug, Structural)]
pub enum Probe {
    /// No block device.
    Absent,
    /// A block device with the legacy interface.
    Legacy,
    /// A modern block device.
    Modern,
}

/// The register base of virtio-mmio slot `slot`.
pub fn slot_base(slot: usize) -> (r: usize)
    requires
        slot < MMIO_SLOTS,
    ensures
        r == MMIO_BASE + slot * MMIO_STRIDE,
{
    MMIO_BASE + slot * MMIO_STRIDE
}

/// Classify a slot from its `MAGIC` and `DEVICE_ID` registers and, for a
/// block device, its `VERSION` register.
pub fn probe(magic: u32, device_id: u32, version: u32) -> (r: Probe)
    ensures
        r == if magic != VIRTIO_MAGIC || device_id != BLOCK_DEVICE {
            Probe::Absent
        } else if version != 2 {
            Probe::Legacy
        } else {
            Probe::Modern
        },
{
    if magic == VIRTIO_MAGIC && device_id == BLOCK_DEVICE {
        if version != 2 {
            Probe::Legacy
        } else {
            Probe::Modern
        }
    } else {
        Probe::Absent
    }
}

/// Whether a slot's `MAGIC` and `DEVICE_ID` registers show a virtio block
/// device (whose `VERSION` is then worth reading).
pub fn is_block_device(magic: u32, device_id: u32) -> (r: bool)
    ensures
        r == (magic == VIRTIO_MAGIC && device_id == BLOCK_DEVICE),
{
    magic == VIRTIO_MAGIC && device_id == BLOCK_DEVICE
}

/// The state of the slot scan after one slot.
#[derive(Clone, Copy, PartialEq, Eq, Debug, Structural)]
pub enum Scan {
    /// Probe this slot next.
    Continue(usize),
    /// A modern block device has its registers at this base.
    Found(usize),
    /// The scan ends without a usable device.
    Failed(InitError),
}

/// One step of the scan over the virtio-mmio slots, from the registers of
/// slot `slot`: the first modern block device is taken, a legacy one ends
/// the scan with an error, and after the last slot there is none.
pub fn scan_step(slot: usize, magic: u32, device_id: u32, version: u32) -> (r: Scan)
    requires
        slot < MMIO_SLOTS,
    ensures
        r == match if magic != VIRTIO_MAGIC || device_id != BLOCK_DEVICE {
            Probe::Absent
        } else if version != 2 {
            Probe::Legacy
        } else {
            Probe::Modern
        } {
            Probe::Absent => if slot + 1 < MMIO_SLOTS {
                Scan::Continue((slot + 1) as usize)
            } else {
                Scan::Failed(InitError::NotFound)
            },
            Probe::Legacy => Scan::Failed(InitError::Legacy),
            Probe::Modern => Scan::Found((MMIO_BASE + slot * MMIO_STRIDE) as usize),
        },
{
    match probe(magic, device_id, version) {
        Probe::Absent => if slot + 1 < MMIO_SLOTS {
            Scan::Continue(slot + 1)
        } else {
            Scan::Failed(InitError::NotFound)
        },
        Probe::Legacy => Scan::Failed(InitError::Legacy),
        Probe::Modern => Scan::Found(slot_base(slot)),
    }
}

/// Reset, ACKNOWLEDGE, DRIVER, then select device feature bits 63:32.
pub open spec fn reset_seq() -> Seq<MmioOp> {
    seq![
        MmioOp::Write { offset: STATUS, value: 0 },
        MmioOp::Write { offset: STATUS, value: ST_ACK },
        MmioOp::Write { offset: STATUS, value: (ST_ACK + ST_DRIVER) as u32 },
        MmioOp::Write { offset: DEV_FEAT_SEL, value: 1 },
    ]
}

/// Driver features: none in bits 31:0, `VIRTIO_F_VERSION_1` in bits
/// 63:32; then `FEATURES_OK`.
pub open spec fn negotiate_seq() -> Seq<MmioOp> {
    seq![
        MmioOp::Write { offset: DRV_FEAT_SEL, value: 0 },
        MmioOp::Write { offset: DRV_FEAT, value: 0 },
        MmioOp::Write { offset: DRV_FEAT_SEL, value: 1 },
        MmioOp::Write { offset: DRV_FEAT, value: 1 },
        MmioOp::Write { offset: STATUS, value: (ST_ACK + ST_DRIVER + ST_FEATURES_OK) as u32 },
    ]
}

/// Select queue 0.
pub open spec fn confirm_seq() -> Seq<MmioOp> {
    seq![MmioOp::Write { offset: QUEUE_SEL, value: 0 }]
}

/// Reset the device, acknowledge it, say a driver is here, and select
/// device feature bits 63:32.
pub fn reset_ops() -> (ops: Vec<MmioOp>)
    ensures
        ops@ == reset_seq(),
{
    let ops = vec![
        MmioOp::Write { offset: STATUS, value: 0 },
        MmioOp::Write { offset: STATUS, value: ST_ACK },
        MmioOp::Write { offset: STATUS, value: (ST_ACK + ST_DRIVER) as u32 },
        MmioOp::Write { offset: DEV_FEAT_SEL, value: 1 },
    ];
    assert(ops@ =~= reset_seq());
    ops
}

/// The write that marks the device failed.
pub open spec fn fail_ops() -> Seq<MmioOp> {
    seq![MmioOp::Write { offset: STATUS, value: ST_FAILED }]
}

/// Feature negotiation, given device feature bits 63:32: accept only
/// `VIRTIO_F_VERSION_1` (bit 32) and report the features set. Without
/// that bit the device is marked failed.
pub fn negotiate(dev_feat_hi: u32) -> (r: Result<Vec<MmioOp>, (InitError, Vec<MmioOp>)>)
    ensures
        match r {
            Ok(ops) => dev_feat_hi & 1 != 0 && ops@ == negotiate_seq(),
            Err((e, ops)) => dev_feat_hi & 1 == 0 && e == InitError::NoVersion1 && ops@ == fail_ops(),
        },
{
    if dev_feat_hi & 1 == 0 {
        let ops = vec![MmioOp::Write { offset: STATUS, value: ST_FAILED }];
        assert(ops@ =~= fail_ops());
        return Err((InitError::NoVersion1, ops));
    }
    let ops = vec![
        MmioOp::Write { offset: DRV_FEAT_SEL, value: 0 },
        MmioOp::Write { offset: DRV_FEAT, value: 0 },
        MmioOp::Write { offset: DRV_FEAT_SEL, value: 1 },
        MmioOp::Write { offset: DRV_FEAT, value: 1 },
        MmioOp::Write { offset: STATUS, value: (ST_ACK + ST_DRIVER + ST_FEATURES_OK) as u32 },
    ];
    assert(ops@ =~= negotiate_seq());
    Ok(ops)
}

/// Check, from the `STATUS` register read back, that the device kept
/// `FEATURES_OK`; if so select queue 0, else mark the device failed.
pub fn confirm_features(status: u32) -> (r: Result<Vec<MmioOp>, (InitError, Vec<MmioOp>)>)
    ensures
        match r {
            Ok(ops) => status & ST_FEATURES_OK != 0 && ops@ == confirm_seq(),
            Err((e, ops)) => status & ST_FEATURES_OK == 0 && e == InitError::FeaturesRejected && ops@
                == fail_ops(),
        },
{
    if status & ST_FEATURES_OK == 0 {
        let ops = vec![MmioOp::Write { offset: STATUS, value: ST_FAILED }];
        assert(ops@ =~= fail_ops());
        return Err((InitError::FeaturesRejected, ops));
    }
    let ops = vec![MmioOp::Write { offset: QUEUE_SEL, value: 0 }];
    assert(ops@ =~= confirm_seq());
    Ok(ops)
}

/// Where the three rings of queue 0 live (identity mapped, so VA == PA).
#[derive(Clone, Copy, PartialEq, Eq, Debug, Structural)]
pub struct RingAddrs {
    pub desc: u64,
    pub avail: u64,
    pub used: u64,
}

/// The low 32 bits of an address.
pub open spec fn lo32(a: u64) -> u32 {
    (a % 0x1_0000_0000) as u32
}

/// The high 32 bits of an address.
pub open spec fn hi32(a: u64) -> u32 {
    (a / 0x1_0000_0000) as u32
}

proof fn lemma_split(a: u64)
    by (bit_vector)
    ensures
        a as u32 == a % 0x1_0000_0000,
        (a >> 32u64) as u32 == a / 0x1_0000_0000,
{
}

fn split_lo(a: u64) -> (r: u32)
    ensures
        r == lo32(a),
{
    proof {
        lemma_split(a);
    }
    a as u32
}

fn split_hi(a: u64) -> (r: u32)
    ensures
        r == hi32(a),
{
    proof {
        lemma_split(a);
    }
    (a >> 32) as u32
}

/// The queue set-up accesses: size, ring addresses, ready, then
/// `DRIVER_OK`.
pub open spec fn queue_ops(rings: RingAddrs) -> Seq<MmioOp> {
    seq![
        MmioOp::Write { offset: QUEUE_NUM, value: QSIZE as u32 },
        MmioOp::Write { offset: QUEUE_DESC_LO, value: lo32(rings.desc) },
        MmioOp::Write { offset: QUEUE_DESC_HI, value: hi32(rings.desc) },
        MmioOp::Write { offset: QUEUE_DRV_LO, value: lo32(rings.avail) },
        MmioOp::Write { offset: QUEUE_DRV_HI, value: hi32(rings.avail) },
        MmioOp::Write { offset: QUEUE_DEV_LO, value: lo32(rings.used) },
        MmioOp::Write { offset: QUEUE_DEV_HI, value: hi32(rings.used) },
        MmioOp::Write { offset: QUEUE_READY, value: 1 },
        MmioOp::Write { offset: STATUS, value: (ST_ACK + ST_DRIVER + ST_FEATURES_OK + ST_DRIVER_OK) as u32 },
    ]
}

/// Set up queue 0, given its `QUEUE_NUM_MAX`: refused when the device
/// offers fewer than `QSIZE` entries.
pub fn setup_queue(num_max: u32, rings: &RingAddrs) -> (r: Result<Vec<MmioOp>, InitError>)
    ensures
        match r {
            Ok(ops) => num_max >= QSIZE && ops@ == queue_ops(*rings),
            Err(e) => num_max < QSIZE && e == InitError::QueueTooSmall,
        },
{
    if num_max < QSIZE as u32 {
        return Err(InitError::QueueTooSmall);
    }
    let ops = vec![
        MmioOp::Write { offset: QUEUE_NUM, value: QSIZE as u32 },
        MmioOp::Write { offset: QUEUE_DESC_LO, value: split_lo(rings.desc) },
        MmioOp::Write { offset: QUEUE_DESC_HI, value: split_hi(rings.desc) },
        MmioOp::Write { offset: QUEUE_DRV_LO, value: split_lo(rings.avail) },
        MmioOp::Write { offset: QUEUE_DRV_HI, value: split_hi(rings.avail) },
        MmioOp::Write { offset: QUEUE_DEV_LO, value: split_lo(rings.used) },
        MmioOp::Write { offset: QUEUE_DEV_HI, value: split_hi(rings.used) },
        MmioOp::Write { offset: QUEUE_READY, value: 1 },
        MmioOp::Write {
            offset: STATUS,
            value: (ST_ACK + ST_DRIVER + ST_FEATURES_OK + ST_DRIVER_OK) as u32,
        },
    ];
    assert(ops@ =~= queue_ops(*rings));
    Ok(ops)
}

proof fn lemma_join(lo: u32, hi: u32)
    by (bit_vector)
    ensures
        ((hi as u64) << 32u64) | (lo as u64) == hi * 0x1_0000_0000 + lo,
{
}

/// The device is up at `base`: its capacity is the 64-bit value of the two
/// configuration words, low word first; no request has completed yet.
pub fn finish_init(base: usize, cap_lo: u32, cap_hi: u32) -> (b: Blk)
    ensures
        b.base == base,
        b.capacity == cap_hi * 0x1_0000_0000 + cap_lo,
        b.last_used == 0,
        b.ready,
{
    proof {
        lemma_join(cap_lo, cap_hi);
    }
    Blk { base, last_used: 0, capacity: ((cap_hi as u64) << 32) | (cap_lo as u64), ready: true }
}

/// Capacity of the device in sectors.
pub fn capacity_sectors(b: &Blk) -> (r: u64)
    ensures
        r == b.capacity,
{
    b.capacity
}

// ---------------------------------------------------------------------------
// Bring-up, step by step
// ---------------------------------------------------------------------------

/// Where the bring-up of a found device stands: which registers it reads
/// next (see `stage_reads`) to decide the following step.
#[derive(Clone, Copy, PartialEq, Eq, Debug, Structural)]
pub enum Stage {
    /// Reset and acknowledged; device feature bits 63:32 are selected.
    Features,
    /// Features written; the device's `STATUS` is read back.
    Confirm,
    /// Queue 0 selected; its `QUEUE_NUM_MAX` is read.
    Queue,
    /// The queue is live; the two capacity words are read.
    Capacity,
}

/// The registers read at a stage, in order.
pub open spec fn spec_stage_reads(stage: Stage) -> Seq<usize> {
    match stage {
        Stage::Features => seq![DEV_FEAT],
        Stage::Confirm => seq![STATUS],
        Stage::Queue => seq![QUEUE_NUM_MAX],
        Stage::Capacity => seq![CONFIG, (CONFIG + 4) as usize],
    }
}

/// The stage after `stage` when its check passes.
pub open spec fn next_stage(stage: Stage) -> Stage {
    match stage {
        Stage::Features => Stage::Confirm,
        Stage::Confirm => Stage::Queue,
        Stage::Queue => Stage::Capacity,
        Stage::Capacity => Stage::Capacity,
    }
}

/// The accesses of a stage whose check passes.
pub open spec fn stage_ops(stage: Stage, rings: RingAddrs) -> Seq<MmioOp> {
    match stage {
        Stage::Features => negotiate_seq(),
        Stage::Confirm => confirm_seq(),
        Stage::Queue => queue_ops(rings),
        Stage::Capacity => seq![],
    }
}

/// Every access of a bring-up that succeeds, in order: the reset, then
/// each stage's accesses.
pub open spec fn bring_up_ops(rings: RingAddrs) -> Seq<MmioOp> {
    reset_seq() + stage_ops(Stage::Features, rings) + stage_ops(Stage::Confirm, rings) + stage_ops(
        Stage::Queue,
        rings,
    )
}

/// What one bring-up step asks of the caller.
pub enum Step {
    /// Carry out the accesses, then read the registers of the stage and
    /// step again.
    Next(Stage, Vec<MmioOp>),
    /// The device is up.
    Done(Blk),
    /// Bring-up failed: carry out the accesses (marking the device failed
    /// where the step says so) and report the error.
    Failed(InitError, Vec<MmioOp>),
}

/// The first step of bringing up the device found: reset, acknowledge,
/// driver, select feature bits 63:32; next the features are read.
pub fn bring_up_start() -> (r: (Stage, Vec<MmioOp>))
    ensures
        r.0 == Stage::Features,
        r.1@ == reset_seq(),
{
    (Stage::Features, reset_ops())
}

/// The registers to read at `stage`, in order.
pub fn stage_reads(stage: Stage) -> (r: Vec<usize>)
    ensures
        r@ == spec_stage_reads(stage),
{
    let r = match stage {
        Stage::Features => vec![DEV_FEAT],
        Stage::Confirm => vec![STATUS],
        Stage::Queue => vec![QUEUE_NUM_MAX],
        Stage::Capacity => vec![CONFIG, CONFIG + 4],
    };
    assert(r@ =~= spec_stage_reads(stage));
    r
}

/// One bring-up step of the device at `base`, from the values `v` read
/// from the registers `stage_reads(stage)` names, in order. Each stage
/// either passes its check (its accesses, then the next stage; the
/// capacity stage ends the bring-up) or fails with its error.
pub fn bring_up_step(base: usize, stage: Stage, rings: &RingAddrs, v: &[u32]) -> (r: Step)
    requires
        v.len() == spec_stage_reads(stage).len(),
    ensures
        match stage {
            Stage::Features => if v[0] & 1 != 0 {
                r matches Step::Next(s, ops) && s == next_stage(stage) && ops@ == stage_ops(stage, *rings)
            } else {
                r matches Step::Failed(e, ops) && e == InitError::NoVersion1 && ops@ == fail_ops()
            },
            Stage::Confirm => if v[0] & ST_FEATURES_OK != 0 {
                r matches Step::Next(s, ops) && s == next_stage(stage) && ops@ == stage_ops(stage, *rings)
            } else {
                r matches Step::Failed(e, ops) && e == InitError::FeaturesRejected && ops@ == fail_ops()
            },
            Stage::Queue => if v[0] >= QSIZE {
                r matches Step::Next(s, ops) && s == next_stage(stage) && ops@ == stage_ops(stage, *rings)
            } else {
                r matches Step::Failed(e, ops) && e == InitError::QueueTooSmall && ops@.len() == 0
            },
            Stage::Capacity => r matches Step::Done(b) && b == (Blk {
                base,
                last_used: 0,
                capacity: (v[1] * 0x1_0000_0000 + v[0]) as u64,
                ready: true,
            }),
        },
{
    match stage {
        Stage::Features => match negotiate(v[0]) {
            Ok(ops) => Step::Next(Stage::Confirm, ops),
            Err((e, ops)) => Step::Failed(e, ops),
        },
        Stage::Confirm => match confirm_features(v[0]) {
            Ok(ops) => Step::Next(Stage::Queue, ops),
            Err((e, ops)) => Step::Failed(e, ops),
        },
        Stage::Queue => match setup_queue(v[0], rings) {
            Ok(ops) => Step::Next(Stage::Capacity, ops),
            Err(e) => Step::Failed(e, Vec::new()),
        },
        Stage::Capacity => Step::Done(finish_init(base, v[0], v[1])),
    }
}

// ---------------------------------------------------------------------------
// Requests
// ---------------------------------------------------------------------------

/// One request ready to go, in the order it is published: the header to
/// store and the status byte to preset (the device overwrites it), the
/// three-descriptor chain, the avail-ring slot and the head descriptor it
/// gets, the new avail index, the notification access, and the used index
/// that signals completion.
pub struct Submission {
    pub hdr: BlkReqHdr,
    pub status_init: u8,
    pub descs: Vec<Desc>,
    pub avail_slot: usize,
    pub avail_head: u16,
    pub avail_idx: u16,
    pub notify: Vec<MmioOp>,
    pub target: u16,
}

/// The notification of queue 0.
pub open spec fn notify_seq() -> Seq<MmioOp> {
    seq![MmioOp::Write { offset: QUEUE_NOTIFY, value: 0 }]
}

/// `x + 1` modulo 2^16.
pub open spec fn next_idx(x: u16) -> u16 {
    ((x + 1) % 0x10000) as u16
}

/// The descriptor chain of a request: header (read by the device), data
/// (written by the device for a read), status byte (written by the device).
pub open spec fn request_chain(
    buf_addr: u64,
    len: usize,
    device_writes: bool,
    hdr_addr: u64,
    status_addr: u64,
) -> Seq<Desc> {
    seq![
        Desc { addr: hdr_addr, len: 16, flags: DF_NEXT, next: 1 },
        Desc {
            addr: buf_addr,
            len: len as u32,
            flags: if device_writes {
                3u16
            } else {
                DF_NEXT
            },
            next: 2,
        },
        Desc { addr: status_addr, len: 1, flags: DF_WRITE, next: 0 },
    ]
}

/// Prepare one request on the data buffer at `buf_addr` of `len` bytes,
/// starting at sector `lba`; `avail_idx` is the current avail-ring index.
/// Refused unless the device is ready and `len` is a whole number of
/// sectors.
fn do_io(
    b: &Blk,
    ty: u32,
    lba: u64,
    buf_addr: u64,
    len: usize,
    device_writes: bool,
    hdr_addr: u64,
    status_addr: u64,
    avail_idx: u16,
) -> (r: Result<Submission, ()>)
    ensures
        !b.ready || len % SECTOR != 0 <==> r is Err,
        r matches Ok(s) ==> {
            &&& s.hdr == (BlkReqHdr { ty, reserved: 0, sector: lba })
            &&& s.descs@ == request_chain(buf_addr, len, device_writes, hdr_addr, status_addr)
            &&& s.status_init == 0xff
            &&& s.avail_slot == (avail_idx as int) % (QSIZE as int)
            &&& s.avail_head == 0
            &&& s.avail_idx == next_idx(avail_idx)
            &&& s.notify@ == notify_seq()
            &&& s.target == next_idx(b.last_used)
        },
{
    if !b.ready || len % SECTOR != 0 {
        return Err(());
    }
    let data_flags: u16 = if device_writes {
        DF_NEXT + DF_WRITE
    } else {
        DF_NEXT
    };
    let descs = vec![
        Desc { addr: hdr_addr, len: 16, flags: DF_NEXT, next: 1 },
        Desc { addr: buf_addr, len: len as u32, flags: data_flags, next: 2 },
        Desc { addr: status_addr, len: 1, flags: DF_WRITE, next: 0 },
    ];
    assert(descs@ =~= request_chain(buf_addr, len, device_writes, hdr_addr, status_addr));
    let notify = vec![MmioOp::Write { offset: QUEUE_NOTIFY, value: 0 }];
    assert(notify@ =~= notify_seq());
    Ok(
        Submission {
            hdr: BlkReqHdr { ty, reserved: 0, sector: lba },
            status_init: 0xff,
            descs,
            avail_slot: (avail_idx as usize) % QSIZE,
            avail_head: 0,
            avail_idx: avail_idx.wrapping_add(1),
            notify,
            target: b.last_used.wrapping_add(1),
        },
    )
}

/// Read `len` bytes (a multiple of 512) starting at sector `lba` into the
/// buffer at `buf_addr`.
pub fn read(
    b: &Blk,
    lba: u64,
    buf_addr: u64,
    len: usize,
    hdr_addr: u64,
    status_addr: u64,
    avail_idx: u16,
) -> (r: Result<Submission, ()>)
    ensures
        !b.ready || len % SECTOR != 0 <==> r is Err,
        r matches Ok(s) ==> {
            &&& s.hdr == (BlkReqHdr { ty: BLK_IN, reserved: 0, sector: lba })
            &&& s.descs@ == request_chain(buf_addr, len, true, hdr_addr, status_addr)
            &&& s.status_init == 0xff
            &&& s.avail_slot == (avail_idx as int) % (QSIZE as int)
            &&& s.avail_head == 0
            &&& s.avail_idx == next_idx(avail_idx)
            &&& s.notify@ == notify_seq()
            &&& s.target == next_idx(b.last_used)
        },
{
    do_io(b, BLK_IN, lba, buf_addr, len, true, hdr_addr, status_addr, avail_idx)
}

/// Write `len` bytes (a multiple of 512) from the buffer at `buf_addr`
/// starting at sector `lba`.
pub fn write(
    b: &Blk,
    lba: u64,
    buf_addr: u64,
    len: usize,
    hdr_addr: u64,
    status_addr: u64,
    avail_idx: u16,
) -> (r: Result<Submission, ()>)
    ensures
        !b.ready || len % SECTOR != 0 <==> r is Err,
        r matches Ok(s) ==> {
            &&& s.hdr == (BlkReqHdr { ty: BLK_OUT, reserved: 0, sector: lba })
            &&& s.descs@ == request_chain(buf_addr, len, false, hdr_addr, status_addr)
            &&& s.status_init == 0xff
            &&& s.avail_slot == (avail_idx as int) % (QSIZE as int)
            &&& s.avail_head == 0
            &&& s.avail_idx == next_idx(avail_idx)
            &&& s.notify@ == notify_seq()
            &&& s.target == next_idx(b.last_used)
        },
{
    do_io(b, BLK_OUT, lba, buf_addr, len, false, hdr_addr, status_addr, avail_idx)
}

/// Whether the used-ring index `used_idx` shows the request completed
/// (single request in flight: the next used index).
pub fn used_reached(s: &Submission, used_idx: u16) -> (r: bool)
    ensures
        r == (used_idx == s.target),
{
    used_idx == s.target
}

/// The request has completed: record its used index, acknowledge any
/// pending interrupt (`int_status` read from `INT_STATUS`), and report
/// the status byte the device wrote (0 is success).
pub fn complete(b: &mut Blk, s: &Submission, int_status: u32, status: u8) -> (r: (
    Result<(), ()>,
    Vec<MmioOp>,
))
    ensures
        *final(b) == (Blk { last_used: s.target, ..*old(b) }),
        r.0 is Ok <==> status == 0,
        int_status == 0 ==> r.1@ == Seq::<MmioOp>::empty(),
        int_status != 0 ==> r.1@ == seq![MmioOp::Write { offset: INT_ACK, value: int_status }],
{
    b.last_used = s.target;
    let mut ops: Vec<MmioOp> = Vec::new();
    if int_status != 0 {
        ops.push(MmioOp::Write { offset: INT_ACK, value: int_status });
        assert(ops@ =~= seq![MmioOp::Write { offset: INT_ACK, value: int_status }]);
    }
    if status != 0 {
        (Err(()), ops)
    } else {
        (Ok(()), ops)
    }
}

/// A request prepared by `read` or `write` and then completed moves the
/// driver's used index on by exactly one, modulo 2^16, and leaves the
/// device's base, capacity and readiness alone; so the next request waits
/// for the used index after this one.
pub proof fn lemma_request_round(before: Blk, s: Submission, after: Blk)
    requires
        s.target == next_idx(before.last_used),
        after == (Blk { last_used: s.target, ..before }),
    ensures
        after.last_used == (before.last_used + 1) % 0x10000,
        after.ready == before.ready,
        after.capacity == before.capacity,
        after.base == before.base,
        next_idx(after.last_used) == (before.last_used + 2) % 0x10000,
{
}

/// The values written to `STATUS`, in order.
pub open spec fn status_writes(ops: Seq<MmioOp>) -> Seq<u32>
    decreases ops.len(),
{
    if ops.len() == 0 {
        seq![]
    } else {
        let here: Seq<u32> = match ops[0] {
            MmioOp::Write { offset, value } => if offset == STATUS {
                seq![value]
            } else {
                seq![]
            },
            _ => seq![],
        };
        here + status_writes(ops.skip(1))
    }
}

proof fn lemma_status_writes_append(a: Seq<MmioOp>, b: Seq<MmioOp>)
    ensures
        status_writes(a + b) == status_writes(a) + status_writes(b),
    decreases a.len(),
{
    if a.len() == 0 {
        assert(a + b =~= b);
        assert(seq![] + status_writes(b) =~= status_writes(b));
    } else {
        assert((a + b).skip(1) =~= a.skip(1) + b);
        assert((a + b)[0] == a[0]);
        lemma_status_writes_append(a.skip(1), b);
        let here: Seq<u32> = match a[0] {
            MmioOp::Write { offset, value } => if offset == STATUS {
                seq![value]
            } else {
                seq![]
            },
            _ => seq![],
        };
        assert(here + (status_writes(a.skip(1)) + status_writes(b)) =~= (here + status_writes(a.skip(1)))
            + status_writes(b));
    }
}

/// Accesses that store nothing in `STATUS` contribute no status write.
proof fn lemma_no_status_writes(ops: Seq<MmioOp>)
    requires
        forall|k: int|
            0 <= k < ops.len() ==> !(#[trigger] ops[k] matches MmioOp::Write { offset, .. } && offset
                == STATUS),
    ensures
        status_writes(ops) == Seq::<u32>::empty(),
    decreases ops.len(),
{
    if ops.len() > 0 {
        assert forall|k: int| 0 <= k < ops.skip(1).len() implies !(#[trigger] ops.skip(1)[k] matches MmioOp::Write {
            offset,
            ..
        } && offset == STATUS) by {
            assert(ops.skip(1)[k] == ops[k + 1]);
        }
        lemma_no_status_writes(ops.skip(1));
        assert(Seq::<u32>::empty() + Seq::<u32>::empty() =~= Seq::<u32>::empty());
    }
}

/// One store into `STATUS` is one status write.
proof fn lemma_one_status_write(v: u32)
    ensures
        status_writes(seq![MmioOp::Write { offset: STATUS, value: v }]) == seq![v],
{
    reveal_with_fuel(status_writes, 2);
    assert(seq![MmioOp::Write { offset: STATUS, value: v }].skip(1) =~= Seq::<MmioOp>::empty());
    assert(seq![v] + Seq::<u32>::empty() =~= seq![v]);
}

proof fn lemma_status_of_steps(rings: RingAddrs)
    ensures
        status_writes(reset_seq()) == seq![0u32, ST_ACK, (ST_ACK + ST_DRIVER) as u32],
        status_writes(negotiate_seq()) == seq![(ST_ACK + ST_DRIVER + ST_FEATURES_OK) as u32],
        status_writes(confirm_seq()) == Seq::<u32>::empty(),
        status_writes(queue_ops(rings)) == seq![
            (ST_ACK + ST_DRIVER + ST_FEATURES_OK + ST_DRIVER_OK) as u32,
        ],
{
    let w0 = seq![MmioOp::Write { offset: STATUS, value: 0 }];
    let w1 = seq![MmioOp::Write { offset: STATUS, value: ST_ACK }];
    let w2 = seq![MmioOp::Write { offset: STATUS, value: (ST_ACK + ST_DRIVER) as u32 }];
    let sel = seq![MmioOp::Write { offset: DEV_FEAT_SEL, value: 1 }];
    assert(reset_seq() =~= w0 + w1 + w2 + sel);
    lemma_one_status_write(0);
    lemma_one_status_write(ST_ACK);
    lemma_one_status_write((ST_ACK + ST_DRIVER) as u32);
    lemma_no_status_writes(sel);
    lemma_status_writes_append(w0, w1);
    lemma_status_writes_append(w0 + w1, w2);
    lemma_status_writes_append(w0 + w1 + w2, sel);
    assert(seq![0u32] + seq![ST_ACK] + seq![(ST_ACK + ST_DRIVER) as u32] + Seq::<u32>::empty() =~= seq![
        0u32,
        ST_ACK,
        (ST_ACK + ST_DRIVER) as u32,
    ]);

    let feats = negotiate_seq().take(4);
    let ok = seq![MmioOp::Write { offset: STATUS, value: (ST_ACK + ST_DRIVER + ST_FEATURES_OK) as u32 }];
    assert(negotiate_seq() =~= feats + ok);
    lemma_no_status_writes(feats);
    lemma_one_status_write((ST_ACK + ST_DRIVER + ST_FEATURES_OK) as u32);
    lemma_status_writes_append(feats, ok);
    assert(Seq::<u32>::empty() + seq![(ST_ACK + ST_DRIVER + ST_FEATURES_OK) as u32] =~= seq![
        (ST_ACK + ST_DRIVER + ST_FEATURES_OK) as u32,
    ]);

    lemma_no_status_writes(confirm_seq());

    let q = queue_ops(rings).take(8);
    let done = seq![
        MmioOp::Write { offset: STATUS, value: (ST_ACK + ST_DRIVER + ST_FEATURES_OK + ST_DRIVER_OK) as u32 },
    ];
    assert(queue_ops(rings) =~= q + done);
    lemma_no_status_writes(q);
    lemma_one_status_write((ST_ACK + ST_DRIVER + ST_FEATURES_OK + ST_DRIVER_OK) as u32);
    lemma_status_writes_append(q, done);
    assert(Seq::<u32>::empty() + seq![(ST_ACK + ST_DRIVER + ST_FEATURES_OK + ST_DRIVER_OK) as u32] =~= seq![
        (ST_ACK + ST_DRIVER + ST_FEATURES_OK + ST_DRIVER_OK) as u32,
    ]);
}

/// A successful bring-up (`bring_up_start`, then `bring_up_step` through
/// the stages Features, Confirm, Queue, Capacity, each passing) takes the
/// device status through the driver initialisation steps of virtio in
/// order: reset, ACKNOWLEDGE, DRIVER, FEATURES_OK, DRIVER_OK, each write
/// keeping the bits set before.
pub proof fn lemma_bring_up_status(rings: RingAddrs)
    ensures
        next_stage(Stage::Features) == Stage::Confirm,
        next_stage(Stage::Confirm) == Stage::Queue,
        next_stage(Stage::Queue) == Stage::Capacity,
        stage_ops(Stage::Capacity, rings).len() == 0,
        status_writes(bring_up_ops(rings)) == seq![
            0u32,
            ST_ACK,
            (ST_ACK + ST_DRIVER) as u32,
            (ST_ACK + ST_DRIVER + ST_FEATURES_OK) as u32,
            (ST_ACK + ST_DRIVER + ST_FEATURES_OK + ST_DRIVER_OK) as u32,
        ],
{
    assert(bring_up_ops(rings) == reset_seq() + negotiate_seq() + confirm_seq() + queue_ops(rings));
    lemma_status_of_steps(rings);
    lemma_status_writes_append(reset_seq(), negotiate_seq());
    lemma_status_writes_append(reset_seq() + negotiate_seq(), confirm_seq());
    lemma_status_writes_append(reset_seq() + negotiate_seq() + confirm_seq(), queue_ops(rings));
    assert(seq![0u32, ST_ACK, (ST_ACK + ST_DRIVER) as u32] + seq![
        (ST_ACK + ST_DRIVER + ST_FEATURES_OK) as u32,
    ] + Seq::<u32>::empty() + seq![(ST_ACK + ST_DRIVER + ST_FEATURES_OK + ST_DRIVER_OK) as u32]
        =~= seq![
        0u32,
        ST_ACK,
        (ST_ACK + ST_DRIVER) as u32,
        (ST_ACK + ST_DRIVER + ST_FEATURES_OK) as u32,
        (ST_ACK + ST_DRIVER + ST_FEATURES_OK + ST_DRIVER_OK) as u32,
    ]);
}

/// Setting up queue 0 leaves each ring register pair holding the address
/// of its own ring, low word in `_LO` and high word in `_HI`: descriptors
/// in `QUEUE_DESC_*`, the avail (driver) ring in `QUEUE_DRV_*`, the used
/// (device) ring in `QUEUE_DEV_*`; the queue holds `QSIZE` entries, is
/// marked ready, and the status ends at DRIVER_OK with every earlier bit.
pub proof fn lemma_queue_rings(regs: spec_fn(usize) -> u32, rings: RingAddrs)
    ensures
        ({
            let after = mmio::apply_all(regs, queue_ops(rings));
            &&& after(QUEUE_DESC_HI) * 0x1_0000_0000 + after(QUEUE_DESC_LO) == rings.desc
            &&& after(QUEUE_DRV_HI) * 0x1_0000_0000 + after(QUEUE_DRV_LO) == rings.avail
            &&& after(QUEUE_DEV_HI) * 0x1_0000_0000 + after(QUEUE_DEV_LO) == rings.used
            &&& after(QUEUE_NUM) == QSIZE
            &&& after(QUEUE_READY) == 1
            &&& after(STATUS) == 15
        }),
{
    let ops = queue_ops(rings);
    mmio::lemma_apply_all_step(regs, ops, 0);
    let f1 = mmio::apply(regs, ops[0]);
    mmio::lemma_apply_all_step(f1, ops, 1);
    let f2 = mmio::apply(f1, ops[1]);
    mmio::lemma_apply_all_step(f2, ops, 2);
    let f3 = mmio::apply(f2, ops[2]);
    mmio::lemma_apply_all_step(f3, ops, 3);
    let f4 = mmio::apply(f3, ops[3]);
    mmio::lemma_apply_all_step(f4, ops, 4);
    let f5 = mmio::apply(f4, ops[4]);
    mmio::lemma_apply_all_step(f5, ops, 5);
    let f6 = mmio::apply(f5, ops[5]);
    mmio::lemma_apply_all_step(f6, ops, 6);
    let f7 = mmio::apply(f6, ops[6]);
    mmio::lemma_apply_all_step(f7, ops, 7);
    let f8 = mmio::apply(f7, ops[7]);
    mmio::lemma_apply_all_step(f8, ops, 8);
    let f9 = mmio::apply(f8, ops[8]);
    assert(ops.skip(0) =~= ops);
    assert(ops.skip(9).len() == 0);
    assert(mmio::apply_all(regs, ops) == f9);
    lemma_lo_hi(rings.desc);
    lemma_lo_hi(rings.avail);
    lemma_lo_hi(rings.used);
}

/// The driver feature words a sequence of accesses leaves, by word index
/// (0 for bits 31:0, 1 for bits 63:32): each `DRV_FEAT` write goes to the
/// word `DRV_FEAT_SEL` selects at that point (`sel` before the first
/// access), a later write to a word replacing an earlier one.
pub open spec fn driver_feature_words(ops: Seq<MmioOp>, sel: u32) -> Map<u32, u32>
    decreases ops.len(),
{
    if ops.len() == 0 {
        Map::empty()
    } else {
        match ops[0] {
            MmioOp::Write { offset, value } => if offset == DRV_FEAT_SEL {
                driver_feature_words(ops.skip(1), value)
            } else if offset == DRV_FEAT {
                let rest = driver_feature_words(ops.skip(1), sel);
                if rest.dom().contains(sel) {
                    rest
                } else {
                    rest.insert(sel, value)
                }
            } else {
                driver_feature_words(ops.skip(1), sel)
            },
            _ => driver_feature_words(ops.skip(1), sel),
        }
    }
}

/// Negotiation accepts exactly `VIRTIO_F_VERSION_1`: whatever word was
/// selected before, the driver features written are 0 in bits 31:0 and
/// only bit 32 (bit 0 of word 1) in bits 63:32, and no other word.
pub proof fn lemma_negotiate_features(sel: u32)
    ensures
        driver_feature_words(negotiate_seq(), sel) == map![0u32 => 0u32, 1u32 => 1u32],
{
    let s = negotiate_seq();
    assert forall|k: int| 0 <= k < 5 implies #[trigger] s.skip(k)[0] == s[k] && s.skip(k).skip(1) =~= s.skip(
        k + 1,
    ) by {}
    assert(s.skip(5).len() == 0);
    assert(driver_feature_words(s.skip(5), 1) == Map::<u32, u32>::empty());
    let m4 = driver_feature_words(s.skip(4), 1);
    assert(m4 == Map::<u32, u32>::empty());
    let m3 = driver_feature_words(s.skip(3), 1);
    assert(m3 == Map::<u32, u32>::empty().insert(1u32, 1u32));
    let m2 = driver_feature_words(s.skip(2), 0);
    assert(m2 == m3);
    let m1 = driver_feature_words(s.skip(1), 0);
    assert(!m3.dom().contains(0u32));
    assert(m1 == m3.insert(0u32, 0u32));
    assert(s.skip(0) =~= s);
    assert(driver_feature_words(s, sel) == m1);
    assert(m1 =~= map![0u32 => 0u32, 1u32 => 1u32]);
}

/// The ring indices count up by one and wrap from 0xFFFF to 0.
pub proof fn lemma_next_idx(x: u16)
    ensures
        x < 0xFFFF ==> next_idx(x) == x + 1,
        x == 0xFFFF ==> next_idx(x) == 0,
        next_idx(x) != x,
{
}

/// A request's descriptors form one chain 0 -> 1 -> 2: the 16-byte header
/// at `hdr_addr`, which the device only reads; the data buffer of `len`
/// bytes at `buf_addr`, which the device writes exactly when it serves a
/// read (`device_writes`); and the one status byte at `status_addr`, which
/// the device writes and which ends the chain.
pub proof fn lemma_request_chain(buf_addr: u64, len: usize, device_writes: bool, hdr_addr: u64, status_addr: u64)
    requires
        len <= u32::MAX,
    ensures
        ({
            let c = request_chain(buf_addr, len, device_writes, hdr_addr, status_addr);
            &&& c.len() == 3
            &&& c[0].addr == hdr_addr && c[0].len == 16
            &&& c[1].addr == buf_addr && c[1].len == len
            &&& c[2].addr == status_addr && c[2].len == 1
            &&& c[0].flags & DF_NEXT != 0 && c[0].next == 1
            &&& c[1].flags & DF_NEXT != 0 && c[1].next == 2
            &&& c[2].flags & DF_NEXT == 0
            &&& c[0].flags & DF_WRITE == 0
            &&& (c[1].flags & DF_WRITE != 0) == device_writes
            &&& c[2].flags & DF_WRITE != 0
        }),
{
    assert(1u16 & 1 != 0 && 1u16 & 2 == 0 && 3u16 & 1 != 0 && 3u16 & 2 != 0 && 2u16 & 1 == 0 && 2u16 & 2 != 0)
        by (bit_vector);
}

proof fn lemma_lo_hi(a: u64)
    ensures
        hi32(a) * 0x1_0000_0000 + lo32(a) == a,
{
    assert(a / 0x1_0000_0000 < 0x1_0000_0000);
}

} // verus!
