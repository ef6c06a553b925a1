//! Physical frames and the stage-1 translation tables.
//!
//! ```text
//!   VA                  region                     size      mapping
//!   ─────────────────────────────────────────────────────────────────────
//!   0x7F_FFFF_FFFF ──┐
//!                    │  unmapped (guard)           255 GiB   faults
//!   0x40_4000_0000 ──┼─────────────────────────────────────────────────────
//!                    │  PERSISTENT OBJECTS                   L2/L3, 4 KiB
//!                    │  slot 256+                            demand-paged
//!   0x40_0000_0000 ──┼─────────────────────────────────────────────────────
//!                    │  gap (RAM growth)           191 GiB   unmapped
//!   0x10_4000_0000 ──┼─────────────────────────────────────────────────────
//!                    │  MAIN RAM (identity)         64 GiB   block descs
//!                    │  slots 1..64, VA == PA                Normal WB, IS
//!       kernel end   │    ├─ frame allocator arena
//!        0x4008_0000 │    └─ kernel image, stacks, virtio rings
//!   0x4000_0000 ─────┼─────────────────────────────────────────────────────
//!                    │  DEVICE MMIO (identity)       1 GiB   1 block desc
//!                    │  slot 0: GIC, UART, virtio            Device-nGnRnE
//!   0x0000_0000 ─────┘
//! ```
//!
//! `PageTables` holds the tables as the kernel builds them: the L1 table,
//! and below each L1 table descriptor the L2 table it points to, and below
//! each L2 table descriptor the L3 table. Every change is also returned as
//! a list of `PtOp`s for the caller to carry out on the tables in memory.
use vstd::prelude::*;

verus! {

pub const PAGE: u64 = 4096;
pub const RAM_BASE: u64 = 0x4000_0000;
pub const RAM_GIB: u64 = 64;
pub const RAM_END: u64 = 0x10_4000_0000;

pub const MAP_RO: u64 = 0;
pub const MAP_RW: u64 = 1;

/// Output address bits 47:12 of a table or page descriptor.
pub const ADDR_MASK: u64 = 0x0000_FFFF_FFFF_F000;
/// Output address bits 47:30 of a 1 GiB block descriptor.
pub const BLOCK_ADDR_MASK: u64 = 0x0000_FFFF_C000_0000;

pub const DESC_BLOCK: u64 = 0b01;
pub const DESC_TABLE: u64 = 0b11;
pub const DESC_PAGE: u64 = 0b11;

pub const AF: u64 = 0x400;
pub const SH_INNER: u64 = 0x300;
pub const ATTR_NORMAL: u64 = 0x0;
pub const ATTR_DEVICE: u64 = 0x4;
pub const AP_RW_EL1: u64 = 0x00;
pub const AP_RO_EL1: u64 = 0x80;

/// T0SZ=25 (39-bit VA), WB-WA walks, inner shareable, 4 KiB granule,
/// EPD1=1 (TTBR1 unused), IPS=0b010 (40-bit PA).
pub const TCR: u64 = 0x2_0080_3519;
pub const MAIR: u64 = 0x0000_0000_0000_00FF;

/// Entries per table.
pub const ENTRIES: usize = 512;

/// L1 descriptor of the device slot: 1 GiB block, device memory.
pub const DEVICE_BLOCK: u64 = 0x405;
/// Attributes of a RAM block descriptor: normal memory, inner shareable.
pub const NORMAL_BLOCK: u64 = 0x701;

// ---------------------------------------------------------------------------
// Frames
// ---------------------------------------------------------------------------

/// The bump allocator of 4 KiB frames: frames are handed out from `start`
/// upwards; `next` is the next one. `next == 0` means not initialised.
pub struct Frames {
    pub next: u64,
    pub start: u64,
}

impl Frames {
    /// The allocator before `frames_init`: it hands out nothing.
    pub fn empty() -> (r: Self)
        ensures
            r.next == 0 && r.start == 0,
    {
        Frames { next: 0, start: 0 }
    }

    /// `n` more frames can be allocated.
    pub open spec fn can_alloc(&self, n: nat) -> bool {
        n == 0 || (self.next != 0 && self.next + n * PAGE <= RAM_END)
    }
}

/// `x` rounded up to a multiple of the page size.
pub open spec fn page_align_up(x: u64) -> int {
    ((x + PAGE - 1) / (PAGE as int)) * PAGE
}

proof fn lemma_align_up(x: u64)
    by (bit_vector)
    requires
        x <= 0xFFFF_FFFF_FFFF_F000,
    ensures
        (((x + 4095) as u64) & !4095u64) == ((x + 4095) / 4096) * 4096,
{
}

/// The allocator whose first frame is the first page boundary at or above
/// `kernel_end`, the end of the kernel image.
pub fn frames_init(kernel_end: u64) -> (f: Frames)
    requires
        kernel_end <= u64::MAX - (PAGE - 1),
    ensures
        f.start == f.next,
        f.start == page_align_up(kernel_end),
        f.start % PAGE == 0,
        kernel_end <= f.start < kernel_end + PAGE,
{
    proof {
        lemma_align_up(kernel_end);
    }
    let start = (kernel_end + (PAGE - 1)) & !(PAGE - 1);
    Frames { next: start, start }
}

/// What `alloc_frame` does: hand out `next` and move on a page, unless the
/// allocator is not initialised or that page would end past RAM.
pub open spec fn alloc_frame_post(old: Frames, new: Frames, r: Option<u64>) -> bool {
    &&& new.start == old.start
    &&& old.next == 0 || old.next + PAGE > RAM_END ==> r is None && new.next == old.next
    &&& old.next != 0 && old.next + PAGE <= RAM_END ==> r == Some(old.next) && new.next == old.next
        + PAGE
}

/// The frame an allocation handed out, if any.
pub open spec fn frame_of(r: Option<(u64, PtOp)>) -> Option<u64> {
    match r {
        Some((pa, _)) => Some(pa),
        None => None,
    }
}

/// The next 4 KiB frame of RAM, with the access that zeroes it (so that it
/// is usable as a page table at once), or `None` when the allocator is not
/// initialised or RAM is used up.
pub fn alloc_frame(f: &mut Frames) -> (r: Option<(u64, PtOp)>)
    ensures
        alloc_frame_post(*old(f), *final(f), frame_of(r)),
        r matches Some((pa, z)) ==> z == (PtOp::Zero { pa }),
{
    let fr = f.next;
    if fr == 0 || fr > RAM_END - PAGE {
        return None;
    }
    f.next = fr + PAGE;
    Some((fr, PtOp::Zero { pa: fr }))
}

/// The number of frames handed out since `frames_init`.
pub fn frames_used(f: &Frames) -> (r: u64)
    requires
        f.next >= f.start,
    ensures
        r == (f.next - f.start) / (PAGE as int),
{
    (f.next - f.start) / PAGE
}

/// Two allocations in a row, when two frames are available, hand out
/// distinct frames, the second a page after the first, and `frames_used`
/// counts both.
pub proof fn lemma_alloc_twice(f0: Frames, f1: Frames, f2: Frames, a: Option<u64>, b: Option<u64>)
    requires
        f0.start <= f0.next,
        alloc_frame_post(f0, f1, a),
        alloc_frame_post(f1, f2, b),
        f0.can_alloc(2),
    ensures
        a is Some && b is Some,
        a->0 != b->0,
        b->0 == a->0 + PAGE,
        (f2.next - f2.start) / (PAGE as int) == (f0.next - f0.start) / (PAGE as int) + 2,
{
    let d = f0.next - f0.start;
    assert((d + 2 * 4096) / 4096 == d / 4096 + 2) by (nonlinear_arith)
        requires
            d >= 0,
    ;
}

// ---------------------------------------------------------------------------
// Descriptors
// ---------------------------------------------------------------------------

/// The L1 index of `va`: bits 38:30.
pub open spec fn idx1(va: u64) -> int {
    ((va >> 30u64) & 0x1FFu64) as int
}

/// The L2 index of `va`: bits 29:21.
pub open spec fn idx2(va: u64) -> int {
    ((va >> 21u64) & 0x1FFu64) as int
}

/// The L3 index of `va`: bits 20:12.
pub open spec fn idx3(va: u64) -> int {
    ((va >> 12u64) & 0x1FFu64) as int
}

/// `va` and `va2` select the same entry at every level.
pub open spec fn same_slot(va: u64, va2: u64) -> bool {
    idx1(va) == idx1(va2) && idx2(va) == idx2(va2) && idx3(va) == idx3(va2)
}

/// The address `va` translates to through a 1 GiB block descriptor.
pub open spec fn block_out(e: u64, va: u64) -> u64 {
    (e & BLOCK_ADDR_MASK) | (va & 0x3FFF_FFFF)
}

/// The address `va` translates to through a page descriptor.
pub open spec fn page_out(e: u64, va: u64) -> u64 {
    (e & ADDR_MASK) | (va & 0xFFF)
}

/// The low attribute bits of a page descriptor: access flag, inner
/// shareable, normal memory, valid page, and read-only unless `MAP_RW`.
pub open spec fn page_attrs(flags: u64) -> u64 {
    if flags & MAP_RW != 0 {
        0x703
    } else {
        0x783
    }
}

/// The page descriptor that maps a page to frame `pa`.
pub open spec fn page_desc(pa: u64, flags: u64) -> u64 {
    (pa & ADDR_MASK) | page_attrs(flags)
}

/// The L1 descriptor `init` gives slot `i`: the device block for slot 0,
/// an identity RAM block for slots 1 to `RAM_GIB`.
pub open spec fn identity_block(i: int) -> u64 {
    if i == 0 {
        DEVICE_BLOCK
    } else {
        ((i * 0x4000_0000) + NORMAL_BLOCK) as u64
    }
}

/// The page descriptor `map_page` stores maps to the frame's address
/// (bits 47:12 of `pa`) as a valid page with the access flag set, inner
/// shareable normal memory (attribute index 0), writable at EL1 exactly
/// when `flags` has `MAP_RW` (AP bits 7:6 are 0b00, else 0b10, read-only),
/// and no other bit set.
pub proof fn lemma_page_desc_bits(pa: u64, flags: u64)
    ensures
        ({
            let d = page_desc(pa, flags);
            &&& d & 3 == DESC_PAGE
            &&& (d >> 10u64) & 1 == 1
            &&& (d >> 8u64) & 3 == 3
            &&& (d >> 2u64) & 7 == 0
            &&& ((d >> 6u64) & 3 == 0) == (flags & MAP_RW != 0)
            &&& ((d >> 6u64) & 3 == 2) == (flags & MAP_RW == 0)
            &&& d & ADDR_MASK == pa & ADDR_MASK
            &&& d & !(ADDR_MASK | 0x7FFu64) == 0
        }),
{
    let a = pa & ADDR_MASK;
    assert(({
        let d = a | 0x703u64;
        &&& d & 3 == 3
        &&& (d >> 10u64) & 1 == 1
        &&& (d >> 8u64) & 3 == 3
        &&& (d >> 2u64) & 7 == 0
        &&& (d >> 6u64) & 3 == 0
        &&& d & 0x0000_FFFF_FFFF_F000u64 == a
        &&& d & !(0x0000_FFFF_FFFF_F000u64 | 0x7FFu64) == 0
    }) && ({
        let d = a | 0x783u64;
        &&& d & 3 == 3
        &&& (d >> 10u64) & 1 == 1
        &&& (d >> 8u64) & 3 == 3
        &&& (d >> 2u64) & 7 == 0
        &&& (d >> 6u64) & 3 == 2
        &&& d & 0x0000_FFFF_FFFF_F000u64 == a
        &&& d & !(0x0000_FFFF_FFFF_F000u64 | 0x7FFu64) == 0
    })) by (bit_vector)
        requires
            a == pa & 0x0000_FFFF_FFFF_F000u64,
    ;
}

/// The L1 descriptors `init` stores: valid 1 GiB blocks with the access
/// flag set; slot 0 device memory (attribute index 1, not shareable)
/// at address 0, slot `i` of RAM normal inner-shareable memory (attribute
/// index 0) at address `i` GiB, so that every address maps to itself.
pub proof fn lemma_identity_block_bits(i: int)
    requires
        0 <= i <= RAM_GIB,
    ensures
        ({
            let d = identity_block(i);
            &&& d & 3 == DESC_BLOCK
            &&& (d >> 10u64) & 1 == 1
            &&& d & BLOCK_ADDR_MASK == i * 0x4000_0000
            &&& i == 0 ==> (d >> 2u64) & 7 == 1 && (d >> 8u64) & 3 == 0
            &&& i != 0 ==> (d >> 2u64) & 7 == 0 && (d >> 8u64) & 3 == 3
            &&& (d >> 6u64) & 3 == 0
        }),
{
    if i == 0 {
        assert({
            let d = 0x405u64;
            &&& d & 3 == 1
            &&& (d >> 10u64) & 1 == 1
            &&& d & 0x0000_FFFF_C000_0000u64 == 0
            &&& (d >> 2u64) & 7 == 1 && (d >> 8u64) & 3 == 0
            &&& (d >> 6u64) & 3 == 0
        }) by (bit_vector);
    } else {
        let k = i as u64;
        let d = identity_block(i);
        assert(d == k * 0x4000_0000 + 0x701);
        assert(({
            let e = (k * 0x4000_0000u64 + 0x701u64) as u64;
            &&& e & 3 == 1
            &&& (e >> 10u64) & 1 == 1
            &&& e & 0x0000_FFFF_C000_0000u64 == k * 0x4000_0000u64
            &&& (e >> 2u64) & 7 == 0 && (e >> 8u64) & 3 == 3
            &&& (e >> 6u64) & 3 == 0
        })) by (bit_vector)
            requires
                1 <= k <= 64,
        ;
    }
}

proof fn lemma_indices(va: u64)
    by (bit_vector)
    ensures
        (va >> 30u64) & 0x1FFu64 < 512,
        (va >> 21u64) & 0x1FFu64 < 512,
        (va >> 12u64) & 0x1FFu64 < 512,
        0u64 & 3u64 == 0,
{
}

proof fn lemma_desc_fields(a: u64, c: u64)
    by (bit_vector)
    requires
        c < 4096,
    ensures
        ((a & 0x0000_FFFF_FFFF_F000u64) | c) & 0x0000_FFFF_FFFF_F000u64 == a & 0x0000_FFFF_FFFF_F000u64,
        ((a & 0x0000_FFFF_FFFF_F000u64) | c) & 3 == c & 3,
        c & 3 < 4,
        a & 3 < 4,
{
}

proof fn lemma_identity_blocks(va: u64)
    by (bit_vector)
    requires
        va < 0x10_4000_0000u64,
    ensures
        (va >> 30u64) & 0x1FFu64 == va >> 30u64,
        va >> 30u64 <= 64,
        (0x405u64 & 3) == 1,
        (va >> 30u64) == 0 ==> ((0x405u64 & 0x0000_FFFF_C000_0000u64) | (va & 0x3FFF_FFFFu64)) == va,
        (((va >> 30u64) << 30u64) | 0x701u64) & 3 == 1,
        ((((va >> 30u64) << 30u64) | 0x701u64) & 0x0000_FFFF_C000_0000u64) | (va & 0x3FFF_FFFFu64)
            == va,
        ((va >> 30u64) << 30u64) | 0x701u64 == (va >> 30u64) * 0x4000_0000u64 + 0x701u64,
{
}

proof fn lemma_ram_slot(i: u64)
    by (bit_vector)
    requires
        1 <= i <= 64,
    ensures
        ((i * 0x4000_0000u64) as u64) >> 30u64 == i,
        ((i * 0x4000_0000u64) as u64) | 0x701u64 == i * 0x4000_0000u64 + 0x701u64,
        (((i * 0x4000_0000u64) as u64) | 0x701u64) & 3u64 == 1,
        i * 0x4000_0000u64 + 0x701u64 <= u64::MAX,
{
}

// ---------------------------------------------------------------------------
// Tables
// ---------------------------------------------------------------------------

/// One translation table: 512 descriptors, stored at physical address `pa`.
pub struct Table {
    pub pa: u64,
    pub entries: Vec<u64>,
}

/// An L2 table and the L3 tables its table descriptors point to (`next[j]`
/// for descriptor `j`).
pub struct Directory {
    pub table: Table,
    pub next: Vec<Option<Table>>,
}

/// The L1 table (`root`), the L2 directories below its table descriptors,
/// and the frames new tables come from.
pub struct PageTables {
    pub root: Table,
    pub next: Vec<Option<Directory>>,
    pub frames: Frames,
}

/// A change to make to the tables in memory, in order.
#[derive(Clone, Copy, PartialEq, Eq, Debug, Structural)]
pub enum PtOp {
    /// Fill the frame at `pa` with zeroes (a new table).
    Zero { pa: u64 },
    /// Store `value` in entry `index` of the table at `table`.
    Store { table: u64, index: usize, value: u64 },
    /// Drop stale TLB entries for the page with number `page` (VA >> 12).
    Invalidate { page: u64 },
}

/// A table of 512 entries in a page-aligned frame below `bound`.
pub open spec fn table_wf(t: Table, bound: u64) -> bool {
    &&& t.entries.len() == ENTRIES
    &&& t.pa % PAGE == 0
    &&& t.pa < bound
}

/// Table descriptor `e` leads to `child` exactly when it is a table
/// descriptor, and then to the frame that holds `child`.
pub open spec fn link_ok(e: u64, child: Option<Table>) -> bool {
    match child {
        Some(t) => e & 3 == DESC_TABLE && e & ADDR_MASK == t.pa,
        None => e & 3 != DESC_TABLE,
    }
}

/// L1 descriptor `e` leads to directory `child` as `link_ok` says for its
/// L2 table.
pub open spec fn dir_link_ok(e: u64, child: Option<Directory>) -> bool {
    match child {
        Some(d) => e & 3 == DESC_TABLE && e & ADDR_MASK == d.table.pa,
        None => e & 3 != DESC_TABLE,
    }
}

impl Directory {
    pub open spec fn wf(&self, bound: u64) -> bool {
        &&& table_wf(self.table, bound)
        &&& self.next.len() == ENTRIES
        &&& forall|j: int|
            0 <= j < ENTRIES ==> #[trigger] link_ok(self.table.entries@[j], self.next@[j]) && (
            self.next@[j] matches Some(t) ==> table_wf(t, bound))
    }
}

/// A new table of zero entries at `pa`.
fn zero_table(pa: u64) -> (t: Table)
    ensures
        t.pa == pa,
        t.entries@ == Seq::new(ENTRIES as nat, |i: int| 0u64),
{
    let mut entries: Vec<u64> = Vec::new();
    let mut i: usize = 0;
    while i < ENTRIES
        invariant
            i <= ENTRIES,
            entries@ == Seq::new(i as nat, |k: int| 0u64),
        decreases ENTRIES - i,
    {
        entries.push(0);
        i = i + 1;
    }
    Table { pa, entries }
}

/// A new L2 table of zero entries at `pa`, with no L3 tables.
fn empty_directory(pa: u64) -> (d: Directory)
    ensures
        d.table.pa == pa,
        d.table.entries@ == Seq::new(ENTRIES as nat, |i: int| 0u64),
        d.next@ == Seq::new(ENTRIES as nat, |i: int| None::<Table>),
{
    let table = zero_table(pa);
    let mut next: Vec<Option<Table>> = Vec::new();
    let mut i: usize = 0;
    while i < ENTRIES
        invariant
            i <= ENTRIES,
            next@ == Seq::new(i as nat, |k: int| None::<Table>),
        decreases ENTRIES - i,
    {
        next.push(None);
        i = i + 1;
    }
    Directory { table, next }
}

impl PageTables {
    /// Every table descriptor leads to the table it points at, every table
    /// has 512 entries in a page-aligned frame handed out before
    /// `frames.next`, no two tables share a frame, and the next frame is
    /// page aligned.
    pub open spec fn wf(&self) -> bool {
        &&& self.root.entries.len() == ENTRIES
        &&& self.next.len() == ENTRIES
        &&& self.frames.next % PAGE == 0
        &&& forall|i: int|
            0 <= i < ENTRIES ==> #[trigger] dir_link_ok(self.root.entries@[i], self.next@[i])
                && (self.next@[i] matches Some(d) ==> d.wf(self.frames.next))
        &&& self.frames_owned()
    }

    /// There is an L2 table below L1 descriptor `i`.
    pub open spec fn has_dir(&self, i: int) -> bool {
        0 <= i < ENTRIES && self.next@[i] is Some
    }

    /// The frame of the L2 table below L1 descriptor `i`.
    pub open spec fn dir_pa(&self, i: int) -> u64 {
        (self.next@[i]->0).table.pa
    }

    /// There is an L3 table below descriptor `j` of the L2 table below L1
    /// descriptor `i`.
    pub open spec fn has_l3(&self, i: int, j: int) -> bool {
        self.has_dir(i) && 0 <= j < ENTRIES && (self.next@[i]->0).next@[j] is Some
    }

    /// The frame of that L3 table.
    pub open spec fn l3_pa(&self, i: int, j: int) -> u64 {
        ((self.next@[i]->0).next@[j]->0).pa
    }

    /// The tables below the root live in frames of the allocator's arena
    /// (from `frames.start`), the root does not, and no two tables share a
    /// frame.
    pub open spec fn frames_owned(&self) -> bool {
        &&& self.frames.start <= self.frames.next
        &&& self.frames.next == 0 || self.root.pa < self.frames.start
        &&& forall|i: int| #[trigger] self.has_dir(i) ==> self.frames.start <= self.dir_pa(i)
        &&& forall|i: int, j: int| #[trigger] self.has_l3(i, j) ==> self.frames.start <= self.l3_pa(i, j)
        &&& forall|i: int, i2: int|
            #[trigger] self.has_dir(i) && #[trigger] self.has_dir(i2) && i != i2 ==> self.dir_pa(i)
                != self.dir_pa(i2)
        &&& forall|i: int, i2: int, j: int|
            #[trigger] self.has_dir(i) && #[trigger] self.has_l3(i2, j) ==> self.dir_pa(i) != self.l3_pa(
                i2,
                j,
            )
        &&& forall|i: int, j: int, i2: int, j2: int|
            #[trigger] self.has_l3(i, j) && #[trigger] self.has_l3(i2, j2) && (i != i2 || j != j2)
                ==> self.l3_pa(i, j) != self.l3_pa(i2, j2)
    }

    /// The L3 descriptor a walk for `va` reaches through two table
    /// descriptors, if it gets that far.
    pub open spec fn page_entry(&self, va: u64) -> Option<u64> {
        let e1 = self.root.entries@[idx1(va)];
        if e1 & 3 == DESC_TABLE {
            match self.next@[idx1(va)] {
                Some(d) => {
                    let e2 = d.table.entries@[idx2(va)];
                    if e2 & 3 == DESC_TABLE {
                        match d.next@[idx2(va)] {
                            Some(t) => Some(t.entries@[idx3(va)]),
                            None => None,
                        }
                    } else {
                        None
                    }
                },
                None => None,
            }
        } else {
            None
        }
    }

    /// Where `va` leads: through an L1 block descriptor, or through a page
    /// descriptor at the end of a walk; `None` when it is not mapped.
    pub open spec fn translate(&self, va: u64) -> Option<u64> {
        let e1 = self.root.entries@[idx1(va)];
        if e1 & 3 == DESC_BLOCK {
            Some(block_out(e1, va))
        } else {
            match self.page_entry(va) {
                Some(e3) => if e3 & 3 == DESC_PAGE {
                    Some(page_out(e3, va))
                } else {
                    None
                },
                None => None,
            }
        }
    }

    /// How many new tables `map_page(va, ..)` needs: an L2 table when the
    /// L1 descriptor is invalid, an L3 table when the L2 descriptor is
    /// invalid or about to be created.
    pub open spec fn frames_needed(&self, va: u64) -> nat {
        let e1 = self.root.entries@[idx1(va)];
        if e1 & 3 == 0 {
            2
        } else {
            match self.next@[idx1(va)] {
                Some(d) => if d.table.entries@[idx2(va)] & 3 == 0 {
                    1
                } else {
                    0
                },
                None => 0,
            }
        }
    }

    /// The walk for `va` meets a block or reserved descriptor where it
    /// needs a table descriptor (or an invalid one it can replace): at L1,
    /// or at L2 below an L1 table descriptor.
    pub open spec fn block_in_the_way(&self, va: u64) -> bool {
        let e1 = self.root.entries@[idx1(va)];
        ||| !(e1 & 3 == 0 || e1 & 3 == DESC_TABLE)
        ||| e1 & 3 == DESC_TABLE && match self.next@[idx1(va)] {
            Some(d) => !(d.table.entries@[idx2(va)] & 3 == 0 || d.table.entries@[idx2(va)] & 3
                == DESC_TABLE),
            None => false,
        }
    }

    /// `map_page(va, ..)` finds no block or reserved descriptor on its way
    /// and enough free frames for the tables it has to create.
    pub open spec fn can_map(&self, va: u64) -> bool {
        let e1 = self.root.entries@[idx1(va)];
        &&& e1 & 3 == 0 || e1 & 3 == DESC_TABLE
        &&& e1 & 3 == DESC_TABLE ==> match self.next@[idx1(va)] {
            Some(d) => d.table.entries@[idx2(va)] & 3 == 0 || d.table.entries@[idx2(va)] & 3
                == DESC_TABLE,
            None => true,
        }
        &&& self.frames.can_alloc(self.frames_needed(va))
    }

    /// Empty tables: an L1 table of invalid descriptors at `root_pa`, with
    /// new tables taken from `frames`.
    pub fn new(root_pa: u64, frames: Frames) -> (r: Self)
        requires
            frames.next % PAGE == 0,
            frames.start <= frames.next,
            frames.next == 0 || root_pa < frames.start,
        ensures
            r.wf(),
            r.root.pa == root_pa,
            r.root.entries@ == Seq::new(ENTRIES as nat, |i: int| 0u64),
            r.next@ == Seq::new(ENTRIES as nat, |i: int| None::<Directory>),
            r.frames == frames,
            forall|va: u64| #[trigger] r.translate(va) is None,
    {
        let root = zero_table(root_pa);
        let mut next: Vec<Option<Directory>> = Vec::new();
        let mut i: usize = 0;
        while i < ENTRIES
            invariant
                i <= ENTRIES,
                next@ == Seq::new(i as nat, |k: int| None::<Directory>),
            decreases ENTRIES - i,
        {
            next.push(None);
            i = i + 1;
        }
        let r = PageTables { root, next, frames };
        proof {
            lemma_indices(0);
        }
        assert forall|va: u64| #[trigger] r.translate(va) is None by {
            lemma_indices(va);
        }
        r
    }
}

proof fn lemma_frame_desc(pa: u64)
    by (bit_vector)
    requires
        pa % 4096 == 0,
        pa < 0x1_0000_0000_0000u64,
    ensures
        pa & 0x0000_FFFF_FFFF_F000u64 == pa,
        ((pa & 0x0000_FFFF_FFFF_F000u64) | 3u64) & 0x0000_FFFF_FFFF_F000u64 == pa,
        ((pa & 0x0000_FFFF_FFFF_F000u64) | 3u64) & 3u64 == 3,
{
}

proof fn lemma_page_desc(pa: u64, va: u64, c: u64)
    by (bit_vector)
    requires
        c == 0x703 || c == 0x783,
    ensures
        ((pa & 0x0000_FFFF_FFFF_F000u64) | c) & 3u64 == 3,
        (((pa & 0x0000_FFFF_FFFF_F000u64) | c) & 0x0000_FFFF_FFFF_F000u64) | (va & 0xFFFu64) == (pa
            & 0x0000_FFFF_FFFF_F000u64) | (va & 0xFFFu64),
{
}

/// A directory that is well formed for a bound stays so for a larger one.
proof fn lemma_dir_wf_mono(d: Directory, b1: u64, b2: u64)
    requires
        d.wf(b1),
        b1 <= b2,
    ensures
        d.wf(b2),
{
    assert forall|j: int| 0 <= j < ENTRIES implies #[trigger] link_ok(d.table.entries@[j], d.next@[j]) && (
    d.next@[j] matches Some(t) ==> table_wf(t, b2)) by {
        assert(link_ok(d.table.entries@[j], d.next@[j]));
    }
}

/// A frame for another use than a table, taken from the tables' own
/// allocator (as `alloc_frame`), with the access that zeroes it. The
/// tables stay as they were and well formed: every address translates as
/// before, and no table lives in the frame handed out.
pub fn alloc_page_frame(pt: &mut PageTables) -> (r: Option<(u64, PtOp)>)
    requires
        old(pt).wf(),
    ensures
        final(pt).wf(),
        final(pt).root == old(pt).root,
        final(pt).next == old(pt).next,
        alloc_frame_post(old(pt).frames, final(pt).frames, frame_of(r)),
        r matches Some((pa, z)) ==> z == (PtOp::Zero { pa }) && !holds_table(*old(pt), pa),
        forall|va: u64| #[trigger] final(pt).translate(va) == old(pt).translate(va),
{
    let ghost pt0 = *pt;
    let r = alloc_frame(&mut pt.frames);
    proof {
        assert forall|i: int| 0 <= i < ENTRIES && #[trigger] pt.next@[i] is Some implies (pt.next@[i]->0).wf(
            pt.frames.next,
        ) by {
            assert(dir_link_ok(pt0.root.entries@[i], pt0.next@[i]));
            lemma_dir_wf_mono(pt0.next@[i]->0, pt0.frames.next, pt.frames.next);
        }
        assert forall|i: int| 0 <= i < ENTRIES implies #[trigger] dir_link_ok(pt.root.entries@[i], pt.next@[i])
            && (pt.next@[i] matches Some(d) ==> d.wf(pt.frames.next)) by {
            assert(dir_link_ok(pt0.root.entries@[i], pt0.next@[i]));
            if pt.next@[i] is Some {
                lemma_dir_wf_mono(pt0.next@[i]->0, pt0.frames.next, pt.frames.next);
            }
        }
        assert forall|i: int| #[trigger] pt.has_dir(i) implies pt.dir_pa(i) == pt0.dir_pa(i) && pt0.has_dir(i) by {}
        assert forall|i: int, j: int| #[trigger] pt.has_l3(i, j) implies pt.l3_pa(i, j) == pt0.l3_pa(i, j) && pt0.has_l3(i, j) by {}
        assert(pt.frames_owned());
        if r is Some {
            lemma_fresh_frame(pt0);
        }
    }
    r
}

/// The entries of the frame at `pa` after one access, when it held
/// `before`: a zeroing of that frame clears all 512 entries, a store into
/// it replaces one, any other access leaves it alone.
pub open spec fn frame_step(before: Seq<u64>, op: PtOp, pa: u64) -> Seq<u64> {
    match op {
        PtOp::Zero { pa: p } => if p == pa {
            Seq::new(ENTRIES as nat, |i: int| 0u64)
        } else {
            before
        },
        PtOp::Store { table, index, value } => if table == pa && index < before.len() {
            before.update(index as int, value)
        } else {
            before
        },
        PtOp::Invalidate { .. } => before,
    }
}

/// The entries of the frame at `pa` after the accesses `ops`, in order.
pub open spec fn frame_after(before: Seq<u64>, ops: Seq<PtOp>, pa: u64) -> Seq<u64>
    decreases ops.len(),
{
    if ops.len() == 0 {
        before
    } else {
        frame_after(frame_step(before, ops[0], pa), ops.skip(1), pa)
    }
}

/// Carrying out `ops` on the memory that holds the tables of `old` leaves
/// every table of `new` in its frame: the root, and each L2 and L3 table,
/// whether it was there before (it then held `old`'s table) or is new (its
/// frame then held anything at all).
pub open spec fn ops_realize(old: PageTables, new: PageTables, ops: Seq<PtOp>) -> bool {
    &&& new.root.entries@ == frame_after(old.root.entries@, ops, new.root.pa)
    &&& forall|i: int|
        #[trigger] new.has_dir(i) ==> if old.has_dir(i) && old.dir_pa(i) == new.dir_pa(i) {
            (new.next@[i]->0).table.entries@ == frame_after(
                (old.next@[i]->0).table.entries@,
                ops,
                new.dir_pa(i),
            )
        } else {
            forall|junk: Seq<u64>|
                #[trigger] frame_after(junk, ops, new.dir_pa(i)) == (new.next@[i]->0).table.entries@
        }
    &&& forall|i: int, j: int|
        #[trigger] new.has_l3(i, j) ==> if old.has_l3(i, j) && old.l3_pa(i, j) == new.l3_pa(i, j) {
            ((new.next@[i]->0).next@[j]->0).entries@ == frame_after(
                ((old.next@[i]->0).next@[j]->0).entries@,
                ops,
                new.l3_pa(i, j),
            )
        } else {
            forall|junk: Seq<u64>|
                #[trigger] frame_after(junk, ops, new.l3_pa(i, j)) == ((new.next@[i]->0).next@[j]->0).entries@
        }
}

/// Accesses that neither zero nor store into the frame at `pa` leave it
/// alone.
proof fn lemma_frame_untouched(before: Seq<u64>, ops: Seq<PtOp>, pa: u64)
    requires
        forall|k: int|
            0 <= k < ops.len() ==> !(#[trigger] ops[k] matches PtOp::Zero { pa: p } && p == pa) && !(
            ops[k] matches PtOp::Store { table, .. } && table == pa),
    ensures
        frame_after(before, ops, pa) == before,
    decreases ops.len(),
{
    if ops.len() > 0 {
        assert forall|k: int|
            0 <= k < ops.skip(1).len() implies !(#[trigger] ops.skip(1)[k] matches PtOp::Zero { pa: p } && p == pa)
            && !(ops.skip(1)[k] matches PtOp::Store { table, .. } && table == pa) by {
            assert(ops.skip(1)[k] == ops[k + 1]);
        }
        assert(frame_step(before, ops[0], pa) == before);
        lemma_frame_untouched(before, ops.skip(1), pa);
    }
}

/// One more access at the end acts on what the earlier ones left.
proof fn lemma_frame_after_push(before: Seq<u64>, ops: Seq<PtOp>, op: PtOp, pa: u64)
    ensures
        frame_after(before, ops.push(op), pa) == frame_step(frame_after(before, ops, pa), op, pa),
    decreases ops.len(),
{
    reveal_with_fuel(frame_after, 2);
    if ops.len() == 0 {
        assert(ops.push(op).skip(1) =~= Seq::<PtOp>::empty());
    } else {
        assert(ops.push(op).skip(1) =~= ops.skip(1).push(op));
        assert(ops.push(op)[0] == ops[0]);
        lemma_frame_after_push(frame_step(before, ops[0], pa), ops.skip(1), op, pa);
    }
}

/// The tables of `pt` live below `frames.next`.
proof fn lemma_below_next(pt: PageTables)
    requires
        pt.wf(),
    ensures
        forall|i: int| #[trigger] pt.has_dir(i) ==> pt.dir_pa(i) < pt.frames.next,
        forall|i: int, j: int| #[trigger] pt.has_l3(i, j) ==> pt.l3_pa(i, j) < pt.frames.next,
{
    assert forall|i: int| #[trigger] pt.has_dir(i) implies pt.dir_pa(i) < pt.frames.next by {
        assert(dir_link_ok(pt.root.entries@[i], pt.next@[i]));
    }
    assert forall|i: int, j: int| #[trigger] pt.has_l3(i, j) implies pt.l3_pa(i, j) < pt.frames.next by {
        assert(dir_link_ok(pt.root.entries@[i], pt.next@[i]));
        let d = pt.next@[i]->0;
        assert(link_ok(d.table.entries@[j], d.next@[j]));
    }
}

/// Frame ownership survives a change that keeps the allocator and the
/// root, and adds tables only at L1 slot `i1` (in frame `f`) and below
/// its descriptor `i2` (in frame `g`), both fresh frames; every other
/// table stays in its frame.
proof fn lemma_owned_after(
    old: PageTables,
    new: PageTables,
    i1: int,
    i2: int,
    dir_new: bool,
    f: u64,
    l3_new: bool,
    g: u64,
)
    requires
        old.wf(),
        new.frames.start == old.frames.start,
        new.frames.next >= old.frames.next,
        old.frames.next != 0 || new.frames.next == 0,
        new.root.pa == old.root.pa,
        dir_new ==> f >= old.frames.next,
        l3_new ==> g >= old.frames.next,
        dir_new && l3_new ==> f != g,
        forall|i: int| #[trigger] new.has_dir(i) ==> (old.has_dir(i) && new.dir_pa(i) == old.dir_pa(i)) || (
        dir_new && i == i1 && new.dir_pa(i) == f),
        forall|i: int, j: int|
            #[trigger] new.has_l3(i, j) ==> (old.has_l3(i, j) && new.l3_pa(i, j) == old.l3_pa(i, j)) || (l3_new
                && i == i1 && j == i2 && new.l3_pa(i, j) == g),
    ensures
        new.frames_owned(),
{
    lemma_below_next(old);
    assert forall|i: int, i2b: int|
        #[trigger] new.has_dir(i) && #[trigger] new.has_dir(i2b) && i != i2b implies new.dir_pa(i) != new.dir_pa(
        i2b,
    ) by {
        if old.has_dir(i) && old.has_dir(i2b) {
            assert(old.has_dir(i) && old.has_dir(i2b));
        }
    }
    assert forall|i: int, ib: int, j: int|
        #[trigger] new.has_dir(i) && #[trigger] new.has_l3(ib, j) implies new.dir_pa(i) != new.l3_pa(ib, j) by {
        if old.has_dir(i) && old.has_l3(ib, j) {
            assert(old.has_dir(i) && old.has_l3(ib, j));
        }
    }
    assert forall|i: int, j: int, ib: int, jb: int|
        #[trigger] new.has_l3(i, j) && #[trigger] new.has_l3(ib, jb) && (i != ib || j != jb) implies new.l3_pa(i, j)
        != new.l3_pa(ib, jb) by {
        if old.has_l3(i, j) && old.has_l3(ib, jb) {
            assert(old.has_l3(i, j) && old.has_l3(ib, jb));
        }
    }
}

/// Frame ownership survives a change that keeps the allocator and the
/// root and adds no table: every table of `new` is one of `old`, in the
/// same frame.
proof fn lemma_owned_same(old: PageTables, new: PageTables)
    requires
        old.wf(),
        new.frames == old.frames,
        new.root.pa == old.root.pa,
        forall|i: int| #[trigger] new.has_dir(i) ==> old.has_dir(i) && new.dir_pa(i) == old.dir_pa(i),
        forall|i: int, j: int|
            #[trigger] new.has_l3(i, j) ==> old.has_l3(i, j) && new.l3_pa(i, j) == old.l3_pa(i, j),
    ensures
        new.frames_owned(),
{
    assert forall|i: int, i2b: int|
        #[trigger] new.has_dir(i) && #[trigger] new.has_dir(i2b) && i != i2b implies new.dir_pa(i) != new.dir_pa(
        i2b,
    ) by {
        assert(old.has_dir(i) && old.has_dir(i2b));
    }
    assert forall|i: int, ib: int, j: int|
        #[trigger] new.has_dir(i) && #[trigger] new.has_l3(ib, j) implies new.dir_pa(i) != new.l3_pa(ib, j) by {
        assert(old.has_dir(i) && old.has_l3(ib, j));
    }
    assert forall|i: int, j: int, ib: int, jb: int|
        #[trigger] new.has_l3(i, j) && #[trigger] new.has_l3(ib, jb) && (i != ib || j != jb) implies new.l3_pa(i, j)
        != new.l3_pa(ib, jb) by {
        assert(old.has_l3(i, j) && old.has_l3(ib, jb));
    }
}

/// What `map_page(va, pa, flags)` leaves behind: well-formed tables in
/// which `va`'s walk ends at the page descriptor for `pa`, so `va`
/// translates to `pa`'s page plus `va`'s offset in it, every address in
/// another page translating as before, and the frames for the new tables
/// taken from the allocator.
pub open spec fn map_page_post(old: PageTables, new: PageTables, va: u64, pa: u64, flags: u64) -> bool {
    &&& new.wf()
    &&& new.root.pa == old.root.pa
    &&& new.frames.start == old.frames.start
    &&& new.frames.next == old.frames.next + old.frames_needed(va) * PAGE
    &&& new.page_entry(va) == Some(page_desc(pa, flags))
    &&& new.translate(va) == Some((pa & ADDR_MASK) | (va & 0xFFF))
    &&& forall|va2: u64| !same_slot(va, va2) ==> #[trigger] new.translate(va2) == old.translate(va2)
}

/// What `unmap_page(va)` leaves behind: when `va`'s walk reaches an L3
/// descriptor, that descriptor is cleared and `va` no longer translates;
/// otherwise nothing changes. Every address in another page translates as
/// before.
pub open spec fn unmap_page_post(old: PageTables, new: PageTables, va: u64) -> bool {
    &&& new.wf()
    &&& new.root.pa == old.root.pa
    &&& new.frames == old.frames
    &&& old.page_entry(va) is Some ==> new.page_entry(va) == Some(0u64) && new.translate(va) is None
    &&& old.page_entry(va) is None ==> new.page_entry(va) is None && new.translate(va) == old.translate(
        va,
    )
    &&& forall|va2: u64| !same_slot(va, va2) ==> #[trigger] new.translate(va2) == old.translate(va2)
}

/// Map the RAM and device slots: slot 0 is a 1 GiB device block, slots 1
/// to `RAM_GIB` are 1 GiB identity blocks of normal memory. Every address
/// below `RAM_END` then translates to itself. Returns the stores into the
/// L1 table; the caller then programs MAIR, TCR and TTBR0 and turns the
/// MMU on.
pub fn init(pt: &mut PageTables) -> (ops: Vec<PtOp>)
    requires
        old(pt).wf(),
    ensures
        final(pt).wf(),
        final(pt).root.pa == old(pt).root.pa,
        final(pt).frames == old(pt).frames,
        forall|i: int|
            0 <= i <= RAM_GIB ==> #[trigger] final(pt).root.entries@[i] == identity_block(i)
                && final(pt).next@[i] is None,
        forall|i: int|
            RAM_GIB < i < ENTRIES ==> #[trigger] final(pt).root.entries@[i] == old(pt).root.entries@[i]
                && final(pt).next@[i] == old(pt).next@[i],
        forall|va: u64| va < RAM_END ==> #[trigger] final(pt).translate(va) == Some(va),
        ops_realize(*old(pt), *final(pt), ops@),
        ops@ == Seq::new(
            (RAM_GIB + 1) as nat,
            |i: int|
                PtOp::Store { table: old(pt).root.pa, index: i as usize, value: identity_block(i) },
        ),
{
    let mut ops: Vec<PtOp> = Vec::new();
    let dev: u64 = AF + ATTR_DEVICE + DESC_BLOCK;
    pt.root.entries.set(0, dev);
    pt.next.set(0, None);
    ops.push(PtOp::Store { table: pt.root.pa, index: 0, value: dev });
    proof {
        lemma_identity_blocks(0);
        lemma_frame_after_push(old(pt).root.entries@, Seq::empty(), ops@[0], old(pt).root.pa);
        assert(Seq::<PtOp>::empty().push(ops@[0]) =~= ops@);
        assert(pt.root.entries@ =~= frame_after(old(pt).root.entries@, ops@, old(pt).root.pa));
    }
    let normal: u64 = AF + SH_INNER + ATTR_NORMAL + DESC_BLOCK;
    let mut i: u64 = 0;
    while i < RAM_GIB
        invariant
            i <= RAM_GIB,
            normal == 0x701,
            old(pt).root.entries.len() == ENTRIES,
            old(pt).next.len() == ENTRIES,
            pt.root.pa == old(pt).root.pa,
            pt.frames == old(pt).frames,
            pt.root.entries.len() == ENTRIES,
            pt.next.len() == ENTRIES,
            forall|k: int|
                0 <= k <= i ==> #[trigger] pt.root.entries@[k] == identity_block(k) && pt.next@[k]
                    is None,
            forall|k: int|
                i < k < ENTRIES ==> #[trigger] pt.root.entries@[k] == old(pt).root.entries@[k]
                    && pt.next@[k] == old(pt).next@[k],
            ops@ == Seq::new(
                (i + 1) as nat,
                |k: int|
                    PtOp::Store { table: old(pt).root.pa, index: k as usize, value: identity_block(k) },
            ),
            pt.root.entries@ == frame_after(old(pt).root.entries@, ops@, old(pt).root.pa),
        decreases RAM_GIB - i,
    {
        let j: u64 = i + 1;
        proof {
            lemma_ram_slot(j);
        }
        let pa: u64 = RAM_BASE + i * 0x4000_0000;
        assert(normal == 0x701);
        assert(pa == j * 0x4000_0000);
        let slot = (pa >> 30) as usize;
        assert(slot == i + 1);
        assert(pa | normal == identity_block(i + 1));
        let ghost ops0 = ops@;
        pt.root.entries.set(slot, pa | normal);
        pt.next.set(slot, None);
        ops.push(PtOp::Store { table: pt.root.pa, index: slot, value: pa | normal });
        proof {
            lemma_frame_after_push(
                old(pt).root.entries@,
                ops0,
                PtOp::Store { table: pt.root.pa, index: slot, value: pa | normal },
                old(pt).root.pa,
            );
        }
        i = i + 1;
        assert(ops@ =~= Seq::new(
            (i + 1) as nat,
            |k: int|
                PtOp::Store { table: old(pt).root.pa, index: k as usize, value: identity_block(k) },
        ));
    }
    proof {
        assert forall|k: int| 0 <= k < ENTRIES implies #[trigger] dir_link_ok(
            pt.root.entries@[k],
            pt.next@[k],
        ) && (pt.next@[k] matches Some(d) ==> d.wf(pt.frames.next)) by {
            if k <= RAM_GIB {
                assert(pt.root.entries@[k] == identity_block(k));
                if k > 0 {
                    lemma_ram_slot(k as u64);
                    assert(identity_block(k) & 3 == 1);
                } else {
                    assert(identity_block(k) & 3 == 1);
                }
            } else {
                assert(dir_link_ok(old(pt).root.entries@[k], old(pt).next@[k]));
                assert(pt.root.entries@[k] == old(pt).root.entries@[k]);
                assert(pt.next@[k] == old(pt).next@[k]);
            }
        }
        assert forall|k: int| #[trigger] pt.has_dir(k) implies old(pt).has_dir(k) && pt.dir_pa(k) == old(
            pt,
        ).dir_pa(k) by {
            if k <= RAM_GIB {
                assert(pt.root.entries@[k] == identity_block(k));
            } else {
                assert(pt.root.entries@[k] == old(pt).root.entries@[k]);
            }
        }
        assert forall|k: int, j: int| #[trigger] pt.has_l3(k, j) implies old(pt).has_l3(k, j) && pt.l3_pa(k, j)
            == old(pt).l3_pa(k, j) by {
            if k <= RAM_GIB {
                assert(pt.root.entries@[k] == identity_block(k));
            } else {
                assert(pt.root.entries@[k] == old(pt).root.entries@[k]);
            }
        }
        lemma_owned_same(*old(pt), *pt);
        lemma_below_next(*old(pt));
        assert forall|k: int| #[trigger] pt.has_dir(k) implies if old(pt).has_dir(k) && old(pt).dir_pa(k)
            == pt.dir_pa(k) {
            (pt.next@[k]->0).table.entries@ == frame_after(
                (old(pt).next@[k]->0).table.entries@,
                ops@,
                pt.dir_pa(k),
            )
        } else {
            forall|junk: Seq<u64>|
                #[trigger] frame_after(junk, ops@, pt.dir_pa(k)) == (pt.next@[k]->0).table.entries@
        } by {
            if k <= RAM_GIB {
                assert(pt.root.entries@[k] == identity_block(k));
            } else {
                assert(pt.root.entries@[k] == old(pt).root.entries@[k]);
            }
            assert(old(pt).has_dir(k));
            assert(old(pt).dir_pa(k) < old(pt).frames.next);
            assert(old(pt).frames.start <= old(pt).dir_pa(k));
            assert(old(pt).root.pa < old(pt).frames.start);
            lemma_frame_untouched((old(pt).next@[k]->0).table.entries@, ops@, pt.dir_pa(k));
        }
        assert forall|k: int, j: int| #[trigger] pt.has_l3(k, j) implies if old(pt).has_l3(k, j) && old(
            pt,
        ).l3_pa(k, j) == pt.l3_pa(k, j) {
            ((pt.next@[k]->0).next@[j]->0).entries@ == frame_after(
                ((old(pt).next@[k]->0).next@[j]->0).entries@,
                ops@,
                pt.l3_pa(k, j),
            )
        } else {
            forall|junk: Seq<u64>|
                #[trigger] frame_after(junk, ops@, pt.l3_pa(k, j)) == ((pt.next@[k]->0).next@[j]->0).entries@
        } by {
            if k <= RAM_GIB {
                assert(pt.root.entries@[k] == identity_block(k));
            } else {
                assert(pt.root.entries@[k] == old(pt).root.entries@[k]);
            }
            assert(old(pt).has_l3(k, j));
            assert(old(pt).l3_pa(k, j) < old(pt).frames.next);
            assert(old(pt).frames.start <= old(pt).l3_pa(k, j));
            assert(old(pt).root.pa < old(pt).frames.start);
            lemma_frame_untouched(((old(pt).next@[k]->0).next@[j]->0).entries@, ops@, pt.l3_pa(k, j));
        }
        assert forall|va: u64| va < RAM_END implies #[trigger] pt.translate(va) == Some(va) by {
            lemma_identity_blocks(va);
        }
    }
    ops
}

/// Why `map_page` cannot map a page.
#[derive(Clone, Copy, PartialEq, Eq, Debug, Structural)]
pub enum MapRefusal {
    /// A block (or reserved) descriptor stands where a table descriptor
    /// is needed.
    BlockInTheWay,
    /// The allocator cannot supply the tables the walk needs.
    OutOfFrames,
}

/// Whether `map_page(va, ..)` can go ahead: `Ok` exactly when `can_map`
/// holds; otherwise which of its conditions fails, a block in the way
/// before a lack of frames.
pub fn check_map(pt: &PageTables, va: u64) -> (r: Result<(), MapRefusal>)
    requires
        pt.wf(),
    ensures
        r is Ok <==> pt.can_map(va),
        r == if pt.block_in_the_way(va) {
            Err::<(), MapRefusal>(MapRefusal::BlockInTheWay)
        } else if !pt.frames.can_alloc(pt.frames_needed(va)) {
            Err::<(), MapRefusal>(MapRefusal::OutOfFrames)
        } else {
            Ok::<(), MapRefusal>(())
        },
{
    proof {
        lemma_indices(va);
    }
    let i1 = ((va >> 30) & 0x1FF) as usize;
    let i2 = ((va >> 21) & 0x1FF) as usize;
    let e1 = pt.root.entries[i1];
    let needed: u64;
    if e1 & 3 == 0 {
        needed = 2;
    } else if e1 & 3 == DESC_TABLE {
        proof {
            assert(dir_link_ok(pt.root.entries@[i1 as int], pt.next@[i1 as int]));
        }
        let e2 = match &pt.next[i1] {
            Some(d) => d.table.entries[i2],
            None => 0,
        };
        if !(e2 & 3 == 0 || e2 & 3 == DESC_TABLE) {
            return Err(MapRefusal::BlockInTheWay);
        }
        needed = if e2 & 3 == 0 {
            1
        } else {
            0
        };
    } else {
        return Err(MapRefusal::BlockInTheWay);
    }
    let f = pt.frames.next;
    if needed > 0 && (f == 0 || f > RAM_END - needed * PAGE) {
        return Err(MapRefusal::OutOfFrames);
    }
    Ok(())
}

/// The accesses `map_page(va, pa, flags)` makes to the tables in memory:
/// for each table it creates, zero its frame and link it in; then store
/// the page descriptor.
pub open spec fn map_ops(old: PageTables, va: u64, pa: u64, flags: u64) -> Seq<PtOp> {
    let e1 = old.root.entries@[idx1(va)];
    let f = old.frames.next;
    if e1 & 3 == 0 {
        seq![
            PtOp::Zero { pa: f },
            PtOp::Store { table: old.root.pa, index: idx1(va) as usize, value: f | DESC_TABLE },
            PtOp::Zero { pa: (f + PAGE) as u64 },
            PtOp::Store { table: f, index: idx2(va) as usize, value: ((f + PAGE) as u64) | DESC_TABLE },
            PtOp::Store { table: (f + PAGE) as u64, index: idx3(va) as usize, value: page_desc(pa, flags) },
        ]
    } else {
        let d = old.next@[idx1(va)]->0;
        let e2 = d.table.entries@[idx2(va)];
        if e2 & 3 == 0 {
            seq![
                PtOp::Zero { pa: f },
                PtOp::Store { table: d.table.pa, index: idx2(va) as usize, value: f | DESC_TABLE },
                PtOp::Store { table: f, index: idx3(va) as usize, value: page_desc(pa, flags) },
            ]
        } else {
            seq![
                PtOp::Store {
                    table: (d.next@[idx2(va)]->0).pa,
                    index: idx3(va) as usize,
                    value: page_desc(pa, flags),
                },
            ]
        }
    }
}

/// The accesses of `map_page` realise its tables: see `ops_realize`.
proof fn lemma_map_realizes(
    old: PageTables,
    new: PageTables,
    ops: Seq<PtOp>,
    va: u64,
    e1: u64,
    e2: u64,
    fd: u64,
    fl: u64,
    desc: u64,
)
    requires
        old.wf(),
        new.wf(),
        new.root.pa == old.root.pa,
        e1 == old.root.entries@[idx1(va)],
        e1 & 3 == 0 || e1 & 3 == DESC_TABLE,
        e1 & 3 == 0 || e2 & 3 == 0 ==> old.frames.next != 0,
        e1 & 3 == 0 ==> fd == old.frames.next && fl == fd + PAGE && !old.has_dir(idx1(va)),
        e1 & 3 == DESC_TABLE ==> old.has_dir(idx1(va)) && e2 == (old.next@[idx1(va)]->0).table.entries@[idx2(
            va,
        )],
        e1 & 3 == DESC_TABLE && e2 & 3 == 0 ==> fl == old.frames.next && !old.has_l3(idx1(va), idx2(va)),
        e1 & 3 == DESC_TABLE && e2 & 3 != 0 ==> old.has_l3(idx1(va), idx2(va)),
        0 <= idx1(va) < ENTRIES,
        0 <= idx2(va) < ENTRIES,
        0 <= idx3(va) < ENTRIES,
        ops == if e1 & 3 == 0 {
            seq![
                PtOp::Zero { pa: fd },
                PtOp::Store { table: old.root.pa, index: idx1(va) as usize, value: fd | DESC_TABLE },
                PtOp::Zero { pa: fl },
                PtOp::Store { table: fd, index: idx2(va) as usize, value: fl | DESC_TABLE },
                PtOp::Store { table: fl, index: idx3(va) as usize, value: desc },
            ]
        } else if e2 & 3 == 0 {
            seq![
                PtOp::Zero { pa: fl },
                PtOp::Store { table: old.dir_pa(idx1(va)), index: idx2(va) as usize, value: fl | DESC_TABLE },
                PtOp::Store { table: fl, index: idx3(va) as usize, value: desc },
            ]
        } else {
            seq![PtOp::Store { table: old.l3_pa(idx1(va), idx2(va)), index: idx3(va) as usize, value: desc }]
        },
        // What map_page did to the model.
        new.root.entries@ == if e1 & 3 == 0 {
            old.root.entries@.update(idx1(va), fd | DESC_TABLE)
        } else {
            old.root.entries@
        },
        forall|i: int| 0 <= i < ENTRIES && i != idx1(va) ==> #[trigger] new.next@[i] == old.next@[i],
        new.has_dir(idx1(va)),
        new.dir_pa(idx1(va)) == if e1 & 3 == 0 { fd } else { old.dir_pa(idx1(va)) },
        (new.next@[idx1(va)]->0).table.entries@ == if e1 & 3 == 0 {
            Seq::new(ENTRIES as nat, |k: int| 0u64).update(idx2(va), fl | DESC_TABLE)
        } else if e2 & 3 == 0 {
            (old.next@[idx1(va)]->0).table.entries@.update(idx2(va), fl | DESC_TABLE)
        } else {
            (old.next@[idx1(va)]->0).table.entries@
        },
        forall|j: int|
            0 <= j < ENTRIES && j != idx2(va) ==> #[trigger] (new.next@[idx1(va)]->0).next@[j] == if e1 & 3
                == 0 {
                None
            } else {
                (old.next@[idx1(va)]->0).next@[j]
            },
        new.has_l3(idx1(va), idx2(va)),
        new.l3_pa(idx1(va), idx2(va)) == if e1 & 3 == 0 || e2 & 3 == 0 {
            fl
        } else {
            old.l3_pa(idx1(va), idx2(va))
        },
        ((new.next@[idx1(va)]->0).next@[idx2(va)]->0).entries@ == if e1 & 3 == 0 || e2 & 3 == 0 {
            Seq::new(ENTRIES as nat, |k: int| 0u64).update(idx3(va), desc)
        } else {
            ((old.next@[idx1(va)]->0).next@[idx2(va)]->0).entries@.update(idx3(va), desc)
        },
    ensures
        ops_realize(old, new, ops),
{
    reveal_with_fuel(frame_after, 6);
    lemma_below_next(old);
    let i1 = idx1(va);
    let i2 = idx2(va);
    let i3 = idx3(va);
    let start = old.frames.start;
    let next = old.frames.next;
    if e1 & 3 == DESC_TABLE {
        assert(old.has_dir(i1));
        assert(old.dir_pa(i1) < next);
    }
    if e1 & 3 == DESC_TABLE && e2 & 3 != 0 {
        assert(old.has_l3(i1, i2));
        assert(old.l3_pa(i1, i2) < next);
    }
    assert(old.root.pa < start);
    assert(new.root.entries@ == frame_after(old.root.entries@, ops, new.root.pa));
    assert forall|i: int| #[trigger] new.has_dir(i) implies if old.has_dir(i) && old.dir_pa(i) == new.dir_pa(i) {
        (new.next@[i]->0).table.entries@ == frame_after((old.next@[i]->0).table.entries@, ops, new.dir_pa(i))
    } else {
        forall|junk: Seq<u64>| #[trigger] frame_after(junk, ops, new.dir_pa(i)) == (new.next@[i]->0).table.entries@
    } by {
        if i != i1 {
            assert(new.next@[i] == old.next@[i]);
            assert(old.has_dir(i));
            lemma_frame_untouched((old.next@[i]->0).table.entries@, ops, new.dir_pa(i));
        } else {
            if e1 & 3 == 0 {
                assert forall|junk: Seq<u64>| #[trigger] frame_after(junk, ops, new.dir_pa(i)) == (
                new.next@[i]->0).table.entries@ by {
                    assert(frame_after(junk, ops, new.dir_pa(i)) =~= (new.next@[i]->0).table.entries@);
                }
            } else {
                assert(dir_link_ok(old.root.entries@[i1], old.next@[i1]));
                if e2 & 3 != 0 {
                    assert(old.has_dir(i1) && old.has_l3(i1, i2));
                }
                assert(frame_after((old.next@[i]->0).table.entries@, ops, new.dir_pa(i)) =~= (
                new.next@[i]->0).table.entries@);
            }
        }
    }
    assert forall|i: int, j: int| #[trigger] new.has_l3(i, j) implies if old.has_l3(i, j) && old.l3_pa(i, j)
        == new.l3_pa(i, j) {
        ((new.next@[i]->0).next@[j]->0).entries@ == frame_after(
            ((old.next@[i]->0).next@[j]->0).entries@,
            ops,
            new.l3_pa(i, j),
        )
    } else {
        forall|junk: Seq<u64>| #[trigger] frame_after(junk, ops, new.l3_pa(i, j)) == ((new.next@[i]->0).next@[
            j]->0).entries@
    } by {
        if i != i1 {
            assert(new.next@[i] == old.next@[i]);
            assert(old.has_l3(i, j));
            lemma_frame_untouched(((old.next@[i]->0).next@[j]->0).entries@, ops, new.l3_pa(i, j));
        } else if j != i2 {
            assert((new.next@[i]->0).next@[j] == (old.next@[i]->0).next@[j]);
            assert(old.has_l3(i, j));
            lemma_frame_untouched(((old.next@[i]->0).next@[j]->0).entries@, ops, new.l3_pa(i, j));
        } else {
            if e1 & 3 == 0 || e2 & 3 == 0 {
                assert forall|junk: Seq<u64>| #[trigger] frame_after(junk, ops, new.l3_pa(i, j)) == ((
                new.next@[i]->0).next@[j]->0).entries@ by {
                    assert(frame_after(junk, ops, new.l3_pa(i, j)) =~= ((new.next@[i]->0).next@[j]->0).entries@);
                }
            } else {
                assert(dir_link_ok(old.root.entries@[i1], old.next@[i1]));
                let od = old.next@[i1]->0;
                assert(link_ok(od.table.entries@[i2], od.next@[i2]));
                assert(frame_after(((old.next@[i]->0).next@[j]->0).entries@, ops, new.l3_pa(i, j)) =~= ((
                new.next@[i]->0).next@[j]->0).entries@);
            }
        }
    }
}

/// Map the 4 KiB page at `va` to the frame at `pa`, read-write when
/// `flags` has `MAP_RW`, creating the L2 and L3 tables on the way as
/// needed.
pub fn map_page(pt: &mut PageTables, va: u64, pa: u64, flags: u64) -> (ops: Vec<PtOp>)
    requires
        old(pt).wf(),
        old(pt).can_map(va),
    ensures
        map_page_post(*old(pt), *final(pt), va, pa, flags),
        ops@ == map_ops(*old(pt), va, pa, flags),
        ops_realize(*old(pt), *final(pt), ops@),
{
    proof {
        lemma_indices(va);
        lemma_indices(0);
    }
    let ghost pt0 = *pt;
    let ghost mut fd: u64 = 0;
    let ghost mut fl: u64 = 0;
    let i1 = ((va >> 30) & 0x1FF) as usize;
    let i2 = ((va >> 21) & 0x1FF) as usize;
    let i3 = ((va >> 12) & 0x1FF) as usize;
    let mut ops: Vec<PtOp> = Vec::new();
    let e1 = pt.root.entries[i1];
    proof {
        lemma_desc_fields(e1, 0);
        assert(dir_link_ok(pt.root.entries@[i1 as int], pt.next@[i1 as int]));
    }
    if e1 & 3 == 0 {
        let (l2pa, zero) = alloc_frame(&mut pt.frames).unwrap();
        proof {
            lemma_frame_desc(l2pa);
            fd = l2pa;
        }
        let d = (l2pa & ADDR_MASK) | DESC_TABLE;
        ops.push(zero);
        ops.push(PtOp::Store { table: pt.root.pa, index: i1, value: d });
        pt.root.entries.set(i1, d);
        pt.next.set(i1, Some(empty_directory(l2pa)));
    }
    let ghost pt1 = *pt;
    proof {
        assert forall|i: int| 0 <= i < ENTRIES && #[trigger] pt1.next@[i] is Some implies (pt1.next@[i]->0).wf(pt1.frames.next) by {
            if i != i1 {
                assert(dir_link_ok(pt0.root.entries@[i], pt0.next@[i]));
                lemma_dir_wf_mono(pt0.next@[i]->0, pt0.frames.next, pt1.frames.next);
            } else if e1 & 3 != 0 {
                lemma_dir_wf_mono(pt0.next@[i]->0, pt0.frames.next, pt1.frames.next);
            } else {
                let dd = pt1.next@[i]->0;
                assert forall|j: int| 0 <= j < ENTRIES implies #[trigger] link_ok(dd.table.entries@[j], dd.next@[j]) && (
                dd.next@[j] matches Some(t) ==> table_wf(t, pt1.frames.next)) by {
                    assert(dd.table.entries@[j] == 0);
                }
            }
        }
    }
    let mut slot: Option<Directory> = None;
    pt.next.set_and_swap(i1, &mut slot);
    let mut dir = slot.unwrap();
    let ghost dir0 = dir;
    let e2 = dir.table.entries[i2];
    proof {
        lemma_desc_fields(e2, 0);
        assert(link_ok(dir.table.entries@[i2 as int], dir.next@[i2 as int]));
    }
    if e2 & 3 == 0 {
        let (l3pa, zero) = alloc_frame(&mut pt.frames).unwrap();
        proof {
            lemma_frame_desc(l3pa);
            fl = l3pa;
        }
        let d = (l3pa & ADDR_MASK) | DESC_TABLE;
        ops.push(zero);
        ops.push(PtOp::Store { table: dir.table.pa, index: i2, value: d });
        dir.table.entries.set(i2, d);
        dir.next.set(i2, Some(zero_table(l3pa)));
    }
    let ghost dir1 = dir;
    let mut tslot: Option<Table> = None;
    dir.next.set_and_swap(i2, &mut tslot);
    let mut t = tslot.unwrap();
    let attrs: u64 = if flags & MAP_RW != 0 {
        AF + SH_INNER + AP_RW_EL1 + ATTR_NORMAL + DESC_PAGE
    } else {
        AF + SH_INNER + AP_RO_EL1 + ATTR_NORMAL + DESC_PAGE
    };
    let desc = (pa & ADDR_MASK) | attrs;
    proof {
        lemma_page_desc(pa, va, attrs);
    }
    ops.push(PtOp::Store { table: t.pa, index: i3, value: desc });
    let ghost t0 = t;
    t.entries.set(i3, desc);
    dir.next.set(i2, Some(t));
    pt.next.set(i1, Some(dir));
    proof {
        let new = *pt;
        let bound = new.frames.next;
        // The directory at i1 is well formed for the final bound.
        let nd = new.next@[i1 as int]->0;
        assert(nd == dir);
        assert forall|j: int| 0 <= j < ENTRIES implies #[trigger] link_ok(nd.table.entries@[j], nd.next@[j]) && (
        nd.next@[j] matches Some(tt) ==> table_wf(tt, bound)) by {
            if j != i2 {
                assert(nd.next@[j] == dir1.next@[j]);
                assert(nd.table.entries@[j] == dir1.table.entries@[j]);
                if e2 & 3 != 0 {
                    assert(link_ok(dir0.table.entries@[j], dir0.next@[j]));
                } else {
                    assert(link_ok(dir0.table.entries@[j], dir0.next@[j]));
                }
            }
        }
        assert forall|i: int| 0 <= i < ENTRIES implies #[trigger] dir_link_ok(
            new.root.entries@[i],
            new.next@[i],
        ) && (new.next@[i] matches Some(d) ==> d.wf(bound)) by {
            if i != i1 {
                assert(new.next@[i] == pt1.next@[i]);
                assert(new.root.entries@[i] == pt1.root.entries@[i]);
                if e1 & 3 == 0 {
                    assert(dir_link_ok(pt0.root.entries@[i], pt0.next@[i]));
                } else {
                    assert(dir_link_ok(pt0.root.entries@[i], pt0.next@[i]));
                }
                if e2 & 3 == 0 && new.next@[i] is Some {
                    assert(pt1.next@[i] is Some);
                    lemma_dir_wf_mono(new.next@[i]->0, pt1.frames.next, bound);
                }
            }
        }
        assert forall|i: int| #[trigger] new.has_dir(i) implies (pt0.has_dir(i) && new.dir_pa(i) == pt0.dir_pa(
            i,
        )) || (e1 & 3 == 0 && i == i1 && new.dir_pa(i) == fd) by {
            if i != i1 {
                assert(new.next@[i] == pt0.next@[i]);
            }
        }
        assert forall|i: int, j: int| #[trigger] new.has_l3(i, j) implies (pt0.has_l3(i, j) && new.l3_pa(i, j)
            == pt0.l3_pa(i, j)) || (e2 & 3 == 0 && i == i1 && j == i2 && new.l3_pa(i, j) == fl) by {
            if i != i1 {
                assert(new.next@[i] == pt0.next@[i]);
            } else if j != i2 {
                assert(nd.next@[j] == dir1.next@[j]);
                if e1 & 3 != 0 {
                    assert(dir1.next@[j] == dir0.next@[j]);
                }
            }
        }
        lemma_owned_after(pt0, new, i1 as int, i2 as int, e1 & 3 == 0, fd, e2 & 3 == 0, fl);
        assert(new.wf());
        assert forall|va2: u64| !same_slot(va, va2) implies #[trigger] new.translate(va2) == pt0.translate(va2) by {
            lemma_indices(va2);
            let j1 = idx1(va2);
            let j2 = idx2(va2);
            let j3 = idx3(va2);
            if j1 != i1 {
                assert(new.root.entries@[j1] == pt0.root.entries@[j1]);
                assert(new.next@[j1] == pt0.next@[j1]);
            } else if j2 != i2 {
                assert(nd.table.entries@[j2] == dir0.table.entries@[j2] || e1 & 3 == 0);
            } else {
                assert(j3 != i3);
            }
        }
        assert(ops@ =~= map_ops(pt0, va, pa, flags));
        lemma_map_realizes(pt0, new, ops@, va, e1, e2, fd, fl, desc);
    }
    ops
}

/// The L3 table a walk for `va` reaches through two table descriptors.
fn walk(pt: &PageTables, va: u64) -> (r: Option<&Table>)
    requires
        pt.wf(),
    ensures
        r is Some <==> pt.page_entry(va) is Some,
        r matches Some(t) ==> t.entries.len() == ENTRIES && pt.page_entry(va) == Some(
            t.entries@[idx3(va)],
        ),
{
    proof {
        lemma_indices(va);
    }
    let i1 = ((va >> 30) & 0x1FF) as usize;
    let i2 = ((va >> 21) & 0x1FF) as usize;
    let e1 = pt.root.entries[i1];
    if e1 & 3 != DESC_TABLE {
        return None;
    }
    proof {
        assert(dir_link_ok(pt.root.entries@[i1 as int], pt.next@[i1 as int]));
    }
    match &pt.next[i1] {
        Some(d) => {
            let e2 = d.table.entries[i2];
            if e2 & 3 != DESC_TABLE {
                return None;
            }
            proof {
                assert(link_ok(d.table.entries@[i2 as int], d.next@[i2 as int]));
            }
            match &d.next[i2] {
                Some(t) => Some(t),
                None => None,
            }
        },
        None => None,
    }
}

/// Unmap the 4 KiB page at `va`: clear its L3 descriptor and drop the
/// stale TLB entries. Nothing happens when the walk does not reach an L3
/// table.
pub fn unmap_page(pt: &mut PageTables, va: u64) -> (ops: Vec<PtOp>)
    requires
        old(pt).wf(),
    ensures
        unmap_page_post(*old(pt), *final(pt), va),
        ops_realize(*old(pt), *final(pt), ops@),
        old(pt).page_entry(va) is None ==> ops@ == Seq::<PtOp>::empty(),
        old(pt).page_entry(va) is Some ==> ops@ == seq![
            PtOp::Store {
                table: (old(pt).next@[idx1(va)]->0.next@[idx2(va)]->0).pa,
                index: idx3(va) as usize,
                value: 0,
            },
            PtOp::Invalidate { page: va >> 12u64 },
        ],
{
    proof {
        lemma_indices(va);
        lemma_indices(0);
    }
    let ghost pt0 = *pt;
    let mut ops: Vec<PtOp> = Vec::new();
    if walk(pt, va).is_none() {
        proof {
            assert forall|i: int| #[trigger] pt.has_dir(i) implies pt.has_dir(i) && pt.dir_pa(i) == pt.dir_pa(
                i,
            ) && (pt.next@[i]->0).table.entries@ == frame_after(
                (pt.next@[i]->0).table.entries@,
                ops@,
                pt.dir_pa(i),
            ) by {}
        }
        return ops;
    }
    let i1 = ((va >> 30) & 0x1FF) as usize;
    let i2 = ((va >> 21) & 0x1FF) as usize;
    let i3 = ((va >> 12) & 0x1FF) as usize;
    proof {
        assert(dir_link_ok(pt.root.entries@[i1 as int], pt.next@[i1 as int]));
    }
    let mut slot: Option<Directory> = None;
    pt.next.set_and_swap(i1, &mut slot);
    let mut dir = slot.unwrap();
    let ghost dir0 = dir;
    proof {
        assert(link_ok(dir.table.entries@[i2 as int], dir.next@[i2 as int]));
    }
    let mut tslot: Option<Table> = None;
    dir.next.set_and_swap(i2, &mut tslot);
    let mut t = tslot.unwrap();
    ops.push(PtOp::Store { table: t.pa, index: i3, value: 0 });
    ops.push(PtOp::Invalidate { page: va >> 12 });
    t.entries.set(i3, 0);
    dir.next.set(i2, Some(t));
    pt.next.set(i1, Some(dir));
    proof {
        let new = *pt;
        let nd = new.next@[i1 as int]->0;
        assert forall|j: int| 0 <= j < ENTRIES implies #[trigger] link_ok(nd.table.entries@[j], nd.next@[j]) && (
        nd.next@[j] matches Some(tt) ==> table_wf(tt, new.frames.next)) by {
            assert(link_ok(dir0.table.entries@[j], dir0.next@[j]));
        }
        assert forall|i: int| 0 <= i < ENTRIES implies #[trigger] dir_link_ok(
            new.root.entries@[i],
            new.next@[i],
        ) && (new.next@[i] matches Some(d) ==> d.wf(new.frames.next)) by {
            assert(dir_link_ok(pt0.root.entries@[i], pt0.next@[i]));
            if i != i1 {
                assert(new.next@[i] == pt0.next@[i]);
            } else {
                assert(nd.wf(new.frames.next));
            }
        }
        assert forall|i: int| #[trigger] new.has_dir(i) implies pt0.has_dir(i) && new.dir_pa(i) == pt0.dir_pa(i) by {
            if i != i1 {
                assert(new.next@[i] == pt0.next@[i]);
            }
        }
        assert forall|i: int, k: int| #[trigger] new.has_l3(i, k) implies pt0.has_l3(i, k) && new.l3_pa(i, k)
            == pt0.l3_pa(i, k) by {
            if i != i1 {
                assert(new.next@[i] == pt0.next@[i]);
            }
        }
        lemma_owned_same(pt0, new);
        lemma_below_next(pt0);
        assert(pt0.has_l3(i1 as int, i2 as int));
        let lpa = pt0.l3_pa(i1 as int, i2 as int);
        assert(dir_link_ok(pt0.root.entries@[i1 as int], pt0.next@[i1 as int]));
        assert(link_ok(dir0.table.entries@[i2 as int], dir0.next@[i2 as int]));
        reveal_with_fuel(frame_after, 3);
        assert(new.root.entries@ == frame_after(pt0.root.entries@, ops@, new.root.pa));
        assert forall|i: int| #[trigger] new.has_dir(i) implies if pt0.has_dir(i) && pt0.dir_pa(i) == new.dir_pa(i) {
            (new.next@[i]->0).table.entries@ == frame_after((pt0.next@[i]->0).table.entries@, ops@, new.dir_pa(i))
        } else {
            forall|junk: Seq<u64>|
                #[trigger] frame_after(junk, ops@, new.dir_pa(i)) == (new.next@[i]->0).table.entries@
        } by {
            assert(pt0.has_dir(i));
            assert(pt0.has_dir(i) && pt0.has_l3(i1 as int, i2 as int));
            if i != i1 {
                assert(new.next@[i] == pt0.next@[i]);
            }
            lemma_frame_untouched((pt0.next@[i]->0).table.entries@, ops@, new.dir_pa(i));
        }
        assert forall|i: int, j: int| #[trigger] new.has_l3(i, j) implies if pt0.has_l3(i, j) && pt0.l3_pa(i, j)
            == new.l3_pa(i, j) {
            ((new.next@[i]->0).next@[j]->0).entries@ == frame_after(
                ((pt0.next@[i]->0).next@[j]->0).entries@,
                ops@,
                new.l3_pa(i, j),
            )
        } else {
            forall|junk: Seq<u64>|
                #[trigger] frame_after(junk, ops@, new.l3_pa(i, j)) == ((new.next@[i]->0).next@[j]->0).entries@
        } by {
            assert(pt0.has_l3(i, j));
            if i != i1 {
                assert(new.next@[i] == pt0.next@[i]);
                assert(pt0.has_l3(i, j) && pt0.has_l3(i1 as int, i2 as int));
                lemma_frame_untouched(((pt0.next@[i]->0).next@[j]->0).entries@, ops@, new.l3_pa(i, j));
            } else if j != i2 {
                assert(pt0.has_l3(i, j) && pt0.has_l3(i1 as int, i2 as int));
                lemma_frame_untouched(((pt0.next@[i]->0).next@[j]->0).entries@, ops@, new.l3_pa(i, j));
            } else {
                assert(((new.next@[i]->0).next@[j]->0).entries@ =~= frame_after(
                    ((pt0.next@[i]->0).next@[j]->0).entries@,
                    ops@,
                    new.l3_pa(i, j),
                ));
            }
        }
        assert forall|va2: u64| !same_slot(va, va2) implies #[trigger] new.translate(va2) == pt0.translate(va2) by {
            lemma_indices(va2);
            if idx1(va2) != i1 {
                assert(new.next@[idx1(va2)] == pt0.next@[idx1(va2)]);
            }
        }
        assert(ops@ =~= seq![
            PtOp::Store {
                table: (pt0.next@[idx1(va)]->0.next@[idx2(va)]->0).pa,
                index: idx3(va) as usize,
                value: 0,
            },
            PtOp::Invalidate { page: va >> 12u64 },
        ]);
    }
    ops
}

/// True for anything covered by an identity block, or by a valid L3 page.
pub fn is_mapped(pt: &PageTables, va: u64) -> (r: bool)
    requires
        pt.wf(),
    ensures
        r == pt.translate(va) is Some,
{
    proof {
        lemma_indices(va);
    }
    let i1 = ((va >> 30) & 0x1FF) as usize;
    if pt.root.entries[i1] & 3 == DESC_BLOCK {
        return true;
    }
    let i3 = ((va >> 12) & 0x1FF) as usize;
    match walk(pt, va) {
        Some(t) => t.entries[i3] & 3 == DESC_PAGE,
        None => false,
    }
}

/// Mapping a page and then unmapping it leaves the page unmapped and every
/// address in another table slot (another value of bits 38:12, which are
/// all the tables index; addresses differing only above bit 38 share the
/// slot) translating as it did before the mapping.
pub proof fn lemma_unmap_undoes_map(
    pt0: PageTables,
    pt1: PageTables,
    pt2: PageTables,
    va: u64,
    pa: u64,
    flags: u64,
)
    requires
        map_page_post(pt0, pt1, va, pa, flags),
        unmap_page_post(pt1, pt2, va),
    ensures
        pt2.translate(va) is None,
        forall|va2: u64| !same_slot(va, va2) ==> #[trigger] pt2.translate(va2) == pt0.translate(va2),
{
    assert forall|va2: u64| !same_slot(va, va2) implies #[trigger] pt2.translate(va2) == pt0.translate(va2) by {
        assert(pt2.translate(va2) == pt1.translate(va2));
        assert(pt1.translate(va2) == pt0.translate(va2));
    }
}

/// Mapping a page makes it translate to the frame: the page offset of the
/// address is kept, the frame gives the rest.
pub proof fn lemma_map_then_translate(pt0: PageTables, pt1: PageTables, va: u64, pa: u64, flags: u64)
    requires
        map_page_post(pt0, pt1, va, pa, flags),
        pa % PAGE == 0,
        pa < 0x1_0000_0000_0000,
    ensures
        pt1.translate(va) == Some((pa + va % PAGE) as u64),
{
    lemma_page_offset(pa, va);
}

proof fn lemma_page_offset(pa: u64, va: u64)
    by (bit_vector)
    requires
        pa % 4096 == 0,
        pa < 0x1_0000_0000_0000u64,
    ensures
        (pa & 0x0000_FFFF_FFFF_F000u64) | (va & 0xFFFu64) == pa + va % 4096,
{
}

/// `pa` is the frame of some table in `pt` below the root.
pub open spec fn holds_table(pt: PageTables, pa: u64) -> bool {
    exists|i: int|
        0 <= i < ENTRIES && #[trigger] pt.next@[i] is Some && ((pt.next@[i]->0).table.pa == pa || exists|j: int|
            0 <= j < ENTRIES && #[trigger] (pt.next@[i]->0).next@[j] is Some && ((pt.next@[i]->0).next@[j]->0).pa
                == pa)
}

/// The frames `map_page` zeroes for new tables are fresh: no table in use
/// lives there, so zeroing them cannot disturb an existing mapping.
pub proof fn lemma_new_tables_fresh(pt: PageTables, va: u64, pa: u64, flags: u64)
    requires
        pt.wf(),
        pt.can_map(va),
    ensures
        forall|k: int|
            0 <= k < map_ops(pt, va, pa, flags).len() && #[trigger] map_ops(pt, va, pa, flags)[k] is Zero
                ==> map_ops(pt, va, pa, flags)[k]->pa >= pt.frames.next && !holds_table(
                pt,
                map_ops(pt, va, pa, flags)[k]->pa,
            ),
{
    lemma_fresh_frame(pt);
}

/// No table lives at or above the next frame of the allocator.
proof fn lemma_fresh_frame(pt: PageTables)
    requires
        pt.wf(),
    ensures
        forall|f: u64| f >= pt.frames.next ==> !#[trigger] holds_table(pt, f),
{
    assert forall|f: u64| f >= pt.frames.next implies !holds_table(pt, f) by {
        if holds_table(pt, f) {
            let i = choose|i: int|
                0 <= i < ENTRIES && #[trigger] pt.next@[i] is Some && ((pt.next@[i]->0).table.pa == f || exists|j: int|
                    0 <= j < ENTRIES && #[trigger] (pt.next@[i]->0).next@[j] is Some && ((pt.next@[i]->0).next@[j]->0).pa
                        == f);
            assert(dir_link_ok(pt.root.entries@[i], pt.next@[i]));
            let d = pt.next@[i]->0;
            if d.table.pa != f {
                let j = choose|j: int|
                    0 <= j < ENTRIES && #[trigger] d.next@[j] is Some && (d.next@[j]->0).pa == f;
                assert(link_ok(d.table.entries@[j], d.next@[j]));
            }
        }
    }
}

} // verus!
