use lib::mm::{
    alloc_page_frame, check_map, MapRefusal, alloc_frame, frames_init, frames_used, init, is_mapped, map_page, unmap_page, Frames, PageTables, PtOp,
    ADDR_MASK, MAP_RO, MAP_RW, PAGE, RAM_END,
};

const ROOT: u64 = 0x4009_0000;
const POS: u64 = 0x40_0000_0000;

fn tables() -> PageTables {
    let mut pt = PageTables::new(ROOT, frames_init(0x4010_0123));
    init(&mut pt);
    pt
}

#[test]
fn frames_init_rounds_up() {
    let f = frames_init(0x4010_0123);
    assert_eq!(f.start, 0x4010_1000);
    assert_eq!(f.next, 0x4010_1000);
    let g = frames_init(0x4010_0000);
    assert_eq!(g.start, 0x4010_0000);
}

#[test]
fn alloc_frame_bumps() {
    let mut f = frames_init(0x4010_0000);
    assert_eq!(alloc_frame(&mut f), Some((0x4010_0000, PtOp::Zero { pa: 0x4010_0000 })));
    assert_eq!(alloc_frame(&mut f), Some((0x4010_1000, PtOp::Zero { pa: 0x4010_1000 })));
    assert_eq!(frames_used(&f), 2);
}

#[test]
fn alloc_frame_uninitialised() {
    let mut f = Frames::empty();
    assert_eq!(alloc_frame(&mut f), None);
    assert_eq!(f.next, 0);
}

#[test]
fn alloc_frame_end_of_ram() {
    let mut f = frames_init(RAM_END - PAGE);
    assert_eq!(alloc_frame(&mut f), Some((RAM_END - PAGE, PtOp::Zero { pa: RAM_END - PAGE })));
    assert_eq!(alloc_frame(&mut f), None);
    assert_eq!(frames_used(&f), 1);
}

#[test]
fn empty_tables_map_nothing() {
    let pt = PageTables::new(ROOT, Frames::empty());
    assert_eq!(pt.root.pa, ROOT);
    assert_eq!(pt.root.entries, vec![0u64; 512]);
    assert!(pt.next.iter().all(|d| d.is_none()));
    assert!(!is_mapped(&pt, 0));
    assert!(!is_mapped(&pt, 0x4000_0000));
}

#[test]
fn init_identity_maps_device_and_ram() {
    let mut pt = PageTables::new(ROOT, Frames::empty());
    let ops = init(&mut pt);
    assert_eq!(ops.len(), 65);
    assert_eq!(ops[0], PtOp::Store { table: ROOT, index: 0, value: 0x405 });
    assert_eq!(ops[1], PtOp::Store { table: ROOT, index: 1, value: 0x4000_0000 | 0x701 });
    assert_eq!(ops[64], PtOp::Store { table: ROOT, index: 64, value: (64u64 << 30) | 0x701 });
    assert!(is_mapped(&pt, 0x0900_0000));
    assert!(is_mapped(&pt, 0x4000_0000));
    assert!(is_mapped(&pt, RAM_END - 1));
    assert!(!is_mapped(&pt, RAM_END));
    assert!(!is_mapped(&pt, POS));
}

#[test]
fn map_page_builds_tables() {
    let mut pt = tables();
    let f = pt.frames.next;
    let ops = map_page(&mut pt, POS, 0x4800_0000, MAP_RW);
    assert_eq!(
        ops,
        vec![
            PtOp::Zero { pa: f },
            PtOp::Store { table: ROOT, index: 256, value: f | 3 },
            PtOp::Zero { pa: f + PAGE },
            PtOp::Store { table: f, index: 0, value: (f + PAGE) | 3 },
            PtOp::Store { table: f + PAGE, index: 0, value: 0x4800_0000 | 0x703 },
        ]
    );
    assert!(is_mapped(&pt, POS));
    assert!(is_mapped(&pt, POS + 0xFFF));
    assert!(!is_mapped(&pt, POS + PAGE));
    assert_eq!(frames_used(&pt.frames), 2);
}

#[test]
fn map_second_page_reuses_tables() {
    let mut pt = tables();
    map_page(&mut pt, POS, 0x4800_0000, MAP_RW);
    let l3 = pt.frames.next - PAGE;
    let ops = map_page(&mut pt, POS + 3 * PAGE, 0x4800_5123, MAP_RO);
    assert_eq!(ops, vec![PtOp::Store { table: l3, index: 3, value: (0x4800_5123 & ADDR_MASK) | 0x783 }]);
    assert_eq!(frames_used(&pt.frames), 2);
    assert!(is_mapped(&pt, POS + 3 * PAGE));
    assert!(is_mapped(&pt, POS));
}

#[test]
fn map_in_new_l2_slot_needs_one_table() {
    let mut pt = tables();
    map_page(&mut pt, POS, 0x4800_0000, MAP_RW);
    let ops = map_page(&mut pt, POS + (2 << 20), 0x4800_0000, MAP_RW);
    assert_eq!(ops.len(), 3);
    assert_eq!(frames_used(&pt.frames), 3);
}

#[test]
fn unmap_undoes_map() {
    let mut pt = tables();
    map_page(&mut pt, POS, 0x4800_0000, MAP_RW);
    map_page(&mut pt, POS + PAGE, 0x4800_1000, MAP_RW);
    let l3 = pt.frames.next - PAGE;
    let ops = unmap_page(&mut pt, POS);
    assert_eq!(ops, vec![PtOp::Store { table: l3, index: 0, value: 0 }, PtOp::Invalidate { page: POS >> 12 }]);
    assert!(!is_mapped(&pt, POS));
    assert!(is_mapped(&pt, POS + PAGE));
    assert!(is_mapped(&pt, 0x4000_0000));
}

#[test]
fn unmap_without_tables_does_nothing() {
    let mut pt = tables();
    assert!(unmap_page(&mut pt, POS).is_empty());
    assert!(unmap_page(&mut pt, 0x4000_0000).is_empty());
    assert!(is_mapped(&pt, 0x4000_0000));
}

#[test]
fn check_map_reasons() {
    let pt = tables();
    assert_eq!(check_map(&pt, POS), Ok(()));
    assert_eq!(check_map(&pt, 0x4000_0000), Err(MapRefusal::BlockInTheWay));
    let mut empty = PageTables::new(ROOT, Frames::empty());
    init(&mut empty);
    assert_eq!(check_map(&empty, POS), Err(MapRefusal::OutOfFrames));
    let mut last = PageTables::new(ROOT, frames_init(RAM_END - PAGE));
    init(&mut last);
    assert_eq!(check_map(&last, POS), Err(MapRefusal::OutOfFrames));
}

#[test]
fn block_in_the_way_before_out_of_frames() {
    // No frames at all, and a RAM block in the way: the block is reported.
    let mut empty = PageTables::new(ROOT, Frames::empty());
    init(&mut empty);
    assert_eq!(check_map(&empty, 0x4000_0000), Err(MapRefusal::BlockInTheWay));
}

#[test]
fn page_frames_come_from_the_tables_allocator() {
    let mut pt = tables();
    let (f, zero) = alloc_page_frame(&mut pt).unwrap();
    assert_eq!(f, 0x4010_1000);
    assert_eq!(zero, PtOp::Zero { pa: 0x4010_1000 });
    assert_eq!(pt.frames.next, 0x4010_2000);
    assert!(is_mapped(&pt, 0x4000_0000));
    assert!(!is_mapped(&pt, POS));
    // Tables made afterwards take the following frames.
    let ops = map_page(&mut pt, POS, 0x5000_0000, MAP_RW);
    assert_eq!(ops[0], PtOp::Zero { pa: 0x4010_2000 });
    let mut none = PageTables::new(ROOT, Frames::empty());
    assert_eq!(alloc_page_frame(&mut none), None);
}
