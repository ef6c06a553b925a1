use lib::drivers::mmio::MmioOp;
use lib::drivers::virtio::{
    bring_up_start, bring_up_step, stage_reads, Step,
    capacity_sectors, complete, confirm_features, finish_init, is_block_device, negotiate, probe, read, reset_ops,
    scan_step, setup_queue, slot_base, used_reached, Blk, Desc, InitError, Probe, RingAddrs, Scan, BLK_IN, BLK_OUT, DF_NEXT, DF_WRITE,
    INT_ACK, QSIZE, STATUS,
};

const MAGIC: u32 = 0x7472_6976;

#[test]
fn probe_slots() {
    assert_eq!(probe(MAGIC, 2, 2), Probe::Modern);
    assert_eq!(probe(MAGIC, 2, 1), Probe::Legacy);
    assert_eq!(probe(MAGIC, 1, 2), Probe::Absent);
    assert_eq!(probe(0, 2, 2), Probe::Absent);
    assert_eq!(probe(MAGIC, 0, 0), Probe::Absent);
}

#[test]
fn block_device_identification() {
    assert!(is_block_device(MAGIC, 2));
    assert!(!is_block_device(MAGIC, 1));
    assert!(!is_block_device(0x1234_5678, 2));
}

#[test]
fn slot_scan_steps() {
    assert_eq!(scan_step(0, 0, 0, 0), Scan::Continue(1));
    assert_eq!(scan_step(3, MAGIC, 2, 2), Scan::Found(0x0a00_0600));
    assert_eq!(scan_step(5, MAGIC, 2, 1), Scan::Failed(InitError::Legacy));
    assert_eq!(scan_step(31, MAGIC, 1, 2), Scan::Failed(InitError::NotFound));
    assert_eq!(scan_step(30, MAGIC, 1, 2), Scan::Continue(31));
}

#[test]
fn slot_bases() {
    assert_eq!(slot_base(0), 0x0a00_0000);
    assert_eq!(slot_base(31), 0x0a00_3e00);
}

#[test]
fn bring_up_sequence() {
    assert_eq!(
        reset_ops(),
        vec![
            MmioOp::Write { offset: STATUS, value: 0 },
            MmioOp::Write { offset: STATUS, value: 1 },
            MmioOp::Write { offset: STATUS, value: 3 },
            MmioOp::Write { offset: 0x014, value: 1 },
        ]
    );
    let ops = negotiate(1).unwrap();
    assert_eq!(ops.len(), 5);
    assert_eq!(ops[3], MmioOp::Write { offset: 0x020, value: 1 });
    assert_eq!(ops[4], MmioOp::Write { offset: STATUS, value: 11 });
    assert_eq!(confirm_features(11).unwrap(), vec![MmioOp::Write { offset: 0x030, value: 0 }]);
}

#[test]
fn negotiate_without_version_1_fails() {
    assert_eq!(
        negotiate(0xFFFF_FFFE),
        Err((InitError::NoVersion1, vec![MmioOp::Write { offset: STATUS, value: 128 }]))
    );
}

#[test]
fn features_rejected() {
    assert_eq!(
        confirm_features(3),
        Err((InitError::FeaturesRejected, vec![MmioOp::Write { offset: STATUS, value: 128 }]))
    );
}

#[test]
fn queue_setup() {
    let rings = RingAddrs { desc: 0x1_4000_2000, avail: 0x4000_2080, used: 0x4000_2100 };
    assert_eq!(setup_queue(4, &rings), Err(InitError::QueueTooSmall));
    let ops = setup_queue(QSIZE as u32, &rings).unwrap();
    assert_eq!(ops.len(), 9);
    assert_eq!(ops[0], MmioOp::Write { offset: 0x038, value: 8 });
    assert_eq!(ops[1], MmioOp::Write { offset: 0x080, value: 0x4000_2000 });
    assert_eq!(ops[2], MmioOp::Write { offset: 0x084, value: 1 });
    assert_eq!(ops[3], MmioOp::Write { offset: 0x090, value: 0x4000_2080 });
    assert_eq!(ops[4], MmioOp::Write { offset: 0x094, value: 0 });
    assert_eq!(ops[7], MmioOp::Write { offset: 0x044, value: 1 });
    assert_eq!(ops[8], MmioOp::Write { offset: STATUS, value: 15 });
}

#[test]
fn capacity_from_config_words() {
    let b = finish_init(0x0a00_3e00, 0x10, 0x2);
    assert_eq!(capacity_sectors(&b), 0x2_0000_0010);
    assert!(b.ready);
    assert_eq!(b.base, 0x0a00_3e00);
    assert_eq!(b.last_used, 0);
}

#[test]
fn messages() {
    assert_eq!(InitError::QueueTooSmall.message(), "queue too small");
    assert_eq!(InitError::NotFound.message(), "no virtio-blk device found (missing -drive/-device flags?)");
    assert_eq!(InitError::Legacy.message(), "blk device is legacy; add -global virtio-mmio.force-legacy=false");
    assert_eq!(InitError::NoVersion1.message(), "device lacks VERSION_1 feature");
    assert_eq!(InitError::FeaturesRejected.message(), "device rejected features");
}

#[test]
fn requests_refused_when_not_ready_or_partial_sector() {
    let b = Blk::new();
    assert!(read(&b, 0, 0x5000_0000, 512, 0x100, 0x200, 0).is_err());
    let b = finish_init(0x0a00_0000, 100, 0);
    assert!(read(&b, 0, 0x5000_0000, 100, 0x100, 0x200, 0).is_err());
    assert!(lib::drivers::virtio::write(&b, 0, 0x5000_0000, 513, 0x100, 0x200, 0).is_err());
}

#[test]
fn read_request_chain() {
    let b = finish_init(0x0a00_0000, 100, 0);
    let s = read(&b, 7, 0x5000_0000, 1024, 0x4000_1000, 0x4000_1010, 3).unwrap();
    assert_eq!(s.hdr.ty, BLK_IN);
    assert_eq!(s.hdr.sector, 7);
    assert_eq!(
        s.descs,
        vec![
            Desc { addr: 0x4000_1000, len: 16, flags: DF_NEXT, next: 1 },
            Desc { addr: 0x5000_0000, len: 1024, flags: DF_NEXT | DF_WRITE, next: 2 },
            Desc { addr: 0x4000_1010, len: 1, flags: DF_WRITE, next: 0 },
        ]
    );
    assert_eq!(s.avail_slot, 3);
    assert_eq!(s.avail_head, 0);
    assert_eq!(s.avail_idx, 4);
    assert_eq!(s.status_init, 0xff);
    assert_eq!(s.notify, vec![MmioOp::Write { offset: 0x050, value: 0 }]);
    assert_eq!(s.target, 1);
}

#[test]
fn write_request_and_wrapping_indices() {
    let mut b = finish_init(0x0a00_0000, 100, 0);
    b.last_used = u16::MAX;
    let s = lib::drivers::virtio::write(&b, 1, 0x5000_0000, 512, 0x4000_1000, 0x4000_1010, u16::MAX).unwrap();
    assert_eq!(s.hdr.ty, BLK_OUT);
    assert_eq!(s.descs[1].flags, DF_NEXT);
    assert_eq!(s.avail_slot, 7);
    assert_eq!(s.avail_idx, 0);
    assert_eq!(s.target, 0);
    assert!(!used_reached(&s, u16::MAX));
    assert!(used_reached(&s, 0));
}

#[test]
fn complete_records_used_index() {
    let mut b = finish_init(0x0a00_0000, 100, 0);
    let s = read(&b, 0, 0x5000_0000, 512, 0x4000_1000, 0x4000_1010, 0).unwrap();
    let (r, ops) = complete(&mut b, &s, 1, 0);
    assert_eq!(r, Ok(()));
    assert_eq!(ops, vec![MmioOp::Write { offset: INT_ACK, value: 1 }]);
    assert_eq!(b.last_used, 1);
    let s2 = read(&b, 0, 0x5000_0000, 512, 0x4000_1000, 0x4000_1010, s.avail_idx).unwrap();
    assert_eq!(s2.target, 2);
    let (r, ops) = complete(&mut b, &s2, 0, 1);
    assert_eq!(r, Err(()));
    assert!(ops.is_empty());
    assert_eq!(b.last_used, 2);
}

#[test]
fn bring_up_status_steps() {
    let rings = RingAddrs { desc: 0x4000_2000, avail: 0x4000_2080, used: 0x4000_2100 };
    let mut ops = reset_ops();
    ops.extend(negotiate(1).unwrap());
    ops.extend(confirm_features(15).unwrap());
    ops.extend(setup_queue(256, &rings).unwrap());
    let status: Vec<u32> = ops
        .iter()
        .filter_map(|op| match op {
            MmioOp::Write { offset, value } if *offset == STATUS => Some(*value),
            _ => None,
        })
        .collect();
    assert_eq!(status, vec![0, 1, 3, 11, 15]);
}

fn run_bring_up(dev_feat: u32, status: u32, num_max: u32) -> (Result<Blk, InitError>, Vec<MmioOp>) {
    let rings = RingAddrs { desc: 0x4000_2000, avail: 0x4000_2080, used: 0x4000_2100 };
    let (mut stage, mut ops) = bring_up_start();
    loop {
        let values: Vec<u32> = stage_reads(stage)
            .iter()
            .map(|&off| match off {
                0x010 => dev_feat,
                0x070 => status,
                0x034 => num_max,
                0x100 => 0x20,
                0x104 => 1,
                _ => panic!("unexpected read at {:#x}", off),
            })
            .collect();
        match bring_up_step(0x0a00_0600, stage, &rings, &values) {
            Step::Next(next, more) => {
                ops.extend(more);
                stage = next;
            }
            Step::Done(b) => return (Ok(b), ops),
            Step::Failed(e, more) => {
                ops.extend(more);
                return (Err(e), ops);
            }
        }
    }
}

fn status_values(ops: &[MmioOp]) -> Vec<u32> {
    ops.iter()
        .filter_map(|op| match op {
            MmioOp::Write { offset, value } if *offset == STATUS => Some(*value),
            _ => None,
        })
        .collect()
}

#[test]
fn bring_up_state_machine_succeeds() {
    let (r, ops) = run_bring_up(1, 0x0b, 8);
    let b = r.unwrap();
    assert_eq!(b.base, 0x0a00_0600);
    assert_eq!(b.capacity, 0x1_0000_0020);
    assert!(b.ready);
    assert_eq!(b.last_used, 0);
    assert_eq!(status_values(&ops), vec![0, 1, 3, 11, 15]);
    assert!(ops.contains(&MmioOp::Write { offset: 0x038, value: 8 }));
    assert!(ops.contains(&MmioOp::Write { offset: 0x044, value: 1 }));
}

#[test]
fn bring_up_state_machine_failures() {
    let (r, ops) = run_bring_up(0, 0x0b, 8);
    assert_eq!(r.unwrap_err(), InitError::NoVersion1);
    assert_eq!(status_values(&ops), vec![0, 1, 3, 128]);
    let (r, ops) = run_bring_up(1, 0x03, 8);
    assert_eq!(r.unwrap_err(), InitError::FeaturesRejected);
    assert_eq!(status_values(&ops), vec![0, 1, 3, 11, 128]);
    let (r, _) = run_bring_up(1, 0x0b, 4);
    assert_eq!(r.unwrap_err(), InitError::QueueTooSmall);
}
