use std::collections::BTreeSet;

use slsify::capture::{Observation, ReadOutcome, VolatileCheckpoint};
use slsify::checkpoint::{
    checkpoint_dir, maybe_remove_dir_all, sequence_number, Checkpointer, FsOp, RemoveOutcome,
    StepData,
};
use slsify::compat::{Registers, UserFpregs, UserRegs};
use slsify::decimal::format_u64;
use slsify::error::Error;
use slsify::region::{
    FdTarget, FileDescriptorRecord, RegionDescriptor, RegionPath, PERM_EXECUTE, PERM_PRIVATE,
    PERM_READ, PERM_WRITE,
};

fn regs(rip: u64) -> Registers {
    Registers {
        regs: UserRegs {
            r15: 0, r14: 0, r13: 0, r12: 0, rbp: 0, rbx: 0, r11: 0, r10: 0, r9: 0, r8: 0,
            rax: 0, rcx: 0, rdx: 0, rsi: 0, rdi: 0, orig_rax: 0, rip, cs: 0, eflags: 0,
            rsp: 0, ss: 0, fs_base: 0, gs_base: 0, ds: 0, es: 0, fs: 0, gs: 0,
        },
        fregs: UserFpregs {
            cwd: 0, swd: 0, ftw: 0, fop: 0, rip: 0, rdp: 0, mxcsr: 0, mxcr_mask: 0,
            st_space: [0; 32],
            xmm_space: vec![0; 64],
        },
    }
}

fn text(low: u64) -> RegionDescriptor {
    RegionDescriptor {
        low,
        high: low + 0x1000,
        perms: PERM_READ | PERM_EXECUTE | PERM_PRIVATE,
        offset: 0,
        path: RegionPath::File(b"/usr/bin/solver".to_vec()),
    }
}

fn heap(low: u64) -> RegionDescriptor {
    RegionDescriptor {
        low,
        high: low + 0x2000,
        perms: PERM_READ | PERM_WRITE | PERM_PRIVATE,
        offset: 0,
        path: RegionPath::Tagged(b"[heap]".to_vec()),
    }
}

fn fresh(root: &[u8]) -> Checkpointer {
    Checkpointer::attach(root.to_vec(), StepData::open(0, Vec::new()))
}

/// What the target looks like when it is stopped: two regions that are not
/// written to, and a heap.
fn observe(engine: &Checkpointer, fill: u8) -> VolatileCheckpoint {
    let observations = vec![
        Observation { region: text(0x400000), read: ReadOutcome::Bytes(vec![1, 1]) },
        Observation { region: heap(0x600000), read: ReadOutcome::Bytes(vec![fill; 3]) },
        Observation { region: text(0x7000_0000), read: ReadOutcome::Bytes(vec![2]) },
    ];
    engine.volatile_checkpoint(regs(0x401000), observations, &Vec::new()).unwrap()
}

/// Carries out the directory actions of a checkpoint on a set of directory names.
fn persist(disk: &mut BTreeSet<Vec<u8>>, ops: &[FsOp]) {
    for op in ops {
        match op {
            FsOp::RemoveDirAll(dir) => {
                disk.remove(dir);
            }
            FsOp::CreateDir(dir) => {
                assert!(disk.insert(dir.clone()));
            }
            _ => {}
        }
    }
}

#[test]
fn sequence_pointer_text_is_decimal() {
    assert_eq!(sequence_number(b""), Ok(0));
    assert_eq!(sequence_number(b"0"), Ok(0));
    assert_eq!(sequence_number(b"10"), Ok(10));
    assert_eq!(sequence_number(b"18446744073709551615"), Ok(u64::MAX));
    assert_eq!(sequence_number(b"18446744073709551616"), Err(Error::Decode));
    assert_eq!(sequence_number(b"10\n"), Err(Error::Decode));
    assert_eq!(sequence_number(b"ten"), Err(Error::Decode));
    assert_eq!(sequence_number(b" "), Err(Error::Decode));
}

#[test]
fn fresh_attach_has_no_checkpoint_and_no_regions() {
    let seq = sequence_number(b"").unwrap();
    let engine = Checkpointer::attach(b"/tmp/slsdir".to_vec(), StepData::open(seq, Vec::new()));
    assert_eq!(engine.step.seq, 0);
    assert_eq!(engine.step.last_maps, Vec::new());
    assert_eq!(engine.path, b"/tmp/slsdir".to_vec());
}

#[test]
fn open_without_a_checkpoint_forgets_the_regions_handed_in() {
    let step = StepData::open(0, vec![text(0x400000)]);
    assert_eq!(step.seq, 0);
    assert!(step.last_maps.is_empty());
    let step = StepData::open(3, vec![text(0x400000)]);
    assert_eq!(step.seq, 3);
    assert_eq!(step.last_maps, vec![text(0x400000)]);
}

#[test]
fn checkpoint_directories_are_named_by_their_number() {
    assert_eq!(checkpoint_dir(b"/tmp/slsdir", 0), b"/tmp/slsdir/0".to_vec());
    assert_eq!(checkpoint_dir(b"/tmp/slsdir", 10), b"/tmp/slsdir/10".to_vec());
    assert_eq!(checkpoint_dir(b"cps", 7), b"cps/7".to_vec());
}

#[test]
fn first_checkpoint_writes_every_region() {
    let mut engine = fresh(b"/r");
    let v_cp = observe(&engine, 5);
    let (checkpoint, pause) = engine.checkpoint_timed(v_cp, true, 1234).unwrap();
    assert_eq!(pause, Some(1234));
    assert_eq!(engine.step.seq, 1);
    assert_eq!(checkpoint.seq, 1);
    assert_eq!(engine.step.last_maps, vec![text(0x400000), heap(0x600000), text(0x7000_0000)]);
    assert_eq!(checkpoint.regs, regs(0x401000));
    assert_eq!(checkpoint.mems, vec![(0, vec![1, 1]), (1, vec![5; 3]), (2, vec![2])]);
    assert_eq!(
        checkpoint.ops,
        vec![
            FsOp::RemoveDirAll(b"/r/1".to_vec()),
            FsOp::CreateDir(b"/r/1".to_vec()),
            FsOp::WriteRegion { path: b"/r/1/0".to_vec(), mem: 0 },
            FsOp::WriteRegion { path: b"/r/1/1".to_vec(), mem: 1 },
            FsOp::WriteRegion { path: b"/r/1/2".to_vec(), mem: 2 },
            FsOp::WriteRegs(b"/r/1/regs".to_vec()),
            FsOp::WriteMaps(b"/r/1/maps".to_vec()),
            FsOp::WriteFiles(b"/r/1/files".to_vec()),
            FsOp::WriteSeq { path: b"/r/seq".to_vec(), text: b"1".to_vec() },
        ]
    );
}

#[test]
fn checkpoint_without_timing_reports_no_pause() {
    let mut engine = fresh(b"/r");
    let v_cp = observe(&engine, 5);
    let (_, pause) = engine.checkpoint_timed(v_cp, false, 1234).unwrap();
    assert_eq!(pause, None);
    let v_cp = observe(&engine, 5);
    let (checkpoint, pause) = engine.checkpoint(v_cp, 77).unwrap();
    assert_eq!(pause, 77);
    assert_eq!(checkpoint.seq, 2);
}

#[test]
fn second_checkpoint_of_an_idle_target_links_what_is_not_written_to() {
    let mut engine = fresh(b"/r");
    let v_cp = observe(&engine, 5);
    engine.checkpoint_timed(v_cp, false, 0).unwrap();
    let first_maps = engine.step.last_maps.clone();

    let v_cp = observe(&engine, 5);
    assert_eq!(v_cp.reusable_mems, vec![(0, 0), (2, 2)]);
    let (checkpoint, _) = engine.checkpoint_timed(v_cp, false, 0).unwrap();
    assert_eq!(engine.step.seq, 2);
    assert_eq!(engine.step.last_maps, first_maps);
    assert_eq!(checkpoint.mems, vec![(1, vec![5; 3])]);
    assert_eq!(
        checkpoint.ops,
        vec![
            FsOp::RemoveDirAll(b"/r/2".to_vec()),
            FsOp::CreateDir(b"/r/2".to_vec()),
            FsOp::WriteRegion { path: b"/r/2/1".to_vec(), mem: 0 },
            FsOp::HardLink { existing: b"/r/1/0".to_vec(), link: b"/r/2/0".to_vec() },
            FsOp::HardLink { existing: b"/r/1/2".to_vec(), link: b"/r/2/2".to_vec() },
            FsOp::WriteRegs(b"/r/2/regs".to_vec()),
            FsOp::WriteMaps(b"/r/2/maps".to_vec()),
            FsOp::WriteFiles(b"/r/2/files".to_vec()),
            FsOp::WriteSeq { path: b"/r/seq".to_vec(), text: b"2".to_vec() },
        ]
    );
}

#[test]
fn a_region_that_moved_up_is_linked_from_its_old_index() {
    let mut engine = fresh(b"/r");
    let v_cp = observe(&engine, 5);
    engine.checkpoint_timed(v_cp, false, 0).unwrap();
    let observations = vec![
        Observation { region: text(0x7000_0000), read: ReadOutcome::NotRead },
        Observation { region: heap(0x600000), read: ReadOutcome::Bytes(vec![8]) },
    ];
    let v_cp = engine.volatile_checkpoint(regs(1), observations, &Vec::new()).unwrap();
    let (checkpoint, _) = engine.checkpoint_timed(v_cp, false, 0).unwrap();
    assert!(checkpoint
        .ops
        .contains(&FsOp::HardLink { existing: b"/r/1/2".to_vec(), link: b"/r/2/0".to_vec() }));
    assert!(checkpoint.ops.contains(&FsOp::WriteRegion { path: b"/r/2/1".to_vec(), mem: 0 }));
}

#[test]
fn the_sequence_pointer_is_written_last() {
    let mut engine = fresh(b"/r");
    for _ in 0..3 {
        let v_cp = observe(&engine, 5);
        let (checkpoint, _) = engine.checkpoint_timed(v_cp, false, 0).unwrap();
        let last = checkpoint.ops.last().unwrap();
        assert_eq!(
            *last,
            FsOp::WriteSeq { path: b"/r/seq".to_vec(), text: format_u64(engine.step.seq) }
        );
        let pointers = checkpoint
            .ops
            .iter()
            .filter(|op| matches!(op, FsOp::WriteSeq { .. }))
            .count();
        assert_eq!(pointers, 1);
    }
}

#[test]
fn checkpoint_carries_the_regular_files() {
    let mut engine = fresh(b"/r");
    let log = FileDescriptorRecord {
        fd: 3,
        target: FdTarget::File(b"/var/log/solver.log".to_vec()),
        mode: 1,
        offset: 99,
    };
    let tty = FileDescriptorRecord { fd: 0, target: FdTarget::Other, mode: 2, offset: 0 };
    let v_cp = engine
        .volatile_checkpoint(regs(1), Vec::new(), &vec![tty, log.clone()])
        .unwrap();
    let (checkpoint, _) = engine.checkpoint_timed(v_cp, false, 0).unwrap();
    assert_eq!(checkpoint.files, vec![log]);
}

#[test]
fn there_is_no_checkpoint_after_the_largest_number() {
    let mut engine =
        Checkpointer::attach(b"/r".to_vec(), StepData::open(u64::MAX, vec![text(0x400000)]));
    let before = engine.clone();
    let v_cp = observe(&engine, 5);
    assert_eq!(engine.checkpoint_timed(v_cp, true, 1), Err(Error::Precondition));
    assert_eq!(engine, before);
    let near = Checkpointer::attach(b"/r".to_vec(), StepData::open(u64::MAX - 1, Vec::new()));
    let mut near = near;
    let v_cp = observe(&near, 5);
    assert!(near.checkpoint_timed(v_cp, true, 1).is_ok());
    assert_eq!(near.step.seq, u64::MAX);
}

#[test]
fn n_checkpoints_leave_the_pointer_at_n() {
    let mut engine = fresh(b"/r");
    let mut disk = BTreeSet::new();
    let mut pointer = Vec::new();
    for n in 1..=25u64 {
        let v_cp = observe(&engine, n as u8);
        let (checkpoint, _) = engine.checkpoint_timed(v_cp, false, 0).unwrap();
        persist(&mut disk, &checkpoint.ops);
        if let Some(FsOp::WriteSeq { text, .. }) = checkpoint.ops.last() {
            pointer = text.clone();
        }
        assert_eq!(sequence_number(&pointer), Ok(n));
        assert_eq!(engine.step.seq, n);
    }
    let expected: BTreeSet<Vec<u8>> = (1..=25u64).map(|n| checkpoint_dir(b"/r", n)).collect();
    assert_eq!(disk, expected);
}

#[test]
fn cull_keeps_the_newest_checkpoints() {
    let engine = Checkpointer::attach(b"/r".to_vec(), StepData::open(10, Vec::new()));
    assert_eq!(engine.cull_checkpoints(3), Ok(Some((0, 7))));
    assert_eq!(engine.cull_checkpoints(10), Ok(Some((0, 0))));
    assert_eq!(engine.cull_checkpoints(11), Ok(None));
    assert_eq!(engine.cull_checkpoints(1), Ok(Some((0, 9))));
    assert_eq!(engine.cull_checkpoints(u64::MAX), Ok(None));
    let none = fresh(b"/r");
    assert_eq!(none.cull_checkpoints(3), Ok(None));
    assert_eq!(none.cull_checkpoints(1), Ok(None));
}

#[test]
fn clean_lists_the_directories_oldest_first() {
    let engine = Checkpointer::attach(b"/r".to_vec(), StepData::open(10, Vec::new()));
    assert_eq!(
        engine.clean_checkpoints(0, 3),
        vec![b"/r/0".to_vec(), b"/r/1".to_vec(), b"/r/2".to_vec(), b"/r/3".to_vec()]
    );
    assert_eq!(engine.clean_checkpoints(9, 11).len(), 3);
    assert_eq!(engine.clean_checkpoints(5, 5), vec![b"/r/5".to_vec()]);
    assert_eq!(engine.clean_checkpoints(6, 5), Vec::<Vec<u8>>::new());
    assert_eq!(
        engine.clean_checkpoints(u64::MAX - 1, u64::MAX),
        vec![b"/r/18446744073709551614".to_vec(), b"/r/18446744073709551615".to_vec()]
    );
}

/// Takes `count` checkpoints with a ring of `max` and gives what is on disk.
fn rounds(count: u64, max: u64) -> (Checkpointer, BTreeSet<Vec<u8>>) {
    let mut engine = fresh(b"/r");
    let mut disk = BTreeSet::new();
    for n in 1..=count {
        let v_cp = observe(&engine, n as u8);
        let (checkpoint, _) = engine.checkpoint_timed(v_cp, false, 0).unwrap();
        for op in &checkpoint.ops {
            if let FsOp::HardLink { existing, .. } = op {
                let cut = existing.iter().rposition(|b| *b == b'/').unwrap();
                assert!(disk.contains(&existing[..cut].to_vec()), "a link needs its file");
            }
        }
        persist(&mut disk, &checkpoint.ops);
        if let Some((first, last)) = engine.cull_checkpoints(max).unwrap() {
            for dir in engine.clean_checkpoints(first, last) {
                assert_eq!(maybe_remove_dir_all(if disk.remove(&dir) {
                    RemoveOutcome::Removed
                } else {
                    RemoveOutcome::NotFound
                }), Ok(()));
            }
        }
        assert!(disk.len() as u64 <= max);
        assert!(disk.contains(&checkpoint_dir(b"/r", engine.step.seq)));
    }
    (engine, disk)
}

#[test]
fn ten_checkpoints_with_a_ring_of_three_leave_eight_nine_ten() {
    let (engine, disk) = rounds(10, 3);
    let expected: BTreeSet<Vec<u8>> =
        [b"/r/8".to_vec(), b"/r/9".to_vec(), b"/r/10".to_vec()].into_iter().collect();
    assert_eq!(disk, expected);
    assert_eq!(engine.step.seq, 10);
}

#[test]
fn a_ring_of_one_keeps_exactly_the_newest() {
    for count in 1..=6u64 {
        let (engine, disk) = rounds(count, 1);
        let expected: BTreeSet<Vec<u8>> = [checkpoint_dir(b"/r", count)].into_iter().collect();
        assert_eq!(disk, expected);
        assert_eq!(engine.step.seq, count);
    }
}

#[test]
fn a_ring_larger_than_the_run_keeps_everything() {
    let (_, disk) = rounds(4, 9);
    assert_eq!(disk.len(), 4);
}

#[test]
fn removing_what_is_not_there_is_no_failure() {
    assert_eq!(maybe_remove_dir_all(RemoveOutcome::Removed), Ok(()));
    assert_eq!(maybe_remove_dir_all(RemoveOutcome::NotFound), Ok(()));
    assert_eq!(maybe_remove_dir_all(RemoveOutcome::Failed), Err(Error::Io));
}

#[test]
fn a_region_that_occurs_twice_is_linked_from_its_first_file() {
    let mut engine = fresh(b"/r");
    let twice = || {
        vec![
            Observation { region: text(0x400000), read: ReadOutcome::Bytes(vec![1]) },
            Observation { region: text(0x400000), read: ReadOutcome::Bytes(vec![1]) },
        ]
    };
    let v_cp = engine.volatile_checkpoint(regs(1), twice(), &Vec::new()).unwrap();
    engine.checkpoint_timed(v_cp, false, 0).unwrap();
    let v_cp = engine.volatile_checkpoint(regs(1), twice(), &Vec::new()).unwrap();
    assert_eq!(v_cp.maps, vec![text(0x400000), text(0x400000)]);
    assert_eq!(v_cp.reusable_mems, vec![(0, 0), (1, 0)]);
}

#[test]
fn a_ring_of_no_checkpoint_is_refused_and_nothing_goes() {
    for seq in [0u64, 1, 10, u64::MAX] {
        let engine = Checkpointer::attach(b"/r".to_vec(), StepData::open(seq, Vec::new()));
        assert_eq!(engine.cull_checkpoints(0), Err(Error::Precondition));
    }
}

#[test]
fn culling_never_takes_the_newest_checkpoint() {
    for seq in 0..40u64 {
        let engine = Checkpointer::attach(b"/r".to_vec(), StepData::open(seq, Vec::new()));
        for max in 1..45u64 {
            if let Some((first, last)) = engine.cull_checkpoints(max).unwrap() {
                assert!(first <= last && last < seq);
                assert!(!engine.clean_checkpoints(first, last).contains(&checkpoint_dir(b"/r", seq)));
                assert_eq!(seq - last, max);
            }
        }
    }
}
