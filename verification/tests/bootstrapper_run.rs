use std::collections::BTreeMap;

use iced_x86::{Decoder, DecoderOptions, Instruction, Mnemonic, OpKind, Register};
use slsify::region::{
    FdTarget, FileDescriptorRecord, RegionDescriptor, RegionPath, PERM_PRIVATE, PERM_READ,
    PERM_WRITE,
};
use slsify::restore::assemble_bs_code;

/// A system call as the kernel sees it: its number and its six argument registers.
type Call = (u64, [u64; 6]);

/// Runs machine code the way the processor would, as far as this code
/// goes, and lists the system calls it makes until it enters its loop.
/// The kernel's answers are taken from `results`.
fn run(code: &[u8], entry: u64, results: &[u64]) -> Vec<Call> {
    let mut program = BTreeMap::new();
    let mut decoder = Decoder::with_ip(64, code, entry, DecoderOptions::NONE);
    while decoder.can_decode() {
        let instruction: Instruction = decoder.decode();
        program.insert(instruction.ip(), instruction);
    }
    let mut regs: BTreeMap<Register, u64> = BTreeMap::new();
    let mut equal = false;
    let mut calls = Vec::new();
    let mut ip = entry;
    for _ in 0..10_000 {
        let i = program[&ip];
        let mut next = i.next_ip();
        match i.mnemonic() {
            Mnemonic::Mov => {
                let value = match i.op1_kind() {
                    OpKind::Register => regs.get(&i.op1_register()).copied().unwrap_or(0xdead),
                    OpKind::Immediate64 => i.immediate64(),
                    other => panic!("operand {other:?}"),
                };
                regs.insert(i.op0_register(), value);
            }
            Mnemonic::Xor => {
                let a = regs.get(&i.op0_register()).copied().unwrap_or(0xdead);
                let b = regs.get(&i.op1_register()).copied().unwrap_or(0xdead);
                regs.insert(i.op0_register(), a ^ b);
            }
            Mnemonic::Syscall => {
                let get = |r: Register| regs.get(&r).copied().unwrap_or(0xdead);
                calls.push((
                    get(Register::RAX),
                    [
                        get(Register::RDI),
                        get(Register::RSI),
                        get(Register::RDX),
                        get(Register::R10),
                        get(Register::R8),
                        get(Register::R9),
                    ],
                ));
                regs.insert(Register::RAX, results[calls.len() - 1]);
            }
            Mnemonic::Cmp => {
                assert_eq!(i.op0_register(), Register::EAX);
                let low = regs[&Register::RAX] as u32;
                equal = low == i.immediate32();
            }
            Mnemonic::Je => {
                if equal {
                    next = i.near_branch_target();
                }
            }
            Mnemonic::Jmp => {
                assert_eq!(i.near_branch_target(), ip);
                return calls;
            }
            other => panic!("instruction {other:?}"),
        }
        ip = next;
    }
    panic!("the code does not reach its loop");
}

fn sample() -> (Vec<RegionDescriptor>, Vec<bool>, Vec<FileDescriptorRecord>) {
    let maps = vec![
        RegionDescriptor {
            low: 0x400000,
            high: 0x403000,
            perms: PERM_READ | PERM_PRIVATE,
            offset: 0,
            path: RegionPath::Anonymous,
        },
        RegionDescriptor {
            low: 0x500000,
            high: 0x501000,
            perms: PERM_READ | PERM_PRIVATE,
            offset: 0,
            path: RegionPath::Anonymous,
        },
        RegionDescriptor {
            low: 0x7000_0000_0000,
            high: 0x7000_0000_8000,
            perms: PERM_READ | PERM_WRITE | PERM_PRIVATE,
            offset: 0,
            path: RegionPath::Tagged(b"[stack]".to_vec()),
        },
    ];
    let files = vec![
        FileDescriptorRecord {
            fd: 3,
            target: FdTarget::File(b"/tmp/log".to_vec()),
            mode: 0o2001,
            offset: 77,
        },
        FileDescriptorRecord {
            fd: 9,
            target: FdTarget::File(b"/tmp/out".to_vec()),
            mode: 1,
            offset: 1 << 40,
        },
    ];
    (maps, vec![true, false, true], files)
}

const VADDR: u64 = 0xe0000;
const DATA: u64 = 0xe0078;

#[test]
fn bootstrapper_makes_the_calls_that_rebuild_the_target() {
    let (maps, present, files) = sample();
    let (data, code) = assemble_bs_code(b"/c/5", &maps, &present, &files, VADDR, DATA).unwrap();
    assert_eq!(data, b"/c/5/0\0/c/5/2\0/tmp/log\0/tmp/out\0".to_vec());
    // The kernel's answers: both files of the regions open on 3; the
    // first file of the target opens on 3, the second on 4; the process
    // has the number 4321.
    let results = [0, 0, 3, 0x400000, 0, 3, 0x7000_0000_0000, 0, 3, 77, 4, 9, 0, 1 << 40, 4321, 0];
    let calls = run(&code, DATA + data.len() as u64, &results);
    let number = |call: &Call| call.0 as i64;
    let expected: Vec<(i64, Vec<u64>)> = vec![
        (libc::SYS_munmap, vec![0, VADDR]),
        (libc::SYS_munmap, vec![VADDR + 4096, 0x7fff_ffff_f000 - (VADDR + 4096)]),
        (libc::SYS_open, vec![DATA, libc::O_RDONLY as u64, 0o666]),
        (libc::SYS_mmap, vec![0x400000, 0x3000, 17, 0x12, 3, 0]),
        (libc::SYS_close, vec![3]),
        (libc::SYS_open, vec![DATA + 7, libc::O_RDONLY as u64, 0o666]),
        (libc::SYS_mmap, vec![0x7000_0000_0000, 0x8000, 19, 0x12, 3, 0]),
        (libc::SYS_close, vec![3]),
        (libc::SYS_open, vec![DATA + 14, 0o2001, 0o666]),
        (libc::SYS_lseek, vec![3, 77, libc::SEEK_SET as u64]),
        (libc::SYS_open, vec![DATA + 23, 1, 0o666]),
        (libc::SYS_dup2, vec![4, 9]),
        (libc::SYS_close, vec![4]),
        (libc::SYS_lseek, vec![9, 1 << 40, libc::SEEK_SET as u64]),
        (libc::SYS_getpid, vec![]),
        (libc::SYS_kill, vec![4321, libc::SIGSTOP as u64]),
    ];
    assert_eq!(calls.len(), expected.len());
    for (call, (nr, args)) in calls.iter().zip(&expected) {
        assert_eq!(number(call), *nr);
        assert_eq!(&call.1[..args.len()], &args[..]);
    }
}

#[test]
fn bootstrapper_of_an_empty_checkpoint_unmaps_and_stops_itself() {
    let (data, code) =
        assemble_bs_code(b"/c/5", &Vec::new(), &Vec::new(), &Vec::new(), VADDR, DATA).unwrap();
    assert!(data.is_empty());
    let calls = run(&code, DATA, &[0, 0, 55, 0]);
    assert_eq!(calls.len(), 4);
    assert_eq!(calls[0].0, libc::SYS_munmap as u64);
    assert_eq!(&calls[0].1[..2], &[0, VADDR]);
    assert_eq!(calls[1].0, libc::SYS_munmap as u64);
    assert_eq!(&calls[1].1[..2], &[VADDR + 4096, 0x7fff_ffff_f000 - (VADDR + 4096)]);
    assert_eq!(calls[2].0, libc::SYS_getpid as u64);
    assert_eq!(calls[3].0, libc::SYS_kill as u64);
    assert_eq!(&calls[3].1[..2], &[55, libc::SIGSTOP as u64]);
}

#[test]
fn a_descriptor_that_comes_back_on_its_number_is_not_duplicated() {
    let (_, _, files) = sample();
    let (_, code) =
        assemble_bs_code(b"/c/5", &Vec::new(), &Vec::new(), &files, VADDR, DATA).unwrap();
    // only the low half of what `open` returns is compared
    let results = [0, 0, 3, 0, (7 << 32) | 9, 0, 1, 0];
    let calls = run(&code, DATA + 18, &results);
    let numbers: Vec<i64> = calls.iter().map(|c| c.0 as i64).collect();
    assert_eq!(
        numbers,
        vec![
            libc::SYS_munmap,
            libc::SYS_munmap,
            libc::SYS_open,
            libc::SYS_lseek,
            libc::SYS_open,
            libc::SYS_lseek,
            libc::SYS_getpid,
            libc::SYS_kill,
        ]
    );
}
