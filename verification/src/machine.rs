//! What the bootstrapper's program text does when it runs: a model of the
//! processor that is just large enough for it, and the proof that the
//! text makes the system calls that rebuild the target, in their order.
//!
//! The model runs a text from its first line to its last. It covers texts
//! whose jumps go forward to a label that follows, but for a jump to the
//! label that stands right before it, which is an endless loop.

use vstd::prelude::*;
use crate::assembler::{Gpr, Insn};
use crate::layout::{LayoutModel, MmapArg, OpenArg, MAX_DATA};
use crate::program::{
    epilogue, map_block, map_blocks, open_block, open_blocks, placeable, program_text, prologue,
    CODE_WINDOW, USER_SPACE_TOP, MAP_FIXED_PRIVATE, OPEN_MODE, O_RDONLY, SEEK_SET, SIGSTOP, SYS_CLOSE, SYS_DUP2,
    SYS_GETPID, SYS_KILL, SYS_LSEEK, SYS_MMAP, SYS_MUNMAP, SYS_OPEN,
};

verus! {

/// A system call with the arguments that it reads.
pub enum Sys {
    Munmap { addr: u64, len: u64 },
    Open { path: u64, flags: u64, mode: u64 },
    Mmap { addr: u64, len: u64, prot: u64, flags: u64, fd: u64, offset: u64 },
    Close { fd: u64 },
    Dup2 { from: u64, to: u64 },
    Lseek { fd: u64, offset: u64, whence: u64 },
    Getpid,
    Kill { pid: u64, signal: u64 },
    Other { number: u64 },
}

/// A processor in the middle of a text.
pub struct Machine {
    pub rax: u64,
    pub rdi: u64,
    pub rsi: u64,
    pub rdx: u64,
    pub r8: u64,
    pub r9: u64,
    pub r10: u64,
    /// Whether the last comparison found its operands equal, or the last
    /// `xor` gave zero.
    pub equal: bool,
    /// The label that a jump has gone to and that the text has not reached yet.
    pub seeking: Option<nat>,
    /// The label that the line before bound, if it bound one.
    pub at_label: Option<nat>,
    /// Whether the processor has entered a loop that it never leaves.
    pub spinning: bool,
    /// The system calls made so far.
    pub calls: Seq<Sys>,
}

impl Machine {
    /// What a register holds.
    pub open spec fn get(self, reg: Gpr) -> u64 {
        match reg {
            Gpr::Rax => self.rax,
            Gpr::Rdi => self.rdi,
            Gpr::Rsi => self.rsi,
            Gpr::Rdx => self.rdx,
            Gpr::R8 => self.r8,
            Gpr::R9 => self.r9,
            Gpr::R10 => self.r10,
        }
    }

    /// The machine with `value` in a register.
    pub open spec fn set(self, reg: Gpr, value: u64) -> Machine {
        match reg {
            Gpr::Rax => Machine { rax: value, ..self },
            Gpr::Rdi => Machine { rdi: value, ..self },
            Gpr::Rsi => Machine { rsi: value, ..self },
            Gpr::Rdx => Machine { rdx: value, ..self },
            Gpr::R8 => Machine { r8: value, ..self },
            Gpr::R9 => Machine { r9: value, ..self },
            Gpr::R10 => Machine { r10: value, ..self },
        }
    }

    /// The system call that the registers ask for: its number is in
    /// `rax`, its arguments are in `rdi`, `rsi`, `rdx`, `r10`, `r8`, `r9`.
    pub open spec fn call(self) -> Sys {
        if self.rax == SYS_MUNMAP {
            Sys::Munmap { addr: self.rdi, len: self.rsi }
        } else if self.rax == SYS_OPEN {
            Sys::Open { path: self.rdi, flags: self.rsi, mode: self.rdx }
        } else if self.rax == SYS_MMAP {
            Sys::Mmap {
                addr: self.rdi,
                len: self.rsi,
                prot: self.rdx,
                flags: self.r10,
                fd: self.r8,
                offset: self.r9,
            }
        } else if self.rax == SYS_CLOSE {
            Sys::Close { fd: self.rdi }
        } else if self.rax == SYS_DUP2 {
            Sys::Dup2 { from: self.rdi, to: self.rsi }
        } else if self.rax == SYS_LSEEK {
            Sys::Lseek { fd: self.rdi, offset: self.rsi, whence: self.rdx }
        } else if self.rax == SYS_GETPID {
            Sys::Getpid
        } else if self.rax == SYS_KILL {
            Sys::Kill { pid: self.rdi, signal: self.rsi }
        } else {
            Sys::Other { number: self.rax }
        }
    }
}

/// What system call number `index` of a run returns. The kernel decides;
/// a run is judged for every list of results.
pub open spec fn result_of(results: Seq<u64>, index: int) -> u64 {
    if 0 <= index < results.len() {
        results[index]
    } else {
        0
    }
}

/// The low half of a register.
pub open spec fn low_half(value: u64) -> u64 {
    value & 0xffff_ffff
}

/// A 32-bit immediate as the bits it is made of.
pub open spec fn immediate(value: i32) -> u64 {
    if value >= 0 {
        value as u64
    } else {
        (value + 0x1_0000_0000) as u64
    }
}

/// The machine after one line of the text.
pub open spec fn execute(m: Machine, insn: Insn, results: Seq<u64>) -> Machine {
    if m.spinning {
        m
    } else if m.seeking is Some {
        if insn == Insn::Label(m.seeking.unwrap()) {
            Machine { seeking: None, at_label: m.seeking, ..m }
        } else {
            m
        }
    } else {
        let m = Machine { at_label: None, ..m };
        match insn {
            Insn::Bits(_) => m,
            Insn::MovImm(dst, imm) => m.set(dst, imm),
            Insn::MovReg(dst, src) => m.set(dst, m.get(src)),
            Insn::Xor(dst, src) => Machine {
                equal: m.get(dst) ^ m.get(src) == 0,
                ..m.set(dst, m.get(dst) ^ m.get(src))
            },
            Insn::Syscall => Machine {
                rax: result_of(results, m.calls.len() as int),
                calls: m.calls.push(m.call()),
                ..m
            },
            Insn::CompareLow(reg, imm) => Machine {
                equal: low_half(m.get(reg)) == immediate(imm),
                ..m
            },
            Insn::JumpIfEqual(label) => if m.equal {
                Machine { seeking: Some(label), ..m }
            } else {
                m
            },
            Insn::Jump(label) => Machine { seeking: Some(label), ..m },
            Insn::Label(label) => Machine { at_label: Some(label), ..m },
        }
    }
}

/// The machine after one line of the text, where a jump to the label
/// that the line before bound is an endless loop.
pub open spec fn step(m: Machine, insn: Insn, results: Seq<u64>) -> Machine {
    if !m.spinning && m.seeking is None && m.at_label is Some && insn == Insn::Jump(
        m.at_label.unwrap(),
    ) {
        Machine { spinning: true, ..m }
    } else {
        execute(m, insn, results)
    }
}

/// The machine after every line of a text, from the first to the last.
pub open spec fn run(text: Seq<Insn>, m: Machine, results: Seq<u64>) -> Machine
    decreases text.len(),
{
    if text.len() == 0 {
        m
    } else {
        step(run(text.drop_last(), m, results), text.last(), results)
    }
}

/// A machine that has made no call and stands before the first line.
pub open spec fn fresh(m: Machine) -> bool {
    !m.spinning && m.seeking is None && m.at_label is None && m.calls.len() == 0
}

/// Whether a machine runs on with the line that follows.
pub open spec fn running(m: Machine) -> bool {
    !m.spinning && m.seeking is None
}

/// Running two texts one after the other is running the one text that they make.
pub proof fn lemma_run_concat(a: Seq<Insn>, b: Seq<Insn>, m: Machine, results: Seq<u64>)
    ensures
        run(a + b, m, results) == run(b, run(a, m, results), results),
    decreases b.len(),
{
    if b.len() == 0 {
        assert(a + b =~= a);
    } else {
        lemma_run_concat(a, b.drop_last(), m, results);
        assert((a + b).drop_last() =~= a + b.drop_last());
    }
}

/// Running a text and one more line is running the text and then the line.
pub proof fn lemma_run_push(text: Seq<Insn>, insn: Insn, m: Machine, results: Seq<u64>)
    ensures
        run(text.push(insn), m, results) == step(run(text, m, results), insn, results),
{
    assert(text.push(insn).drop_last() =~= text);
}

/// The calls of the prologue: everything below the window is unmapped,
/// and everything above it up to the end of user space.
pub open spec fn prologue_calls(vaddr: u64) -> Seq<Sys> {
    seq![
        Sys::Munmap { addr: 0, len: vaddr },
        Sys::Munmap {
            addr: (vaddr + CODE_WINDOW) as u64,
            len: (USER_SPACE_TOP - (vaddr + CODE_WINDOW)) as u64,
        },
    ]
}

/// The calls that map one region, when opening its file gave the
/// descriptor `fd`: the file is opened read-only, mapped at the region's
/// address with the region's protection bits, private and fixed, from
/// offset zero, and the descriptor is closed.
pub open spec fn map_calls(arg: MmapArg, data_addr: u64, fd: u64) -> Seq<Sys> {
    seq![
        Sys::Open { path: (data_addr + arg.path_ptr) as u64, flags: O_RDONLY, mode: OPEN_MODE },
        Sys::Mmap {
            addr: arg.addr,
            len: arg.len,
            prot: arg.prot,
            flags: MAP_FIXED_PRIVATE,
            fd,
            offset: 0,
        },
        Sys::Close { fd },
    ]
}

/// The calls that reopen one file, when opening it gave the descriptor
/// `got`: the file is opened with its access mode; unless `got` is the
/// number that the descriptor had, it is duplicated to that number and
/// closed; and the descriptor is moved to the recorded offset.
pub open spec fn open_calls(arg: OpenArg, data_addr: u64, got: u64) -> Seq<Sys> {
    let open = Sys::Open { path: (data_addr + arg.path_ptr) as u64, flags: arg.mode, mode: OPEN_MODE };
    let seek = Sys::Lseek { fd: arg.fd as u64, offset: arg.offset, whence: SEEK_SET };
    if low_half(got) == immediate(arg.fd) {
        seq![open, seek]
    } else {
        seq![open, Sys::Dup2 { from: got, to: arg.fd as u64 }, Sys::Close { fd: got }, seek]
    }
}

/// The calls of the epilogue, when the process has the number `pid`: it
/// asks for its number and sends itself the stop signal.
pub open spec fn epilogue_calls(pid: u64) -> Seq<Sys> {
    seq![Sys::Getpid, Sys::Kill { pid, signal: SIGSTOP }]
}

/// The calls `before`, and then those that map the first `n` regions.
pub open spec fn maps_calls(
    args: Seq<MmapArg>,
    data_addr: u64,
    results: Seq<u64>,
    before: Seq<Sys>,
    n: nat,
) -> Seq<Sys>
    decreases n,
{
    if n == 0 {
        before
    } else {
        let earlier = maps_calls(args, data_addr, results, before, (n - 1) as nat);
        earlier + map_calls(args[n - 1], data_addr, result_of(results, earlier.len() as int))
    }
}

/// The calls `before`, and then those that reopen the first `n` files.
pub open spec fn opens_calls(
    args: Seq<OpenArg>,
    data_addr: u64,
    results: Seq<u64>,
    before: Seq<Sys>,
    n: nat,
) -> Seq<Sys>
    decreases n,
{
    if n == 0 {
        before
    } else {
        let earlier = opens_calls(args, data_addr, results, before, (n - 1) as nat);
        earlier + open_calls(args[n - 1], data_addr, result_of(results, earlier.len() as int))
    }
}

/// All the system calls of a bootstrapper, in their order, when the
/// kernel answers them with `results`.
pub open spec fn restore_calls(
    layout: LayoutModel,
    vaddr: u64,
    data_addr: u64,
    results: Seq<u64>,
) -> Seq<Sys> {
    let mapped = maps_calls(
        layout.mmaps,
        data_addr,
        results,
        prologue_calls(vaddr),
        layout.mmaps.len(),
    );
    let opened = opens_calls(layout.opens, data_addr, results, mapped, layout.opens.len());
    opened + epilogue_calls(result_of(results, opened.len() as int))
}

/// The prologue makes its two calls and runs on.
proof fn lemma_prologue(vaddr: u64, m: Machine, results: Seq<u64>)
    requires
        fresh(m),
        vaddr + CODE_WINDOW <= USER_SPACE_TOP,
    ensures
        running(run(prologue(vaddr), m, results)),
        run(prologue(vaddr), m, results).calls == prologue_calls(vaddr),
{
    assert(m.rdi ^ m.rdi == 0) by (bit_vector);
    let t0 = Seq::<Insn>::empty();
    let t1 = t0.push(Insn::Bits(64));
    lemma_run_push(t0, Insn::Bits(64), m, results);
    let t2 = t1.push(Insn::Xor(Gpr::Rdi, Gpr::Rdi));
    lemma_run_push(t1, Insn::Xor(Gpr::Rdi, Gpr::Rdi), m, results);
    let t3 = t2.push(Insn::MovImm(Gpr::Rsi, vaddr));
    lemma_run_push(t2, Insn::MovImm(Gpr::Rsi, vaddr), m, results);
    let t4 = t3.push(Insn::MovImm(Gpr::Rax, SYS_MUNMAP));
    lemma_run_push(t3, Insn::MovImm(Gpr::Rax, SYS_MUNMAP), m, results);
    let t5 = t4.push(Insn::Syscall);
    lemma_run_push(t4, Insn::Syscall, m, results);
    let t6 = t5.push(Insn::MovImm(Gpr::Rdi, (vaddr + CODE_WINDOW) as u64));
    lemma_run_push(t5, Insn::MovImm(Gpr::Rdi, (vaddr + CODE_WINDOW) as u64), m, results);
    let t7 = t6.push(Insn::MovImm(Gpr::Rsi, (USER_SPACE_TOP - (vaddr + CODE_WINDOW)) as u64));
    lemma_run_push(t6, Insn::MovImm(Gpr::Rsi, (USER_SPACE_TOP - (vaddr + CODE_WINDOW)) as u64), m, results);
    let t8 = t7.push(Insn::MovImm(Gpr::Rax, SYS_MUNMAP));
    lemma_run_push(t7, Insn::MovImm(Gpr::Rax, SYS_MUNMAP), m, results);
    let t9 = t8.push(Insn::Syscall);
    lemma_run_push(t8, Insn::Syscall, m, results);
    assert(prologue(vaddr) =~= t9);
    assert(run(t9, m, results).calls =~= prologue_calls(vaddr));
}

/// The lines of a region's block that open the region's file.
spec fn map_head(arg: MmapArg, data_addr: u64) -> Seq<Insn> {
    seq![
        Insn::MovImm(Gpr::Rdi, (data_addr + arg.path_ptr) as u64),
        Insn::MovImm(Gpr::Rsi, O_RDONLY),
        Insn::MovImm(Gpr::Rdx, OPEN_MODE),
        Insn::MovImm(Gpr::Rax, SYS_OPEN),
        Insn::Syscall,
    ]
}

/// The lines of a region's block that map the file.
spec fn map_body(arg: MmapArg) -> Seq<Insn> {
    seq![
        Insn::MovImm(Gpr::Rdi, arg.addr),
        Insn::MovImm(Gpr::Rsi, arg.len),
        Insn::MovImm(Gpr::Rdx, arg.prot),
        Insn::MovImm(Gpr::R10, MAP_FIXED_PRIVATE),
        Insn::MovReg(Gpr::R8, Gpr::Rax),
        Insn::MovImm(Gpr::R9, 0),
        Insn::MovImm(Gpr::Rax, SYS_MMAP),
        Insn::Syscall,
    ]
}

/// The lines of a region's block that close the file.
spec fn map_tail() -> Seq<Insn> {
    seq![
        Insn::MovReg(Gpr::Rdi, Gpr::R8),
        Insn::MovImm(Gpr::Rax, SYS_CLOSE),
        Insn::Syscall,
    ]
}

/// After the head of a region's block the file is open: `rax` holds what
/// opening it gave.
proof fn lemma_map_head(arg: MmapArg, data_addr: u64, m: Machine, results: Seq<u64>)
    requires
        running(m),
        data_addr + arg.path_ptr <= u64::MAX,
    ensures
        ({
            let after = run(map_head(arg, data_addr), m, results);
            &&& running(after)
            &&& after.rax == result_of(results, m.calls.len() as int)
            &&& after.calls == m.calls.push(
                Sys::Open {
                    path: (data_addr + arg.path_ptr) as u64,
                    flags: O_RDONLY,
                    mode: OPEN_MODE,
                },
            )
        }),
{
    let t0 = Seq::<Insn>::empty();
    let t1 = t0.push(Insn::MovImm(Gpr::Rdi, (data_addr + arg.path_ptr) as u64));
    lemma_run_push(t0, Insn::MovImm(Gpr::Rdi, (data_addr + arg.path_ptr) as u64), m, results);
    let t2 = t1.push(Insn::MovImm(Gpr::Rsi, O_RDONLY));
    lemma_run_push(t1, Insn::MovImm(Gpr::Rsi, O_RDONLY), m, results);
    let t3 = t2.push(Insn::MovImm(Gpr::Rdx, OPEN_MODE));
    lemma_run_push(t2, Insn::MovImm(Gpr::Rdx, OPEN_MODE), m, results);
    let t4 = t3.push(Insn::MovImm(Gpr::Rax, SYS_OPEN));
    lemma_run_push(t3, Insn::MovImm(Gpr::Rax, SYS_OPEN), m, results);
    let t5 = t4.push(Insn::Syscall);
    lemma_run_push(t4, Insn::Syscall, m, results);
    assert(map_head(arg, data_addr) =~= t5);
}

/// The body of a region's block maps the file on the descriptor that
/// `rax` holds, and keeps the descriptor in `r8`.
proof fn lemma_map_body(arg: MmapArg, m: Machine, results: Seq<u64>)
    requires
        running(m),
    ensures
        ({
            let after = run(map_body(arg), m, results);
            &&& running(after)
            &&& after.r8 == m.rax
            &&& after.calls == m.calls.push(
                Sys::Mmap {
                    addr: arg.addr,
                    len: arg.len,
                    prot: arg.prot,
                    flags: MAP_FIXED_PRIVATE,
                    fd: m.rax,
                    offset: 0,
                },
            )
        }),
{
    let t0 = Seq::<Insn>::empty();
    let t1 = t0.push(Insn::MovImm(Gpr::Rdi, arg.addr));
    lemma_run_push(t0, Insn::MovImm(Gpr::Rdi, arg.addr), m, results);
    let t2 = t1.push(Insn::MovImm(Gpr::Rsi, arg.len));
    lemma_run_push(t1, Insn::MovImm(Gpr::Rsi, arg.len), m, results);
    let t3 = t2.push(Insn::MovImm(Gpr::Rdx, arg.prot));
    lemma_run_push(t2, Insn::MovImm(Gpr::Rdx, arg.prot), m, results);
    let t4 = t3.push(Insn::MovImm(Gpr::R10, MAP_FIXED_PRIVATE));
    lemma_run_push(t3, Insn::MovImm(Gpr::R10, MAP_FIXED_PRIVATE), m, results);
    let t5 = t4.push(Insn::MovReg(Gpr::R8, Gpr::Rax));
    lemma_run_push(t4, Insn::MovReg(Gpr::R8, Gpr::Rax), m, results);
    let t6 = t5.push(Insn::MovImm(Gpr::R9, 0));
    lemma_run_push(t5, Insn::MovImm(Gpr::R9, 0), m, results);
    let t7 = t6.push(Insn::MovImm(Gpr::Rax, SYS_MMAP));
    lemma_run_push(t6, Insn::MovImm(Gpr::Rax, SYS_MMAP), m, results);
    let t8 = t7.push(Insn::Syscall);
    lemma_run_push(t7, Insn::Syscall, m, results);
    assert(map_body(arg) =~= t8);
}

/// The tail of a region's block closes the descriptor that `r8` holds.
proof fn lemma_map_tail(m: Machine, results: Seq<u64>)
    requires
        running(m),
    ensures
        running(run(map_tail(), m, results)),
        run(map_tail(), m, results).calls == m.calls.push(Sys::Close { fd: m.r8 }),
{
    let t0 = Seq::<Insn>::empty();
    let t1 = t0.push(Insn::MovReg(Gpr::Rdi, Gpr::R8));
    lemma_run_push(t0, Insn::MovReg(Gpr::Rdi, Gpr::R8), m, results);
    let t2 = t1.push(Insn::MovImm(Gpr::Rax, SYS_CLOSE));
    lemma_run_push(t1, Insn::MovImm(Gpr::Rax, SYS_CLOSE), m, results);
    let t3 = t2.push(Insn::Syscall);
    lemma_run_push(t2, Insn::Syscall, m, results);
    assert(map_tail() =~= t3);
}

/// The block of a region makes the calls that map the region and runs on.
proof fn lemma_map_block(arg: MmapArg, data_addr: u64, m: Machine, results: Seq<u64>)
    requires
        running(m),
        data_addr + arg.path_ptr <= u64::MAX,
    ensures
        running(run(map_block(arg, data_addr), m, results)),
        run(map_block(arg, data_addr), m, results).calls == m.calls + map_calls(
            arg,
            data_addr,
            result_of(results, m.calls.len() as int),
        ),
{
    let head = map_head(arg, data_addr);
    let body = map_body(arg);
    let tail = map_tail();
    assert(map_block(arg, data_addr) =~= head + body + tail);
    lemma_run_concat(head + body, tail, m, results);
    lemma_run_concat(head, body, m, results);
    lemma_map_head(arg, data_addr, m, results);
    let opened = run(head, m, results);
    lemma_map_body(arg, opened, results);
    let mapped = run(body, opened, results);
    lemma_map_tail(mapped, results);
    assert(run(tail, mapped, results).calls =~= m.calls + map_calls(
        arg,
        data_addr,
        result_of(results, m.calls.len() as int),
    ));
}

/// The lines of a file's block that open the file and look at the
/// descriptor that this gave.
spec fn open_head(arg: OpenArg, data_addr: u64, label: nat) -> Seq<Insn> {
    seq![
        Insn::MovImm(Gpr::Rdi, (data_addr + arg.path_ptr) as u64),
        Insn::MovImm(Gpr::Rsi, arg.mode),
        Insn::MovImm(Gpr::Rdx, OPEN_MODE),
        Insn::MovImm(Gpr::Rax, SYS_OPEN),
        Insn::Syscall,
        Insn::CompareLow(Gpr::Rax, arg.fd),
        Insn::JumpIfEqual(label),
    ]
}

/// The lines of a file's block that give the descriptor its old number.
spec fn open_fix(arg: OpenArg) -> Seq<Insn> {
    seq![
        Insn::MovReg(Gpr::Rdi, Gpr::Rax),
        Insn::MovImm(Gpr::Rsi, arg.fd as u64),
        Insn::MovImm(Gpr::Rax, SYS_DUP2),
        Insn::Syscall,
        Insn::MovImm(Gpr::Rax, SYS_CLOSE),
        Insn::Syscall,
    ]
}

/// The lines of a file's block that move the descriptor to its offset.
spec fn open_tail(arg: OpenArg, label: nat) -> Seq<Insn> {
    seq![
        Insn::Label(label),
        Insn::MovImm(Gpr::Rdi, arg.fd as u64),
        Insn::MovImm(Gpr::Rsi, arg.offset),
        Insn::MovImm(Gpr::Rdx, SEEK_SET),
        Insn::MovImm(Gpr::Rax, SYS_LSEEK),
        Insn::Syscall,
    ]
}

/// After the head of a file's block the file is open, and the machine
/// goes to the block's label exactly if the descriptor has its old number.
proof fn lemma_open_head(arg: OpenArg, data_addr: u64, label: nat, m: Machine, results: Seq<u64>)
    requires
        running(m),
        data_addr + arg.path_ptr <= u64::MAX,
    ensures
        ({
            let got = result_of(results, m.calls.len() as int);
            let after = run(open_head(arg, data_addr, label), m, results);
            &&& !after.spinning
            &&& after.rax == got
            &&& after.seeking == (if low_half(got) == immediate(arg.fd) {
                Some(label)
            } else {
                None::<nat>
            })
            &&& after.calls == m.calls.push(
                Sys::Open {
                    path: (data_addr + arg.path_ptr) as u64,
                    flags: arg.mode,
                    mode: OPEN_MODE,
                },
            )
        }),
{
    let t0 = Seq::<Insn>::empty();
    let t1 = t0.push(Insn::MovImm(Gpr::Rdi, (data_addr + arg.path_ptr) as u64));
    lemma_run_push(t0, Insn::MovImm(Gpr::Rdi, (data_addr + arg.path_ptr) as u64), m, results);
    let t2 = t1.push(Insn::MovImm(Gpr::Rsi, arg.mode));
    lemma_run_push(t1, Insn::MovImm(Gpr::Rsi, arg.mode), m, results);
    let t3 = t2.push(Insn::MovImm(Gpr::Rdx, OPEN_MODE));
    lemma_run_push(t2, Insn::MovImm(Gpr::Rdx, OPEN_MODE), m, results);
    let t4 = t3.push(Insn::MovImm(Gpr::Rax, SYS_OPEN));
    lemma_run_push(t3, Insn::MovImm(Gpr::Rax, SYS_OPEN), m, results);
    let t5 = t4.push(Insn::Syscall);
    lemma_run_push(t4, Insn::Syscall, m, results);
    let t6 = t5.push(Insn::CompareLow(Gpr::Rax, arg.fd));
    lemma_run_push(t5, Insn::CompareLow(Gpr::Rax, arg.fd), m, results);
    let t7 = t6.push(Insn::JumpIfEqual(label));
    lemma_run_push(t6, Insn::JumpIfEqual(label), m, results);
    assert(open_head(arg, data_addr, label) =~= t7);
}

/// The lines that give the descriptor its old number do so where the
/// machine runs them, and nothing where it is on its way to the label.
proof fn lemma_open_fix(arg: OpenArg, label: nat, m: Machine, results: Seq<u64>)
    requires
        !m.spinning,
        m.seeking is None || m.seeking == Some(label),
    ensures
        ({
            let after = run(open_fix(arg), m, results);
            &&& !after.spinning
            &&& after.seeking == m.seeking
            &&& after.calls == (if m.seeking is None {
                m.calls.push(Sys::Dup2 { from: m.rax, to: arg.fd as u64 }).push(
                    Sys::Close { fd: m.rax },
                )
            } else {
                m.calls
            })
        }),
{
    let t0 = Seq::<Insn>::empty();
    let t1 = t0.push(Insn::MovReg(Gpr::Rdi, Gpr::Rax));
    lemma_run_push(t0, Insn::MovReg(Gpr::Rdi, Gpr::Rax), m, results);
    let t2 = t1.push(Insn::MovImm(Gpr::Rsi, arg.fd as u64));
    lemma_run_push(t1, Insn::MovImm(Gpr::Rsi, arg.fd as u64), m, results);
    let t3 = t2.push(Insn::MovImm(Gpr::Rax, SYS_DUP2));
    lemma_run_push(t2, Insn::MovImm(Gpr::Rax, SYS_DUP2), m, results);
    let t4 = t3.push(Insn::Syscall);
    lemma_run_push(t3, Insn::Syscall, m, results);
    let t5 = t4.push(Insn::MovImm(Gpr::Rax, SYS_CLOSE));
    lemma_run_push(t4, Insn::MovImm(Gpr::Rax, SYS_CLOSE), m, results);
    let t6 = t5.push(Insn::Syscall);
    lemma_run_push(t5, Insn::Syscall, m, results);
    assert(open_fix(arg) =~= t6);
}

/// The tail of a file's block is where the machine arrives either way;
/// it moves the descriptor to its offset and runs on.
proof fn lemma_open_tail(arg: OpenArg, label: nat, m: Machine, results: Seq<u64>)
    requires
        !m.spinning,
        m.seeking is None || m.seeking == Some(label),
    ensures
        running(run(open_tail(arg, label), m, results)),
        run(open_tail(arg, label), m, results).calls == m.calls.push(
            Sys::Lseek { fd: arg.fd as u64, offset: arg.offset, whence: SEEK_SET },
        ),
{
    let t0 = Seq::<Insn>::empty();
    let t1 = t0.push(Insn::Label(label));
    lemma_run_push(t0, Insn::Label(label), m, results);
    let t2 = t1.push(Insn::MovImm(Gpr::Rdi, arg.fd as u64));
    lemma_run_push(t1, Insn::MovImm(Gpr::Rdi, arg.fd as u64), m, results);
    let t3 = t2.push(Insn::MovImm(Gpr::Rsi, arg.offset));
    lemma_run_push(t2, Insn::MovImm(Gpr::Rsi, arg.offset), m, results);
    let t4 = t3.push(Insn::MovImm(Gpr::Rdx, SEEK_SET));
    lemma_run_push(t3, Insn::MovImm(Gpr::Rdx, SEEK_SET), m, results);
    let t5 = t4.push(Insn::MovImm(Gpr::Rax, SYS_LSEEK));
    lemma_run_push(t4, Insn::MovImm(Gpr::Rax, SYS_LSEEK), m, results);
    let t6 = t5.push(Insn::Syscall);
    lemma_run_push(t5, Insn::Syscall, m, results);
    assert(open_tail(arg, label) =~= t6);
}

/// The block of a file makes the calls that reopen the file and runs on.
proof fn lemma_open_block(arg: OpenArg, data_addr: u64, label: nat, m: Machine, results: Seq<u64>)
    requires
        running(m),
        data_addr + arg.path_ptr <= u64::MAX,
    ensures
        running(run(open_block(arg, data_addr, label), m, results)),
        run(open_block(arg, data_addr, label), m, results).calls == m.calls + open_calls(
            arg,
            data_addr,
            result_of(results, m.calls.len() as int),
        ),
{
    let head = open_head(arg, data_addr, label);
    let fix = open_fix(arg);
    let tail = open_tail(arg, label);
    assert(open_block(arg, data_addr, label) =~= head + fix + tail);
    lemma_run_concat(head + fix, tail, m, results);
    lemma_run_concat(head, fix, m, results);
    let opened = run(head, m, results);
    lemma_open_head(arg, data_addr, label, m, results);
    let fixed = run(fix, opened, results);
    lemma_open_fix(arg, label, opened, results);
    lemma_open_tail(arg, label, fixed, results);
    assert(run(tail, fixed, results).calls =~= m.calls + open_calls(
        arg,
        data_addr,
        result_of(results, m.calls.len() as int),
    ));
}

/// The epilogue makes its two calls and ends in its loop.
proof fn lemma_epilogue(label: nat, m: Machine, results: Seq<u64>)
    requires
        running(m),
    ensures
        run(epilogue(label), m, results).spinning,
        run(epilogue(label), m, results).calls == m.calls + epilogue_calls(
            result_of(results, m.calls.len() as int),
        ),
{
    let t0 = Seq::<Insn>::empty();
    let t1 = t0.push(Insn::MovImm(Gpr::Rax, SYS_GETPID));
    lemma_run_push(t0, Insn::MovImm(Gpr::Rax, SYS_GETPID), m, results);
    let t2 = t1.push(Insn::Syscall);
    lemma_run_push(t1, Insn::Syscall, m, results);
    let t3 = t2.push(Insn::MovReg(Gpr::Rdi, Gpr::Rax));
    lemma_run_push(t2, Insn::MovReg(Gpr::Rdi, Gpr::Rax), m, results);
    let t4 = t3.push(Insn::MovImm(Gpr::Rsi, SIGSTOP));
    lemma_run_push(t3, Insn::MovImm(Gpr::Rsi, SIGSTOP), m, results);
    let t5 = t4.push(Insn::MovImm(Gpr::Rax, SYS_KILL));
    lemma_run_push(t4, Insn::MovImm(Gpr::Rax, SYS_KILL), m, results);
    let t6 = t5.push(Insn::Syscall);
    lemma_run_push(t5, Insn::Syscall, m, results);
    let t7 = t6.push(Insn::Label(label));
    lemma_run_push(t6, Insn::Label(label), m, results);
    let t8 = t7.push(Insn::Jump(label));
    lemma_run_push(t7, Insn::Jump(label), m, results);
    assert(epilogue(label) =~= t8);
    assert(run(t8, m, results).calls =~= m.calls + epilogue_calls(
        result_of(results, m.calls.len() as int),
    ));
}

/// The blocks of the first `n` regions make the calls that map them.
proof fn lemma_map_blocks(args: Seq<MmapArg>, data_addr: u64, m: Machine, results: Seq<u64>, n: nat)
    requires
        running(m),
        n <= args.len(),
        forall|k: int| 0 <= k < args.len() ==> data_addr + (#[trigger] args[k]).path_ptr <= u64::MAX,
    ensures
        running(run(map_blocks(args, data_addr, n), m, results)),
        run(map_blocks(args, data_addr, n), m, results).calls == maps_calls(
            args,
            data_addr,
            results,
            m.calls,
            n,
        ),
    decreases n,
{
    if n > 0 {
        let earlier = map_blocks(args, data_addr, (n - 1) as nat);
        lemma_map_blocks(args, data_addr, m, results, (n - 1) as nat);
        lemma_run_concat(earlier, map_block(args[n - 1], data_addr), m, results);
        lemma_map_block(args[n - 1], data_addr, run(earlier, m, results), results);
    }
}

/// The blocks of the first `n` files make the calls that reopen them.
proof fn lemma_open_blocks(args: Seq<OpenArg>, data_addr: u64, m: Machine, results: Seq<u64>, n: nat)
    requires
        running(m),
        n <= args.len(),
        forall|k: int| 0 <= k < args.len() ==> data_addr + (#[trigger] args[k]).path_ptr <= u64::MAX,
    ensures
        running(run(open_blocks(args, data_addr, n), m, results)),
        run(open_blocks(args, data_addr, n), m, results).calls == opens_calls(
            args,
            data_addr,
            results,
            m.calls,
            n,
        ),
    decreases n,
{
    if n > 0 {
        let earlier = open_blocks(args, data_addr, (n - 1) as nat);
        lemma_open_blocks(args, data_addr, m, results, (n - 1) as nat);
        lemma_run_concat(earlier, open_block(args[n - 1], data_addr, n), m, results);
        lemma_open_block(args[n - 1], data_addr, n, run(earlier, m, results), results);
    }
}

/// Whatever the kernel answers, a bootstrapper makes exactly the system
/// calls of `restore_calls`, in their order, and then stays in its loop:
/// it unmaps what the process inherited but for its own window, maps
/// every region of the layout from its checkpoint file, reopens every
/// file of the layout under its old number and at its old offset, and
/// stops itself.
pub proof fn lemma_bootstrapper_calls(
    layout: LayoutModel,
    vaddr: u64,
    data_addr: u64,
    results: Seq<u64>,
    m: Machine,
)
    requires
        fresh(m),
        layout.bounded(),
        placeable(vaddr, data_addr),
    ensures
        run(program_text(layout, vaddr, data_addr), m, results).spinning,
        run(program_text(layout, vaddr, data_addr), m, results).calls == restore_calls(
            layout,
            vaddr,
            data_addr,
            results,
        ),
{
    let head = prologue(vaddr);
    let maps = map_blocks(layout.mmaps, data_addr, layout.mmaps.len());
    let opens = open_blocks(layout.opens, data_addr, layout.opens.len());
    let tail = epilogue(layout.opens.len() + 1);
    lemma_run_concat(head + maps + opens, tail, m, results);
    lemma_run_concat(head + maps, opens, m, results);
    lemma_run_concat(head, maps, m, results);
    lemma_prologue(vaddr, m, results);
    let unmapped = run(head, m, results);
    lemma_map_blocks(layout.mmaps, data_addr, unmapped, results, layout.mmaps.len());
    let mapped = run(maps, unmapped, results);
    lemma_open_blocks(layout.opens, data_addr, mapped, results, layout.opens.len());
    let opened = run(opens, mapped, results);
    lemma_epilogue(layout.opens.len() + 1, opened, results);
}

/// The calls that map regions come after those that were made before.
proof fn lemma_maps_calls_keep(
    args: Seq<MmapArg>,
    data_addr: u64,
    results: Seq<u64>,
    before: Seq<Sys>,
    n: nat,
)
    ensures
        before.len() <= maps_calls(args, data_addr, results, before, n).len(),
        forall|k: int|
            0 <= k < before.len() ==> #[trigger] maps_calls(args, data_addr, results, before, n)[k]
                == before[k],
        forall|k: int|
            before.len() <= k < maps_calls(args, data_addr, results, before, n).len() ==> !(
            #[trigger] maps_calls(args, data_addr, results, before, n)[k] is Munmap),
    decreases n,
{
    if n > 0 {
        lemma_maps_calls_keep(args, data_addr, results, before, (n - 1) as nat);
    }
}

/// The calls that reopen files come after those that were made before.
proof fn lemma_opens_calls_keep(
    args: Seq<OpenArg>,
    data_addr: u64,
    results: Seq<u64>,
    before: Seq<Sys>,
    n: nat,
)
    ensures
        before.len() <= opens_calls(args, data_addr, results, before, n).len(),
        forall|k: int|
            0 <= k < before.len() ==> #[trigger] opens_calls(args, data_addr, results, before, n)[k]
                == before[k],
        forall|k: int|
            before.len() <= k < opens_calls(args, data_addr, results, before, n).len() ==> !(
            #[trigger] opens_calls(args, data_addr, results, before, n)[k] is Munmap),
    decreases n,
{
    if n > 0 {
        lemma_opens_calls_keep(args, data_addr, results, before, (n - 1) as nat);
    }
}

/// A bootstrapper first unmaps everything below its window, then
/// everything from the end of its window to the end of user space, and
/// unmaps nothing after that: its window stays mapped.
pub proof fn lemma_only_the_window_stays(
    layout: LayoutModel,
    vaddr: u64,
    data_addr: u64,
    results: Seq<u64>,
)
    requires
        placeable(vaddr, data_addr),
    ensures
        restore_calls(layout, vaddr, data_addr, results).len() >= 4,
        restore_calls(layout, vaddr, data_addr, results)[0] == (Sys::Munmap { addr: 0, len: vaddr }),
        restore_calls(layout, vaddr, data_addr, results)[1] == (Sys::Munmap {
            addr: (vaddr + CODE_WINDOW) as u64,
            len: (USER_SPACE_TOP - (vaddr + CODE_WINDOW)) as u64,
        }),
        vaddr + CODE_WINDOW + (USER_SPACE_TOP - (vaddr + CODE_WINDOW)) == USER_SPACE_TOP,
        forall|k: int|
            2 <= k < restore_calls(layout, vaddr, data_addr, results).len() ==> !(
            #[trigger] restore_calls(layout, vaddr, data_addr, results)[k] is Munmap),
{
    let first = prologue_calls(vaddr);
    let mapped = maps_calls(layout.mmaps, data_addr, results, first, layout.mmaps.len());
    let opened = opens_calls(layout.opens, data_addr, results, mapped, layout.opens.len());
    lemma_maps_calls_keep(layout.mmaps, data_addr, results, first, layout.mmaps.len());
    lemma_opens_calls_keep(layout.opens, data_addr, results, mapped, layout.opens.len());
    let all = restore_calls(layout, vaddr, data_addr, results);
    assert forall|k: int| 2 <= k < all.len() implies !(#[trigger] all[k] is Munmap) by {
        if k < mapped.len() {
            assert(opened[k] == mapped[k]);
        } else if k < opened.len() {
        }
    }
    assert(all[0] == opened[0] && opened[0] == mapped[0] && mapped[0] == first[0]);
    assert(all[1] == opened[1] && opened[1] == mapped[1] && mapped[1] == first[1]);
}

} // verus!