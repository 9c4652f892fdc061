//! The program text of the restore bootstrapper: raw system calls that
//! unmap what the new process inherited, map every checkpointed region
//! back to its address, reopen the target's files, and stop the process.

use vstd::prelude::*;
use iced_x86::code_asm::{AsmRegister64, CodeAssembler};
use crate::assembler::{
    add_compare, add_jump, add_jump_if_equal, add_mov_imm, add_mov_reg, add_syscall, add_xor,
    assemble_at, assembled, assembler_labels, assembler_new, assembler_plain, assembler_text,
    label_waits, new_label, operand_eax, operand_r10, operand_r8, operand_r9, operand_rax, operand_rdi,
    operand_rdx, operand_rsi, place_label, register64, Gpr, Insn,
};
use crate::error::Error;
use crate::layout::{Layout, LayoutModel, MmapArg, OpenArg, MAX_DATA};

verus! {

/// The size of the window that the bootstrapper keeps mapped for itself: one page.
pub const CODE_WINDOW: u64 = 0x1000;

/// The end of user space on 64-bit x86 Linux with four-level page
/// tables: every address of a process is below it.
pub const USER_SPACE_TOP: u64 = 0x7fff_ffff_f000;

/// System call numbers of 64-bit x86 Linux.
pub const SYS_OPEN: u64 = 2;

pub const SYS_CLOSE: u64 = 3;

pub const SYS_LSEEK: u64 = 8;

pub const SYS_MMAP: u64 = 9;

pub const SYS_MUNMAP: u64 = 11;

pub const SYS_DUP2: u64 = 33;

pub const SYS_GETPID: u64 = 39;

pub const SYS_KILL: u64 = 62;

/// `open` flag: read only.
pub const O_RDONLY: u64 = 0;

/// The permission bits handed to `open`.
pub const OPEN_MODE: u64 = 0o666;

/// `mmap` flags: a private mapping at exactly the given address.
pub const MAP_FIXED_PRIVATE: u64 = 0x12;

/// `lseek` origin: the start of the file.
pub const SEEK_SET: u64 = 0;

/// The signal that stops a process.
pub const SIGSTOP: u64 = 19;

/// Whether `vaddr` can be where the bootstrapper's window starts: it is a
/// page boundary, and the page lies in user space.
pub open spec fn window_fits(vaddr: u64) -> bool {
    vaddr % CODE_WINDOW == 0 && vaddr + CODE_WINDOW <= USER_SPACE_TOP
}

/// Whether `vaddr` can be where the bootstrapper's window starts.
pub fn is_window(vaddr: u64) -> (fits: bool)
    ensures
        fits == window_fits(vaddr),
{
    vaddr % CODE_WINDOW == 0 && vaddr <= USER_SPACE_TOP - CODE_WINDOW
}

/// Unmaps everything below the window, and everything above it up to the
/// end of user space.
pub open spec fn prologue(vaddr: u64) -> Seq<Insn> {
    seq![
        Insn::Bits(64),
        Insn::Xor(Gpr::Rdi, Gpr::Rdi),
        Insn::MovImm(Gpr::Rsi, vaddr),
        Insn::MovImm(Gpr::Rax, SYS_MUNMAP),
        Insn::Syscall,
        Insn::MovImm(Gpr::Rdi, (vaddr + CODE_WINDOW) as u64),
        Insn::MovImm(Gpr::Rsi, (USER_SPACE_TOP - (vaddr + CODE_WINDOW)) as u64),
        Insn::MovImm(Gpr::Rax, SYS_MUNMAP),
        Insn::Syscall,
    ]
}

/// Opens a region's checkpoint file read-only, maps it at the region's
/// address with the region's protection bits and offset zero, and closes
/// the descriptor that the file was opened on.
pub open spec fn map_block(arg: MmapArg, data_addr: u64) -> Seq<Insn> {
    seq![
        Insn::MovImm(Gpr::Rdi, (data_addr + arg.path_ptr) as u64),
        Insn::MovImm(Gpr::Rsi, O_RDONLY),
        Insn::MovImm(Gpr::Rdx, OPEN_MODE),
        Insn::MovImm(Gpr::Rax, SYS_OPEN),
        Insn::Syscall,
        Insn::MovImm(Gpr::Rdi, arg.addr),
        Insn::MovImm(Gpr::Rsi, arg.len),
        Insn::MovImm(Gpr::Rdx, arg.prot),
        Insn::MovImm(Gpr::R10, MAP_FIXED_PRIVATE),
        Insn::MovReg(Gpr::R8, Gpr::Rax),
        Insn::MovImm(Gpr::R9, 0),
        Insn::MovImm(Gpr::Rax, SYS_MMAP),
        Insn::Syscall,
        Insn::MovReg(Gpr::Rdi, Gpr::R8),
        Insn::MovImm(Gpr::Rax, SYS_CLOSE),
        Insn::Syscall,
    ]
}

/// Opens a file of the target with its access mode; unless that gave the
/// descriptor its old number, duplicates it to that number and closes the
/// one it was opened on; then seeks to the recorded offset.
pub open spec fn open_block(arg: OpenArg, data_addr: u64, label: nat) -> Seq<Insn> {
    seq![
        Insn::MovImm(Gpr::Rdi, (data_addr + arg.path_ptr) as u64),
        Insn::MovImm(Gpr::Rsi, arg.mode),
        Insn::MovImm(Gpr::Rdx, OPEN_MODE),
        Insn::MovImm(Gpr::Rax, SYS_OPEN),
        Insn::Syscall,
        Insn::CompareLow(Gpr::Rax, arg.fd),
        Insn::JumpIfEqual(label),
        Insn::MovReg(Gpr::Rdi, Gpr::Rax),
        Insn::MovImm(Gpr::Rsi, arg.fd as u64),
        Insn::MovImm(Gpr::Rax, SYS_DUP2),
        Insn::Syscall,
        Insn::MovImm(Gpr::Rax, SYS_CLOSE),
        Insn::Syscall,
        Insn::Label(label),
        Insn::MovImm(Gpr::Rdi, arg.fd as u64),
        Insn::MovImm(Gpr::Rsi, arg.offset),
        Insn::MovImm(Gpr::Rdx, SEEK_SET),
        Insn::MovImm(Gpr::Rax, SYS_LSEEK),
        Insn::Syscall,
    ]
}

/// Sends the process its own stop signal, and spins should it run on.
pub open spec fn epilogue(label: nat) -> Seq<Insn> {
    seq![
        Insn::MovImm(Gpr::Rax, SYS_GETPID),
        Insn::Syscall,
        Insn::MovReg(Gpr::Rdi, Gpr::Rax),
        Insn::MovImm(Gpr::Rsi, SIGSTOP),
        Insn::MovImm(Gpr::Rax, SYS_KILL),
        Insn::Syscall,
        Insn::Label(label),
        Insn::Jump(label),
    ]
}

/// The blocks that map the first `n` regions, in order.
pub open spec fn map_blocks(args: Seq<MmapArg>, data_addr: u64, n: nat) -> Seq<Insn>
    decreases n,
{
    if n == 0 {
        Seq::empty()
    } else {
        map_blocks(args, data_addr, (n - 1) as nat) + map_block(args[n - 1], data_addr)
    }
}

/// The blocks that reopen the first `n` files, in order. The block of file
/// `k`, counted from zero, owns label `k + 1`.
pub open spec fn open_blocks(args: Seq<OpenArg>, data_addr: u64, n: nat) -> Seq<Insn>
    decreases n,
{
    if n == 0 {
        Seq::empty()
    } else {
        open_blocks(args, data_addr, (n - 1) as nat) + open_block(args[n - 1], data_addr, n)
    }
}

/// The whole program text of the bootstrapper that is loaded at `vaddr`
/// with its data blob at `data_addr`.
pub open spec fn program_text(layout: LayoutModel, vaddr: u64, data_addr: u64) -> Seq<Insn> {
    prologue(vaddr) + map_blocks(layout.mmaps, data_addr, layout.mmaps.len()) + open_blocks(
        layout.opens,
        data_addr,
        layout.opens.len(),
    ) + epilogue(layout.opens.len() + 1)
}

/// The operand that names a register.
fn operand(reg: Gpr) -> (r: AsmRegister64)
    ensures
        register64(r) == Some(reg),
{
    match reg {
        Gpr::Rax => operand_rax(),
        Gpr::Rdi => operand_rdi(),
        Gpr::Rsi => operand_rsi(),
        Gpr::Rdx => operand_rdx(),
        Gpr::R8 => operand_r8(),
        Gpr::R9 => operand_r9(),
        Gpr::R10 => operand_r10(),
    }
}

/// Adds `mov dst, imm` to the text.
fn mov_imm(a: &mut CodeAssembler, dst: Gpr, imm: u64)
    requires
        assembler_plain(*old(a)),
    ensures
        assembler_text(*final(a)) == assembler_text(*old(a)).push(Insn::MovImm(dst, imm)),
        assembler_labels(*final(a)) == assembler_labels(*old(a)),
        assembler_plain(*final(a)),
{
    let _ = add_mov_imm(a, operand(dst), imm);
}

/// Adds `mov dst, src` to the text.
fn mov_reg(a: &mut CodeAssembler, dst: Gpr, src: Gpr)
    requires
        assembler_plain(*old(a)),
    ensures
        assembler_text(*final(a)) == assembler_text(*old(a)).push(Insn::MovReg(dst, src)),
        assembler_labels(*final(a)) == assembler_labels(*old(a)),
        assembler_plain(*final(a)),
{
    let _ = add_mov_reg(a, operand(dst), operand(src));
}

/// Adds a system call with the given number to the text.
fn call(a: &mut CodeAssembler, number: u64)
    requires
        assembler_plain(*old(a)),
    ensures
        assembler_text(*final(a)) == assembler_text(*old(a)).push(
            Insn::MovImm(Gpr::Rax, number),
        ).push(Insn::Syscall),
        assembler_labels(*final(a)) == assembler_labels(*old(a)),
        assembler_plain(*final(a)),
{
    mov_imm(a, Gpr::Rax, number);
    let _ = add_syscall(a);
}

/// Adds the prologue to a fresh assembler.
fn add_prologue(a: &mut CodeAssembler, vaddr: u64)
    requires
        window_fits(vaddr),
        assembler_plain(*old(a)),
        assembler_text(*old(a)) == seq![Insn::Bits(64)],
    ensures
        assembler_text(*final(a)) == prologue(vaddr),
        assembler_labels(*final(a)) == assembler_labels(*old(a)),
        assembler_plain(*final(a)),
{
    let rdi = operand(Gpr::Rdi);
    let _ = add_xor(a, rdi, rdi);
    mov_imm(a, Gpr::Rsi, vaddr);
    call(a, SYS_MUNMAP);
    mov_imm(a, Gpr::Rdi, vaddr + CODE_WINDOW);
    mov_imm(a, Gpr::Rsi, USER_SPACE_TOP - (vaddr + CODE_WINDOW));
    call(a, SYS_MUNMAP);
    assert(assembler_text(*a) =~= prologue(vaddr));
}

/// Adds the block that maps one region.
fn add_map_block(a: &mut CodeAssembler, arg: MmapArg, data_addr: u64)
    requires
        data_addr + arg.path_ptr <= u64::MAX,
        assembler_plain(*old(a)),
    ensures
        assembler_text(*final(a)) == assembler_text(*old(a)) + map_block(arg, data_addr),
        assembler_labels(*final(a)) == assembler_labels(*old(a)),
        assembler_plain(*final(a)),
{
    mov_imm(a, Gpr::Rdi, data_addr + arg.path_ptr);
    mov_imm(a, Gpr::Rsi, O_RDONLY);
    mov_imm(a, Gpr::Rdx, OPEN_MODE);
    call(a, SYS_OPEN);
    mov_imm(a, Gpr::Rdi, arg.addr);
    mov_imm(a, Gpr::Rsi, arg.len);
    mov_imm(a, Gpr::Rdx, arg.prot);
    mov_imm(a, Gpr::R10, MAP_FIXED_PRIVATE);
    mov_reg(a, Gpr::R8, Gpr::Rax);
    mov_imm(a, Gpr::R9, 0);
    call(a, SYS_MMAP);
    mov_reg(a, Gpr::Rdi, Gpr::R8);
    call(a, SYS_CLOSE);
    assert(assembler_text(*a) =~= assembler_text(*old(a)) + map_block(arg, data_addr));
}

/// Adds the block that reopens one file. The block takes the next label.
fn add_open_block(a: &mut CodeAssembler, arg: OpenArg, data_addr: u64)
    requires
        data_addr + arg.path_ptr <= u64::MAX,
        arg.fd >= 0,
        assembler_labels(*old(a)) < u64::MAX,
        assembler_plain(*old(a)),
    ensures
        assembler_text(*final(a)) == assembler_text(*old(a)) + open_block(
            arg,
            data_addr,
            assembler_labels(*old(a)) + 1,
        ),
        assembler_labels(*final(a)) == assembler_labels(*old(a)) + 1,
        assembler_plain(*final(a)),
{
    mov_imm(a, Gpr::Rdi, data_addr + arg.path_ptr);
    mov_imm(a, Gpr::Rsi, arg.mode);
    mov_imm(a, Gpr::Rdx, OPEN_MODE);
    call(a, SYS_OPEN);
    let mut opened = new_label(a);
    let _ = add_compare(a, operand_eax(), arg.fd);
    let _ = add_jump_if_equal(a, opened);
    mov_reg(a, Gpr::Rdi, Gpr::Rax);
    mov_imm(a, Gpr::Rsi, arg.fd as u64);
    call(a, SYS_DUP2);
    call(a, SYS_CLOSE);
    assert(!label_waits(assembler_text(*a)));
    let _ = place_label(a, &mut opened);
    mov_imm(a, Gpr::Rdi, arg.fd as u64);
    mov_imm(a, Gpr::Rsi, arg.offset);
    mov_imm(a, Gpr::Rdx, SEEK_SET);
    call(a, SYS_LSEEK);
    assert(assembler_text(*a) =~= assembler_text(*old(a)) + open_block(
        arg,
        data_addr,
        assembler_labels(*old(a)) + 1,
    ));
}

/// Adds the epilogue. Its loop takes the next label.
fn add_epilogue(a: &mut CodeAssembler)
    requires
        assembler_labels(*old(a)) < u64::MAX,
        assembler_plain(*old(a)),
    ensures
        assembler_text(*final(a)) == assembler_text(*old(a)) + epilogue(
            assembler_labels(*old(a)) + 1,
        ),
        assembler_plain(*final(a)),
{
    call(a, SYS_GETPID);
    mov_reg(a, Gpr::Rdi, Gpr::Rax);
    mov_imm(a, Gpr::Rsi, SIGSTOP);
    call(a, SYS_KILL);
    let mut spin = new_label(a);
    assert(!label_waits(assembler_text(*a)));
    let _ = place_label(a, &mut spin);
    let _ = add_jump(a, spin);
    assert(assembler_text(*a) =~= assembler_text(*old(a)) + epilogue(assembler_labels(*old(a)) + 1));
}

/// Whether a bootstrapper can be placed at `vaddr` with its data at
/// `data_addr`: the window is a page and the blob lies in the address space.
pub open spec fn placeable(vaddr: u64, data_addr: u64) -> bool {
    window_fits(vaddr) && data_addr + MAX_DATA <= u64::MAX
}

/// Assembles the program text of a bootstrapper. The code is placed right
/// behind the data blob.
///
/// The result is what the assembler makes of exactly the text that
/// `program_text` gives: its machine code, or a failure where the
/// assembler refuses the text.
pub(crate) fn assemble_program(layout: &Layout, vaddr: u64, data_addr: u64) -> (r: Result<
    Vec<u8>,
    Error,
>)
    requires
        layout@.bounded(),
        placeable(vaddr, data_addr),
    ensures
        match assembled(
            program_text(layout@, vaddr, data_addr),
            (data_addr + layout@.data.len()) as u64,
        ) {
            Some(code) => r matches Ok(c) && c@ == code,
            None => r matches Err(Error::Assemble),
        },
{
    let mut a = match assembler_new(64) {
        Ok(a) => a,
        Err(_) => {
            return Err(Error::Assemble);
        },
    };
    add_prologue(&mut a, vaddr);
    let mut i: usize = 0;
    while i < layout.mmaps.len()
        invariant
            i <= layout.mmaps.len(),
            layout@.bounded(),
            placeable(vaddr, data_addr),
            assembler_plain(a),
            assembler_labels(a) == 0,
            assembler_text(a) == prologue(vaddr) + map_blocks(layout@.mmaps, data_addr, i as nat),
        decreases layout.mmaps.len() - i,
    {
        let arg = layout.mmaps[i];
        assert(arg == layout@.mmaps[i as int]);
        add_map_block(&mut a, arg, data_addr);
        assert(assembler_text(a) =~= prologue(vaddr) + map_blocks(
            layout@.mmaps,
            data_addr,
            (i + 1) as nat,
        ));
        i += 1;
    }
    let ghost mapped = assembler_text(a);
    let mut j: usize = 0;
    while j < layout.opens.len()
        invariant
            j <= layout.opens.len(),
            layout@.bounded(),
            placeable(vaddr, data_addr),
            assembler_plain(a),
            assembler_labels(a) == j,
            assembler_text(a) == mapped + open_blocks(layout@.opens, data_addr, j as nat),
        decreases layout.opens.len() - j,
    {
        let arg = layout.opens[j];
        assert(arg == layout@.opens[j as int]);
        add_open_block(&mut a, arg, data_addr);
        assert(assembler_text(a) =~= mapped + open_blocks(layout@.opens, data_addr, (j + 1) as nat));
        j += 1;
    }
    add_epilogue(&mut a);
    let entry: u64 = data_addr + layout.data.len() as u64;
    match assemble_at(&mut a, entry) {
        Ok(code) => Ok(code),
        Err(_) => Err(Error::Assemble),
    }
}

} // verus!
