//! The assembler that turns the bootstrapper's program text into machine
//! code, and the model of the text that it has been handed so far.
//!
//! The assembler itself is `iced_x86`'s `CodeAssembler`. Nothing here is
//! proved of it: each function below states what the assembler's source
//! shows of one of its methods, and the rest of the library is verified
//! against these statements.

use vstd::prelude::*;
use iced_x86::code_asm::{AsmRegister32, AsmRegister64, CodeAssembler, CodeLabel};
use iced_x86::IcedError;

verus! {

/// A general-purpose register that the bootstrapper's program names.
#[derive(Debug, Clone, Copy, PartialEq, Eq, Structural)]
pub enum Gpr {
    Rax,
    Rdi,
    Rsi,
    Rdx,
    R8,
    R9,
    R10,
}

/// One line of program text, as the assembler is handed it.
pub enum Insn {
    /// The width of the code that follows, in bits.
    Bits(u32),
    /// `mov r64, imm64`.
    MovImm(Gpr, u64),
    /// `mov r64, r64`: destination, then source.
    MovReg(Gpr, Gpr),
    /// `xor r64, r64`: destination, then source.
    Xor(Gpr, Gpr),
    /// `syscall`.
    Syscall,
    /// `cmp r32, imm32` on the low half of the register.
    CompareLow(Gpr, i32),
    /// `je` to the label with this number.
    JumpIfEqual(nat),
    /// `jmp` to the label with this number.
    Jump(nat),
    /// Binds the label with this number to the instruction that follows.
    Label(nat),
}

#[verifier::external_type_specification]
#[verifier::external_body]
pub struct ExCodeAssembler(CodeAssembler);

#[verifier::external_type_specification]
#[verifier::external_body]
pub struct ExCodeLabel(CodeLabel);

#[verifier::external_type_specification]
#[verifier::external_body]
pub struct ExIcedError(IcedError);

#[verifier::external_type_specification]
#[verifier::external_body]
pub struct ExAsmRegister64(AsmRegister64);

#[verifier::external_type_specification]
#[verifier::external_body]
pub struct ExAsmRegister32(AsmRegister32);

/// The program text that an assembler holds: what it was made for and
/// every line added since, in order. A label that waits for its
/// instruction is the last line.
pub uninterp spec fn assembler_text(a: CodeAssembler) -> Seq<Insn>;

/// How many labels an assembler has handed out.
pub uninterp spec fn assembler_labels(a: CodeAssembler) -> nat;

/// Whether an assembler is as `CodeAssembler::new` made it but for its
/// text and its labels: no prefix waits for the next instruction, there is
/// no anonymous label, and the options are those it was made with.
pub uninterp spec fn assembler_plain(a: CodeAssembler) -> bool;

/// The number of a label: the first label of an assembler has number 1,
/// and no label that an assembler hands out has number 0.
pub uninterp spec fn label_number(l: CodeLabel) -> nat;

/// Whether a label has been bound to an instruction.
pub uninterp spec fn label_placed(l: CodeLabel) -> bool;

/// The register that a 64-bit register operand names, where the operand
/// is one of the constants of `iced_x86::code_asm` that this module hands
/// out; `None` for every other operand.
pub uninterp spec fn register64(r: AsmRegister64) -> Option<Gpr>;

/// The register whose low half a 32-bit register operand names, where the
/// operand is the constant of `iced_x86::code_asm` that this module hands
/// out; `None` for every other operand.
pub uninterp spec fn register32(r: AsmRegister32) -> Option<Gpr>;

/// What assembling a program text at address `ip` gives: its machine
/// code, or `None` where the assembler refuses the text.
pub uninterp spec fn assembled(text: Seq<Insn>, ip: u64) -> Option<Seq<u8>>;

/// Whether the last line of a text is a label, which then waits for its
/// instruction.
pub open spec fn label_waits(text: Seq<Insn>) -> bool {
    text.len() > 0 && text.last() is Label
}

/// `CodeAssembler::new`: a fresh assembler for code of the given width,
/// which has to be 16, 32 or 64. It holds no instruction, has handed out
/// no label and is plain.
#[verifier::external_body]
pub(crate) fn assembler_new(bitness: u32) -> (r: Result<CodeAssembler, IcedError>)
    ensures
        r is Ok <==> bitness == 16 || bitness == 32 || bitness == 64,
        r matches Ok(a) ==> assembler_text(a) == seq![Insn::Bits(bitness)] && assembler_labels(a)
            == 0 && assembler_plain(a),
{
    CodeAssembler::new(bitness)
}

/// The constant `rax` of `iced_x86::code_asm`.
#[verifier::external_body]
pub(crate) fn operand_rax() -> (r: AsmRegister64)
    ensures
        register64(r) == Some(Gpr::Rax),
{
    iced_x86::code_asm::rax
}

/// The constant `rdi` of `iced_x86::code_asm`.
#[verifier::external_body]
pub(crate) fn operand_rdi() -> (r: AsmRegister64)
    ensures
        register64(r) == Some(Gpr::Rdi),
{
    iced_x86::code_asm::rdi
}

/// The constant `rsi` of `iced_x86::code_asm`.
#[verifier::external_body]
pub(crate) fn operand_rsi() -> (r: AsmRegister64)
    ensures
        register64(r) == Some(Gpr::Rsi),
{
    iced_x86::code_asm::rsi
}

/// The constant `rdx` of `iced_x86::code_asm`.
#[verifier::external_body]
pub(crate) fn operand_rdx() -> (r: AsmRegister64)
    ensures
        register64(r) == Some(Gpr::Rdx),
{
    iced_x86::code_asm::rdx
}

/// The constant `r8` of `iced_x86::code_asm`.
#[verifier::external_body]
pub(crate) fn operand_r8() -> (r: AsmRegister64)
    ensures
        register64(r) == Some(Gpr::R8),
{
    iced_x86::code_asm::r8
}

/// The constant `r9` of `iced_x86::code_asm`.
#[verifier::external_body]
pub(crate) fn operand_r9() -> (r: AsmRegister64)
    ensures
        register64(r) == Some(Gpr::R9),
{
    iced_x86::code_asm::r9
}

/// The constant `r10` of `iced_x86::code_asm`.
#[verifier::external_body]
pub(crate) fn operand_r10() -> (r: AsmRegister64)
    ensures
        register64(r) == Some(Gpr::R10),
{
    iced_x86::code_asm::r10
}

/// The constant `eax` of `iced_x86::code_asm`: the low half of `rax`.
#[verifier::external_body]
pub(crate) fn operand_eax() -> (r: AsmRegister32)
    ensures
        register32(r) == Some(Gpr::Rax),
{
    iced_x86::code_asm::eax
}

/// `CodeAssembler::mov` with a 64-bit register and a 64-bit immediate, on
/// a plain assembler and with an operand that this module hands out: the
/// call succeeds and has added one `mov r64, imm64` to the text. An
/// instruction is refused only where an anonymous label waits, and a plain
/// assembler has none.
#[verifier::external_body]
pub(crate) fn add_mov_imm(a: &mut CodeAssembler, dst: AsmRegister64, imm: u64) -> (r: Result<
    (),
    IcedError,
>)
    requires
        assembler_plain(*old(a)),
        register64(dst) is Some,
    ensures
        r is Ok,
        assembler_text(*final(a)) == assembler_text(*old(a)).push(
            Insn::MovImm(register64(dst).unwrap(), imm),
        ),
        assembler_labels(*final(a)) == assembler_labels(*old(a)),
        assembler_plain(*final(a)),
{
    a.mov(dst, imm)
}

/// `CodeAssembler::mov` with two 64-bit registers, on a plain assembler
/// and with operands that this module hands out: the call succeeds and
/// has added one `mov r64, r64` to the text.
#[verifier::external_body]
pub(crate) fn add_mov_reg(a: &mut CodeAssembler, dst: AsmRegister64, src: AsmRegister64) -> (r:
    Result<(), IcedError>)
    requires
        assembler_plain(*old(a)),
        register64(dst) is Some,
        register64(src) is Some,
    ensures
        r is Ok,
        assembler_text(*final(a)) == assembler_text(*old(a)).push(
            Insn::MovReg(register64(dst).unwrap(), register64(src).unwrap()),
        ),
        assembler_labels(*final(a)) == assembler_labels(*old(a)),
        assembler_plain(*final(a)),
{
    a.mov(dst, src)
}

/// `CodeAssembler::xor` with two 64-bit registers, on a plain assembler
/// and with operands that this module hands out: the call succeeds and
/// has added one `xor r64, r64` to the text.
#[verifier::external_body]
pub(crate) fn add_xor(a: &mut CodeAssembler, dst: AsmRegister64, src: AsmRegister64) -> (r: Result<
    (),
    IcedError,
>)
    requires
        assembler_plain(*old(a)),
        register64(dst) is Some,
        register64(src) is Some,
    ensures
        r is Ok,
        assembler_text(*final(a)) == assembler_text(*old(a)).push(
            Insn::Xor(register64(dst).unwrap(), register64(src).unwrap()),
        ),
        assembler_labels(*final(a)) == assembler_labels(*old(a)),
        assembler_plain(*final(a)),
{
    a.xor(dst, src)
}

/// `CodeAssembler::syscall` on a plain assembler: the call succeeds and
/// has added one `syscall` to the text.
#[verifier::external_body]
pub(crate) fn add_syscall(a: &mut CodeAssembler) -> (r: Result<(), IcedError>)
    requires
        assembler_plain(*old(a)),
    ensures
        r is Ok,
        assembler_text(*final(a)) == assembler_text(*old(a)).push(Insn::Syscall),
        assembler_labels(*final(a)) == assembler_labels(*old(a)),
        assembler_plain(*final(a)),
{
    a.syscall()
}

/// `CodeAssembler::cmp` with a 32-bit register and a 32-bit immediate, on
/// a plain assembler and with the operand that this module hands out: the
/// call succeeds and has added one `cmp r32, imm32` to the text.
#[verifier::external_body]
pub(crate) fn add_compare(a: &mut CodeAssembler, left: AsmRegister32, right: i32) -> (r: Result<
    (),
    IcedError,
>)
    requires
        assembler_plain(*old(a)),
        register32(left) is Some,
    ensures
        r is Ok,
        assembler_text(*final(a)) == assembler_text(*old(a)).push(
            Insn::CompareLow(register32(left).unwrap(), right),
        ),
        assembler_labels(*final(a)) == assembler_labels(*old(a)),
        assembler_plain(*final(a)),
{
    a.cmp(left, right)
}

/// `CodeAssembler::je` with a label, on a plain assembler: the call
/// succeeds and has added one `je` to that label to the text.
#[verifier::external_body]
pub(crate) fn add_jump_if_equal(a: &mut CodeAssembler, target: CodeLabel) -> (r: Result<
    (),
    IcedError,
>)
    requires
        assembler_plain(*old(a)),
    ensures
        r is Ok,
        assembler_text(*final(a)) == assembler_text(*old(a)).push(
            Insn::JumpIfEqual(label_number(target)),
        ),
        assembler_labels(*final(a)) == assembler_labels(*old(a)),
        assembler_plain(*final(a)),
{
    a.je(target)
}

/// `CodeAssembler::jmp` with a label, on a plain assembler: the call
/// succeeds and has added one `jmp` to that label to the text.
#[verifier::external_body]
pub(crate) fn add_jump(a: &mut CodeAssembler, target: CodeLabel) -> (r: Result<(), IcedError>)
    requires
        assembler_plain(*old(a)),
    ensures
        r is Ok,
        assembler_text(*final(a)) == assembler_text(*old(a)).push(Insn::Jump(label_number(target))),
        assembler_labels(*final(a)) == assembler_labels(*old(a)),
        assembler_plain(*final(a)),
{
    a.jmp(target)
}

/// `CodeAssembler::create_label`: hands out the next label, which is not
/// bound yet. Labels are numbered from 1 in the order in which they are
/// created; the text stays as it is. The assembler counts its labels in 64
/// bits, so the count must not be at its maximum.
#[verifier::external_body]
pub(crate) fn new_label(a: &mut CodeAssembler) -> (l: CodeLabel)
    requires
        assembler_labels(*old(a)) < u64::MAX,
    ensures
        label_number(l) == assembler_labels(*old(a)) + 1,
        !label_placed(l),
        assembler_labels(*final(a)) == assembler_labels(*old(a)) + 1,
        assembler_text(*final(a)) == assembler_text(*old(a)),
        assembler_plain(*final(a)) == assembler_plain(*old(a)),
{
    a.create_label()
}

/// `CodeAssembler::set_label`: binds a label to the instruction that is
/// added next. It is refused where the label was handed out by no
/// assembler, where the label is bound already, and where another label
/// waits for its instruction; in every other case it succeeds. The label
/// keeps its number.
#[verifier::external_body]
pub(crate) fn place_label(a: &mut CodeAssembler, l: &mut CodeLabel) -> (r: Result<(), IcedError>)
    ensures
        r is Ok <==> label_number(*old(l)) != 0 && !label_placed(*old(l)) && !label_waits(
            assembler_text(*old(a)),
        ),
        label_number(*final(l)) == label_number(*old(l)),
        label_placed(*final(l)) == (label_placed(*old(l)) || r is Ok),
        assembler_text(*final(a)) == (if r is Ok {
            assembler_text(*old(a)).push(Insn::Label(label_number(*old(l))))
        } else {
            assembler_text(*old(a))
        }),
        assembler_labels(*final(a)) == assembler_labels(*old(a)),
        assembler_plain(*final(a)) == assembler_plain(*old(a)),
{
    a.set_label(l)
}

/// `CodeAssembler::assemble` on a plain assembler: the machine code of
/// the text, placed at address `ip`, or a refusal. Which of the two, and
/// which code, depends on the text and the address alone.
#[verifier::external_body]
pub(crate) fn assemble_at(a: &mut CodeAssembler, ip: u64) -> (r: Result<Vec<u8>, IcedError>)
    requires
        assembler_plain(*old(a)),
    ensures
        match assembled(assembler_text(*old(a)), ip) {
            Some(code) => r matches Ok(c) && c@ == code,
            None => r is Err,
        },
{
    a.assemble(ip)
}

} // verus!
