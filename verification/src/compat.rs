//! Portable values for the two register banks of a 64-bit x86 process, and
//! their conversion to and from the kernel's own structures.
//!
//! The kernel's structures are `libc`'s `user_regs_struct` and
//! `user_fpregs_struct`. The conversions copy field by field; that they do
//! is stated, not proved.

use vstd::prelude::*;
use libc::{user_fpregs_struct, user_regs_struct};
use crate::error::Error;

verus! {

/// The general-purpose register bank.
#[derive(Debug, Clone, Copy, PartialEq, Eq, Structural)]
pub struct UserRegs {
    pub r15: u64,
    pub r14: u64,
    pub r13: u64,
    pub r12: u64,
    pub rbp: u64,
    pub rbx: u64,
    pub r11: u64,
    pub r10: u64,
    pub r9: u64,
    pub r8: u64,
    pub rax: u64,
    pub rcx: u64,
    pub rdx: u64,
    pub rsi: u64,
    pub rdi: u64,
    pub orig_rax: u64,
    pub rip: u64,
    pub cs: u64,
    pub eflags: u64,
    pub rsp: u64,
    pub ss: u64,
    pub fs_base: u64,
    pub gs_base: u64,
    pub ds: u64,
    pub es: u64,
    pub fs: u64,
    pub gs: u64,
}

/// The floating-point and media register bank, as a mathematical value.
pub struct FpregsModel {
    pub cwd: u16,
    pub swd: u16,
    pub ftw: u16,
    pub fop: u16,
    pub rip: u64,
    pub rdp: u64,
    pub mxcsr: u32,
    pub mxcr_mask: u32,
    pub st_space: Seq<u32>,
    pub xmm_space: Seq<u32>,
}

/// The floating-point and media register bank. `xmm_space` holds 64 words
/// in a bank that was read from a process.
#[derive(Debug, Clone, PartialEq, Eq)]
pub struct UserFpregs {
    pub cwd: u16,
    pub swd: u16,
    pub ftw: u16,
    pub fop: u16,
    pub rip: u64,
    pub rdp: u64,
    pub mxcsr: u32,
    pub mxcr_mask: u32,
    pub st_space: [u32; 32],
    pub xmm_space: Vec<u32>,
}

impl View for UserFpregs {
    type V = FpregsModel;

    open spec fn view(&self) -> FpregsModel {
        FpregsModel {
            cwd: self.cwd,
            swd: self.swd,
            ftw: self.ftw,
            fop: self.fop,
            rip: self.rip,
            rdp: self.rdp,
            mxcsr: self.mxcsr,
            mxcr_mask: self.mxcr_mask,
            st_space: self.st_space@,
            xmm_space: self.xmm_space@,
        }
    }
}

/// The number of words in `xmm_space`.
pub const XMM_WORDS: usize = 64;

#[verifier::external_type_specification]
#[verifier::external_body]
pub struct ExUserRegsStruct(user_regs_struct);

#[verifier::external_type_specification]
#[verifier::external_body]
pub struct ExUserFpregsStruct(user_fpregs_struct);

/// The registers that the kernel's general-purpose structure holds.
pub uninterp spec fn native_regs(regs: user_regs_struct) -> UserRegs;

/// The registers that the kernel's floating-point structure holds.
pub uninterp spec fn native_fpregs(fregs: user_fpregs_struct) -> FpregsModel;

/// The padding that follows the registers in the kernel's floating-point
/// structure, whatever it holds.
pub uninterp spec fn native_padding(fregs: user_fpregs_struct) -> Seq<u32>;

impl UserRegs {
    /// Reads the bank out of `libc::user_regs_struct`, field by field.
    #[verifier::external_body]
    pub fn from(regs: &user_regs_struct) -> (bank: UserRegs)
        ensures
            bank == native_regs(*regs),
    {
        let r = regs;
        UserRegs {
            r15: r.r15, r14: r.r14, r13: r.r13, r12: r.r12, rbp: r.rbp, rbx: r.rbx,
            r11: r.r11, r10: r.r10, r9: r.r9, r8: r.r8, rax: r.rax, rcx: r.rcx,
            rdx: r.rdx, rsi: r.rsi, rdi: r.rdi, orig_rax: r.orig_rax, rip: r.rip,
            cs: r.cs, eflags: r.eflags, rsp: r.rsp, ss: r.ss, fs_base: r.fs_base,
            gs_base: r.gs_base, ds: r.ds, es: r.es, fs: r.fs, gs: r.gs,
        }
    }

    /// Builds a `libc::user_regs_struct` that holds the bank, field by field.
    #[verifier::external_body]
    pub fn into(self) -> (regs: user_regs_struct)
        ensures
            native_regs(regs) == self,
    {
        let r = self;
        user_regs_struct {
            r15: r.r15, r14: r.r14, r13: r.r13, r12: r.r12, rbp: r.rbp, rbx: r.rbx,
            r11: r.r11, r10: r.r10, r9: r.r9, r8: r.r8, rax: r.rax, rcx: r.rcx,
            rdx: r.rdx, rsi: r.rsi, rdi: r.rdi, orig_rax: r.orig_rax, rip: r.rip,
            cs: r.cs, eflags: r.eflags, rsp: r.rsp, ss: r.ss, fs_base: r.fs_base,
            gs_base: r.gs_base, ds: r.ds, es: r.es, fs: r.fs, gs: r.gs,
        }
    }
}

impl UserFpregs {
    /// Whether the bank can be written into the kernel's structure:
    /// `xmm_space` holds exactly 64 words.
    pub open spec fn wf(&self) -> bool {
        self.xmm_space@.len() == XMM_WORDS
    }

    /// Reads the bank out of `libc::user_fpregs_struct`, field by field. The
    /// structure's `xmm_space` is an array of 64 words.
    #[verifier::external_body]
    pub fn from(fregs: &user_fpregs_struct) -> (bank: UserFpregs)
        ensures
            bank@ == native_fpregs(*fregs),
            bank.wf(),
    {
        UserFpregs {
            cwd: fregs.cwd,
            swd: fregs.swd,
            ftw: fregs.ftw,
            fop: fregs.fop,
            rip: fregs.rip,
            rdp: fregs.rdp,
            mxcsr: fregs.mxcsr,
            mxcr_mask: fregs.mxcr_mask,
            st_space: fregs.st_space,
            xmm_space: fregs.xmm_space.to_vec(),
        }
    }

    /// Writes the bank into a `libc::user_fpregs_struct`, field by field.
    /// The structure's padding stays as it is.
    #[verifier::external_body]
    pub fn into(self, buf: &mut user_fpregs_struct)
        requires
            self.wf(),
        ensures
            native_fpregs(*final(buf)) == self@,
            native_padding(*final(buf)) == native_padding(*old(buf)),
    {
        buf.cwd = self.cwd;
        buf.swd = self.swd;
        buf.ftw = self.ftw;
        buf.fop = self.fop;
        buf.rip = self.rip;
        buf.rdp = self.rdp;
        buf.mxcsr = self.mxcsr;
        buf.mxcr_mask = self.mxcr_mask;
        buf.st_space = self.st_space;
        buf.xmm_space = self.xmm_space.try_into().unwrap();
    }

    /// A copy of this bank.
    pub fn duplicate(&self) -> (copy: UserFpregs)
        ensures
            copy@ == self@,
    {
        UserFpregs {
            cwd: self.cwd,
            swd: self.swd,
            ftw: self.ftw,
            fop: self.fop,
            rip: self.rip,
            rdp: self.rdp,
            mxcsr: self.mxcsr,
            mxcr_mask: self.mxcr_mask,
            st_space: self.st_space,
            xmm_space: self.xmm_space.clone(),
        }
    }
}

/// Both register banks of a process, as a mathematical value.
pub struct RegistersModel {
    pub regs: UserRegs,
    pub fregs: FpregsModel,
}

/// Both register banks of a process.
#[derive(Debug, Clone, PartialEq, Eq)]
pub struct Registers {
    pub regs: UserRegs,
    pub fregs: UserFpregs,
}

impl View for Registers {
    type V = RegistersModel;

    open spec fn view(&self) -> RegistersModel {
        RegistersModel { regs: self.regs, fregs: self.fregs@ }
    }
}

impl Registers {
    /// Whether both banks can be written into the kernel's structures.
    pub open spec fn wf(&self) -> bool {
        self.fregs.wf()
    }

    /// The banks that the kernel's two structures hold.
    pub fn from_native(regs: &user_regs_struct, fregs: &user_fpregs_struct) -> (banks: Registers)
        ensures
            banks@.regs == native_regs(*regs),
            banks@.fregs == native_fpregs(*fregs),
            banks.wf(),
    {
        Registers { regs: UserRegs::from(regs), fregs: UserFpregs::from(fregs) }
    }

    /// Writes the floating-point bank into `fregs` and returns the kernel's
    /// structure for the general-purpose bank. Banks that do not hold 64
    /// words of `xmm_space` are refused and `fregs` stays as it is. The
    /// padding of `fregs` stays as it is in either case.
    pub fn into_native(self, fregs: &mut user_fpregs_struct) -> (r: Result<user_regs_struct, Error>)
        ensures
            self.wf() ==> (r matches Ok(regs) && native_regs(regs) == self@.regs && native_fpregs(
                *final(fregs),
            ) == self@.fregs),
            !self.wf() ==> (r matches Err(Error::Precondition)) && *final(fregs) == *old(fregs),
            native_padding(*final(fregs)) == native_padding(*old(fregs)),
    {
        if self.fregs.xmm_space.len() != XMM_WORDS {
            return Err(Error::Precondition);
        }
        self.fregs.into(fregs);
        Ok(self.regs.into())
    }

    /// A copy of these banks.
    pub fn duplicate(&self) -> (copy: Registers)
        ensures
            copy@ == self@,
    {
        Registers { regs: self.regs, fregs: self.fregs.duplicate() }
    }
}

} // verus!
