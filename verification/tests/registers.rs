use slsify::compat::{Registers, UserFpregs, UserRegs, XMM_WORDS};

fn native_regs() -> libc::user_regs_struct {
    libc::user_regs_struct {
        r15: 1, r14: 2, r13: 3, r12: 4, rbp: 5, rbx: 6, r11: 7, r10: 8, r9: 9, r8: 10,
        rax: 11, rcx: 12, rdx: 13, rsi: 14, rdi: 15, orig_rax: 16, rip: 17, cs: 18,
        eflags: 19, rsp: 20, ss: 21, fs_base: 22, gs_base: 23, ds: 24, es: 25, fs: 26,
        gs: 27,
    }
}

fn bank() -> UserRegs {
    UserRegs {
        r15: 1, r14: 2, r13: 3, r12: 4, rbp: 5, rbx: 6, r11: 7, r10: 8, r9: 9, r8: 10,
        rax: 11, rcx: 12, rdx: 13, rsi: 14, rdi: 15, orig_rax: 16, rip: 17, cs: 18,
        eflags: 19, rsp: 20, ss: 21, fs_base: 22, gs_base: 23, ds: 24, es: 25, fs: 26,
        gs: 27,
    }
}

fn float_bank() -> UserFpregs {
    let mut st_space = [0u32; 32];
    for (i, word) in st_space.iter_mut().enumerate() {
        *word = 1000 + i as u32;
    }
    UserFpregs {
        cwd: 0x37f,
        swd: 2,
        ftw: 3,
        fop: 4,
        rip: 5,
        rdp: 6,
        mxcsr: 0x1f80,
        mxcr_mask: 0xffff,
        st_space,
        xmm_space: (0..64u32).map(|i| 2000 + i).collect(),
    }
}

#[test]
fn general_registers_are_read_field_by_field() {
    assert_eq!(UserRegs::from(&native_regs()), bank());
}

#[test]
fn general_registers_are_written_field_by_field() {
    let native = bank().into();
    assert_eq!(native.r15, 1);
    assert_eq!(native.r14, 2);
    assert_eq!(native.rax, 11);
    assert_eq!(native.orig_rax, 16);
    assert_eq!(native.rip, 17);
    assert_eq!(native.eflags, 19);
    assert_eq!(native.rsp, 20);
    assert_eq!(native.fs_base, 22);
    assert_eq!(native.gs, 27);
    assert_eq!(UserRegs::from(&native), bank());
}

#[test]
fn xmm_space_holds_64_words() {
    assert_eq!(XMM_WORDS, 64);
    assert_eq!(float_bank().xmm_space.len(), XMM_WORDS);
}

#[test]
fn duplicate_copies_every_field() {
    let banks = Registers { regs: bank(), fregs: float_bank() };
    assert_eq!(banks.duplicate(), banks);
    assert_eq!(float_bank().duplicate(), float_bank());
    let mut other = float_bank();
    other.xmm_space[63] = 0;
    assert_ne!(other.duplicate(), float_bank());
}
