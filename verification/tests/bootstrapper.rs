use iced_x86::code_asm::{eax, r10, r8, r9, rax, rdi, rdx, rsi, CodeAssembler};
use slsify::error::Error;
use slsify::layout::{plan_layout, Layout, MmapArg, OpenArg};
use slsify::program::{
    CODE_WINDOW, USER_SPACE_TOP, MAP_FIXED_PRIVATE, OPEN_MODE, O_RDONLY, SEEK_SET, SIGSTOP,
    SYS_CLOSE, SYS_DUP2, SYS_GETPID, SYS_KILL, SYS_LSEEK, SYS_MMAP, SYS_MUNMAP, SYS_OPEN,
};
use slsify::region::{
    FdTarget, FileDescriptorRecord, RegionDescriptor, RegionPath, PERM_EXECUTE, PERM_PRIVATE,
    PERM_READ, PERM_WRITE,
};
use slsify::restore::{
    assemble_bs_code, bootstrapper_path, choose_base, create_bootstrapper, restore_checkpoint,
    write_bs_elf, RestoreStep, BS_GUID, BS_MODE, DEFAULT_BASE, HEADERS_SIZE,
};

fn region(low: u64, high: u64, perms: u8) -> RegionDescriptor {
    RegionDescriptor { low, high, perms, offset: 0, path: RegionPath::Anonymous }
}

fn file(fd: i32, path: &[u8], mode: u32, offset: u64) -> FileDescriptorRecord {
    FileDescriptorRecord { fd, target: FdTarget::File(path.to_vec()), mode, offset }
}

fn sample_maps() -> Vec<RegionDescriptor> {
    vec![
        region(0x400000, 0x401000, PERM_READ | PERM_EXECUTE | PERM_PRIVATE),
        region(0x600000, 0x603000, PERM_READ | PERM_WRITE | PERM_PRIVATE),
        region(0x7000_0000, 0x7000_2000, PERM_READ | PERM_PRIVATE),
    ]
}

fn sample_files() -> Vec<FileDescriptorRecord> {
    vec![
        file(3, b"/var/log/solver.log", 1, 4096),
        FileDescriptorRecord { fd: 4, target: FdTarget::Other, mode: 0, offset: 0 },
        file(7, b"/tmp/out", 2, 0),
    ]
}

/// The program text, written down once more with the assembler itself.
fn reference_code(layout: &Layout, vaddr: u64, data_addr: u64) -> Vec<u8> {
    let mut c = CodeAssembler::new(64).unwrap();
    c.xor(rdi, rdi).unwrap();
    c.mov(rsi, vaddr).unwrap();
    c.mov(rax, libc::SYS_munmap).unwrap();
    c.syscall().unwrap();
    c.mov(rdi, vaddr + 0x1000).unwrap();
    c.mov(rsi, 0x7fff_ffff_f000 - (vaddr + 0x1000)).unwrap();
    c.mov(rax, libc::SYS_munmap).unwrap();
    c.syscall().unwrap();
    for m in &layout.mmaps {
        c.mov(rdi, data_addr + m.path_ptr).unwrap();
        c.mov(rsi, libc::O_RDONLY as u64).unwrap();
        c.mov(rdx, 0o666u64).unwrap();
        c.mov(rax, libc::SYS_open).unwrap();
        c.syscall().unwrap();
        c.mov(rdi, m.addr).unwrap();
        c.mov(rsi, m.len).unwrap();
        c.mov(rdx, m.prot).unwrap();
        c.mov(r10, (libc::MAP_FIXED | libc::MAP_PRIVATE) as u64).unwrap();
        c.mov(r8, rax).unwrap();
        c.mov(r9, 0u64).unwrap();
        c.mov(rax, libc::SYS_mmap).unwrap();
        c.syscall().unwrap();
        c.mov(rdi, r8).unwrap();
        c.mov(rax, libc::SYS_close).unwrap();
        c.syscall().unwrap();
    }
    for o in &layout.opens {
        c.mov(rdi, data_addr + o.path_ptr).unwrap();
        c.mov(rsi, o.mode).unwrap();
        c.mov(rdx, 0o666u64).unwrap();
        c.mov(rax, libc::SYS_open).unwrap();
        c.syscall().unwrap();
        let mut opened = c.create_label();
        c.cmp(eax, o.fd).unwrap();
        c.je(opened).unwrap();
        c.mov(rdi, rax).unwrap();
        c.mov(rsi, o.fd as u64).unwrap();
        c.mov(rax, libc::SYS_dup2).unwrap();
        c.syscall().unwrap();
        c.mov(rax, libc::SYS_close).unwrap();
        c.syscall().unwrap();
        c.set_label(&mut opened).unwrap();
        c.mov(rdi, o.fd as u64).unwrap();
        c.mov(rsi, o.offset).unwrap();
        c.mov(rdx, libc::SEEK_SET as u64).unwrap();
        c.mov(rax, libc::SYS_lseek).unwrap();
        c.syscall().unwrap();
    }
    c.mov(rax, libc::SYS_getpid).unwrap();
    c.syscall().unwrap();
    c.mov(rdi, rax).unwrap();
    c.mov(rsi, libc::SIGSTOP as u64).unwrap();
    c.mov(rax, libc::SYS_kill).unwrap();
    c.syscall().unwrap();
    let mut spin = c.create_label();
    c.set_label(&mut spin).unwrap();
    c.jmp(spin).unwrap();
    c.assemble(data_addr + layout.data.len() as u64).unwrap()
}

#[test]
fn constants_are_those_of_the_kernel_interface() {
    assert_eq!(SYS_OPEN, libc::SYS_open as u64);
    assert_eq!(SYS_CLOSE, libc::SYS_close as u64);
    assert_eq!(SYS_LSEEK, libc::SYS_lseek as u64);
    assert_eq!(SYS_MMAP, libc::SYS_mmap as u64);
    assert_eq!(SYS_MUNMAP, libc::SYS_munmap as u64);
    assert_eq!(SYS_DUP2, libc::SYS_dup2 as u64);
    assert_eq!(SYS_GETPID, libc::SYS_getpid as u64);
    assert_eq!(SYS_KILL, libc::SYS_kill as u64);
    assert_eq!(O_RDONLY, libc::O_RDONLY as u64);
    assert_eq!(SEEK_SET, libc::SEEK_SET as u64);
    assert_eq!(SIGSTOP, libc::SIGSTOP as u64);
    assert_eq!(MAP_FIXED_PRIVATE, (libc::MAP_FIXED | libc::MAP_PRIVATE) as u64);
    assert_eq!(OPEN_MODE, 0o666);
    assert_eq!(CODE_WINDOW, 4096);
    assert_eq!(USER_SPACE_TOP, (1 << 47) - 4096);
    assert_eq!(DEFAULT_BASE, 0xe0000);
    assert_eq!(
        BS_MODE,
        libc::S_IRUSR | libc::S_IWUSR | libc::S_IXUSR | libc::S_IRGRP | libc::S_IXGRP
    );
    assert_eq!(PERM_READ as i32, libc::PROT_READ);
    assert_eq!(PERM_WRITE as i32, libc::PROT_WRITE);
    assert_eq!(PERM_EXECUTE as i32, libc::PROT_EXEC);
    assert_eq!(
        HEADERS_SIZE as usize,
        goblin::elf::header::header64::SIZEOF_EHDR
            + goblin::elf::program_header::program_header64::SIZEOF_PHDR
    );
}

#[test]
fn layout_holds_the_paths_as_c_strings() {
    let present = vec![true, false, true];
    let layout = plan_layout(b"/tmp/slsdir/4", &sample_maps(), &present, &sample_files()).unwrap();
    assert_eq!(
        layout.data,
        b"/tmp/slsdir/4/0\0/tmp/slsdir/4/2\0/var/log/solver.log\0/tmp/out\0".to_vec()
    );
    assert_eq!(
        layout.mmaps,
        vec![
            MmapArg { addr: 0x400000, len: 0x1000, prot: 21, path_ptr: 0 },
            MmapArg { addr: 0x7000_0000, len: 0x2000, prot: 17, path_ptr: 16 },
        ]
    );
    assert_eq!(
        layout.opens,
        vec![
            OpenArg { fd: 3, path_ptr: 32, mode: 1, offset: 4096 },
            OpenArg { fd: 7, path_ptr: 52, mode: 2, offset: 0 },
        ]
    );
}

#[test]
fn layout_of_nothing_is_empty() {
    let layout = plan_layout(b"/tmp/slsdir/1", &Vec::new(), &Vec::new(), &Vec::new()).unwrap();
    assert!(layout.data.is_empty() && layout.mmaps.is_empty() && layout.opens.is_empty());
}

#[test]
fn layout_refuses_a_request_that_is_not_well_formed() {
    let maps = sample_maps();
    assert_eq!(
        plan_layout(b"/c", &maps, &vec![true, true], &Vec::new()),
        Err(Error::Precondition)
    );
    let backwards = vec![region(0x2000, 0x1000, PERM_READ)];
    assert_eq!(
        plan_layout(b"/c", &backwards, &vec![false], &Vec::new()),
        Err(Error::Precondition)
    );
    let negative = vec![file(-1, b"/tmp/out", 0, 0)];
    assert_eq!(
        plan_layout(b"/c", &Vec::new(), &Vec::new(), &negative),
        Err(Error::Precondition)
    );
    let other = vec![FileDescriptorRecord { fd: -1, target: FdTarget::Other, mode: 0, offset: 0 }];
    assert!(plan_layout(b"/c", &Vec::new(), &Vec::new(), &other).is_ok());
}

#[test]
fn layout_refuses_a_path_with_the_byte_zero() {
    let maps = sample_maps();
    assert_eq!(
        plan_layout(b"/tmp\0/c", &maps, &vec![false, true, false], &Vec::new()),
        Err(Error::Io)
    );
    assert!(plan_layout(b"/tmp\0/c", &maps, &vec![false, false, false], &Vec::new()).is_ok());
    let files = vec![file(3, b"/tmp/o\0ut", 0, 0)];
    assert_eq!(plan_layout(b"/c", &Vec::new(), &Vec::new(), &files), Err(Error::Io));
    let backwards = vec![region(0x2000, 0x1000, PERM_READ)];
    assert_eq!(
        plan_layout(b"/tmp\0/c", &backwards, &vec![true], &Vec::new()),
        Err(Error::Precondition)
    );
}

#[test]
fn layout_refuses_a_blob_that_fills_the_page() {
    let long = vec![b'a'; 4095];
    let files = vec![file(3, &long, 0, 0)];
    assert_eq!(
        plan_layout(b"/c", &Vec::new(), &Vec::new(), &files),
        Err(Error::Precondition)
    );
    let shorter = vec![b'a'; 4094];
    let files = vec![file(3, &shorter, 0, 0)];
    assert_eq!(
        plan_layout(b"/c", &Vec::new(), &Vec::new(), &files).unwrap().data.len(),
        4095
    );
}

#[test]
fn code_is_what_the_assembler_makes_of_the_program_text() {
    let present = vec![true, false, true];
    let layout = plan_layout(b"/tmp/slsdir/4", &sample_maps(), &present, &sample_files()).unwrap();
    let vaddr = 0xe0000;
    let data_addr = vaddr + 120;
    let (data, code) = assemble_bs_code(
        b"/tmp/slsdir/4",
        &sample_maps(),
        &present,
        &sample_files(),
        vaddr,
        data_addr,
    )
    .unwrap();
    assert_eq!(data, layout.data);
    assert_eq!(code, reference_code(&layout, vaddr, data_addr));
    assert!(!code.is_empty());
    // the second `mov rsi`: the length from the end of the window to the end of user space
    let length = (0x7fff_ffff_f000u64 - 0xe1000).to_le_bytes();
    assert!(code.windows(10).any(|w| w[..2] == [0x48, 0xbe] && w[2..] == length));
}

#[test]
fn code_of_an_empty_checkpoint_unmaps_and_stops() {
    let layout = plan_layout(b"/c", &Vec::new(), &Vec::new(), &Vec::new()).unwrap();
    let (_, code) =
        assemble_bs_code(b"/c", &Vec::new(), &Vec::new(), &Vec::new(), 0xe0000, 0xe0078).unwrap();
    assert_eq!(code, reference_code(&layout, 0xe0000, 0xe0078));
    assert_eq!(&code[..3], &[0x48, 0x31, 0xff]);
    assert_eq!(&code[code.len() - 2..], &[0xeb, 0xfe]);
}

#[test]
fn assemble_bs_code_gives_blob_and_code() {
    let present = vec![true, true, true];
    let (data, code) =
        assemble_bs_code(b"/r/9", &sample_maps(), &present, &sample_files(), 0x10000, 0x10078)
            .unwrap();
    let layout = plan_layout(b"/r/9", &sample_maps(), &present, &sample_files()).unwrap();
    assert_eq!(data, layout.data);
    assert_eq!(code, reference_code(&layout, 0x10000, 0x10078));
}

#[test]
fn assemble_bs_code_refuses_a_window_beyond_the_address_space() {
    let maps = sample_maps();
    let present = vec![true, true, true];
    assert_eq!(
        assemble_bs_code(b"/r/9", &maps, &present, &Vec::new(), USER_SPACE_TOP, 0x10078),
        Err(Error::Precondition)
    );
    assert_eq!(
        assemble_bs_code(b"/r/9", &maps, &present, &Vec::new(), 0x10008, 0x10078),
        Err(Error::Precondition)
    );
    assert_eq!(
        assemble_bs_code(b"/r/9", &maps, &present, &Vec::new(), 0x10000, u64::MAX - 100),
        Err(Error::Precondition)
    );
    assert!(
        assemble_bs_code(b"/r/9", &maps, &present, &Vec::new(), USER_SPACE_TOP - 4096, 0x10078)
            .is_ok()
    );
    assert_eq!(
        assemble_bs_code(b"/r\0/9", &maps, &present, &Vec::new(), 0x10000, 0x10078),
        Err(Error::Io)
    );
}

#[test]
fn image_is_a_64_bit_executable_with_one_segment() {
    let data = b"/tmp/slsdir/1/0\0".to_vec();
    let code = vec![0x90u8; 33];
    let image = write_bs_elf(0xe0000, &data, &code).unwrap();
    assert_eq!(image.len(), 120 + data.len() + code.len());
    assert_eq!(&image[120..120 + data.len()], &data[..]);
    assert_eq!(&image[120 + data.len()..], &code[..]);
    assert_eq!(&image[..8], &[0x7f, b'E', b'L', b'F', 2, 1, 1, 0]);

    let header = goblin::elf::Elf::parse_header(&image).unwrap();
    assert_eq!(header.e_type, goblin::elf::header::ET_EXEC);
    assert_eq!(header.e_machine, goblin::elf::header::EM_X86_64);
    assert_eq!(header.e_entry, 0xe0000 + 120 + data.len() as u64);
    assert_eq!(header.e_phoff, 64);
    assert_eq!(header.e_phnum, 1);
    assert_eq!(header.e_phentsize, 56);
    assert_eq!(header.e_ehsize, 64);

    let elf = goblin::elf::Elf::parse(&image).unwrap();
    assert_eq!(elf.program_headers.len(), 1);
    let segment = &elf.program_headers[0];
    assert_eq!(segment.p_type, goblin::elf::program_header::PT_LOAD);
    assert_eq!(segment.p_flags, 7);
    assert_eq!(segment.p_offset, 120 + data.len() as u64);
    assert_eq!(segment.p_vaddr, header.e_entry);
    assert_eq!(segment.p_filesz, 33);
    assert_eq!(segment.p_memsz, 33);
}

#[test]
fn image_must_fit_the_window() {
    let data = vec![1u8; 1000];
    assert!(write_bs_elf(0xe0000, &data, &vec![0x90; 4096 - 120 - 1000]).is_ok());
    assert_eq!(
        write_bs_elf(0xe0000, &data, &vec![0x90; 4096 - 120 - 1000 + 1]),
        Err(Error::Precondition)
    );
    assert_eq!(
        write_bs_elf(USER_SPACE_TOP, &data, &vec![0x90; 10]),
        Err(Error::Precondition)
    );
    assert!(write_bs_elf(USER_SPACE_TOP - 4096, &data, &vec![0x90; 10]).is_ok());
    assert_eq!(write_bs_elf(u64::MAX - 8191, &data, &vec![0x90; 10]), Err(Error::Precondition));
    assert_eq!(write_bs_elf(0xe0001, &data, &vec![0x90; 10]), Err(Error::Precondition));
    assert_eq!(write_bs_elf(0xe0800, &data, &vec![0x90; 10]), Err(Error::Precondition));
}

#[test]
fn base_is_the_lowest_free_page_from_the_default_up() {
    assert_eq!(choose_base(&Vec::new()), Some(0xe0000));
    assert_eq!(choose_base(&sample_maps()), Some(0xe0000));
    let low = vec![region(0xdf000, 0xe0000, PERM_READ)];
    assert_eq!(choose_base(&low), Some(0xe0000));
    let touching = vec![region(0xe0fff, 0xe1001, PERM_READ)];
    assert_eq!(choose_base(&touching), Some(0xe2000));
    let blocked = vec![
        region(0xe1000, 0xe3000, PERM_READ),
        region(0xd0000, 0xe0800, PERM_READ),
        region(0xe4000, 0xe5000, PERM_READ),
    ];
    assert_eq!(choose_base(&blocked), Some(0xe3000));
    let empty = vec![region(0xe0800, 0xe0800, PERM_READ)];
    assert_eq!(choose_base(&empty), Some(0xe0000));
    let all = vec![region(0, u64::MAX, PERM_READ)];
    assert_eq!(choose_base(&all), None);
    let nearly = vec![region(0, USER_SPACE_TOP - 4096, PERM_READ)];
    assert_eq!(choose_base(&nearly), Some(USER_SPACE_TOP - 4096));
    let nearly = vec![region(0, USER_SPACE_TOP - 4095, PERM_READ)];
    assert_eq!(choose_base(&nearly), None);
    let odd = vec![region(0, USER_SPACE_TOP - 8191, PERM_READ)];
    assert_eq!(choose_base(&odd), Some(USER_SPACE_TOP - 4096));
}

#[test]
fn bootstrapper_is_built_at_the_chosen_base() {
    let maps = vec![
        region(0xe0000, 0xe1000, PERM_READ | PERM_PRIVATE),
        region(0x600000, 0x603000, PERM_READ | PERM_WRITE | PERM_PRIVATE),
    ];
    let present = vec![true, true];
    let image = create_bootstrapper(b"/tmp/slsdir/2", &maps, &present, &sample_files()).unwrap();
    let base = 0xe1000u64;
    let (data, code) =
        assemble_bs_code(b"/tmp/slsdir/2", &maps, &present, &sample_files(), base, base + 120)
            .unwrap();
    assert_eq!(image, write_bs_elf(base, &data, &code).unwrap());
    let header = goblin::elf::Elf::parse_header(&image).unwrap();
    assert_eq!(header.e_entry, base + 120 + data.len() as u64);
}

#[test]
fn bootstrapper_for_too_many_regions_is_refused() {
    let mut maps = Vec::new();
    for i in 0..40u64 {
        maps.push(region(0x100_0000 + i * 0x2000, 0x100_1000 + i * 0x2000, PERM_READ));
    }
    let present = vec![true; 40];
    assert_eq!(
        create_bootstrapper(b"/tmp/slsdir/2", &maps, &present, &Vec::new()),
        Err(Error::Precondition)
    );
    let all = vec![region(0, u64::MAX, PERM_READ)];
    assert_eq!(
        create_bootstrapper(b"/tmp/slsdir/2", &all, &vec![false], &Vec::new()),
        Err(Error::Precondition)
    );
}

#[test]
fn bootstrapper_is_named_by_its_guid() {
    assert_eq!(BS_GUID, "bs_43b39ed1-7e9e-4c8d-9d87-540c42dfccbd");
    assert_eq!(
        bootstrapper_path(b"/tmp/slsdir/3"),
        b"/tmp/slsdir/3/bs_43b39ed1-7e9e-4c8d-9d87-540c42dfccbd".to_vec()
    );
}

#[test]
fn restore_needs_a_checkpoint() {
    assert_eq!(restore_checkpoint(b"/tmp/slsdir", 0, false), Err(Error::Precondition));
    assert_eq!(restore_checkpoint(b"/tmp/slsdir", 0, true), Err(Error::Precondition));
}

#[test]
fn restore_reads_the_newest_checkpoint_and_resumes() {
    let plan = restore_checkpoint(b"/tmp/slsdir", 12, false).unwrap();
    assert_eq!(plan.checkpoint_dir, b"/tmp/slsdir/12".to_vec());
    assert_eq!(plan.regs, b"/tmp/slsdir/12/regs".to_vec());
    assert_eq!(plan.maps, b"/tmp/slsdir/12/maps".to_vec());
    assert_eq!(plan.files, b"/tmp/slsdir/12/files".to_vec());
    assert_eq!(
        plan.bootstrapper,
        b"/tmp/slsdir/12/bs_43b39ed1-7e9e-4c8d-9d87-540c42dfccbd".to_vec()
    );
    assert_eq!(
        plan.steps,
        vec![
            RestoreStep::WaitStopped,
            RestoreStep::Attach,
            RestoreStep::SetRegisters,
            RestoreStep::Detach,
            RestoreStep::Resume,
        ]
    );
}

#[test]
fn restore_with_hang_leaves_the_process_stopped() {
    let plan = restore_checkpoint(b"/tmp/slsdir", 1, true).unwrap();
    assert_eq!(
        plan.steps,
        vec![
            RestoreStep::WaitStopped,
            RestoreStep::Attach,
            RestoreStep::SetRegisters,
            RestoreStep::Detach,
            RestoreStep::ReportPid,
            RestoreStep::WaitExit,
        ]
    );
    assert!(!plan.steps.contains(&RestoreStep::Resume));
}

#[test]
fn code_for_many_regions_is_assembled_whatever_its_size() {
    let mut maps = Vec::new();
    for i in 0..500u64 {
        maps.push(region(0x100_0000 + i * 0x2000, 0x100_1000 + i * 0x2000, PERM_READ));
    }
    let present = vec![true; 500];
    let (data, code) =
        assemble_bs_code(b"", &maps, &present, &Vec::new(), 0x10000, 0x10078).unwrap();
    assert_eq!(data.len(), 1890);
    assert!(code.len() > 4096);
    assert_eq!(write_bs_elf(0x10000, &data, &code), Err(Error::Precondition));
}

#[test]
fn headers_are_those_of_the_elf_format_byte_for_byte() {
    let data = b"/tmp/slsdir/1/0\0".to_vec();
    let code = vec![0x90u8; 33];
    let vaddr = 0x1234_5678_9000u64;
    let image = write_bs_elf(vaddr, &data, &code).unwrap();
    let offset = 120 + data.len() as u64;
    let entry = vaddr + offset;

    let mut expected = vec![0x7f, b'E', b'L', b'F', 2, 1, 1, 0, 0, 0, 0, 0, 0, 0, 0, 0];
    expected.extend(2u16.to_le_bytes());
    expected.extend(62u16.to_le_bytes());
    expected.extend(1u32.to_le_bytes());
    expected.extend(entry.to_le_bytes());
    expected.extend(64u64.to_le_bytes());
    expected.extend(0u64.to_le_bytes());
    expected.extend(0u32.to_le_bytes());
    expected.extend(64u16.to_le_bytes());
    expected.extend(56u16.to_le_bytes());
    expected.extend(1u16.to_le_bytes());
    expected.extend(64u16.to_le_bytes());
    expected.extend(0u16.to_le_bytes());
    expected.extend(0u16.to_le_bytes());
    assert_eq!(expected.len(), 64);
    assert_eq!(&image[..64], &expected[..]);

    let mut segment = Vec::new();
    segment.extend(1u32.to_le_bytes());
    segment.extend(7u32.to_le_bytes());
    segment.extend(offset.to_le_bytes());
    segment.extend(entry.to_le_bytes());
    segment.extend(0u64.to_le_bytes());
    segment.extend(33u64.to_le_bytes());
    segment.extend(33u64.to_le_bytes());
    segment.extend(0x20_0000u64.to_le_bytes());
    assert_eq!(segment.len(), 56);
    assert_eq!(&image[64..120], &segment[..]);
}

#[test]
fn two_present_regions_give_two_paths_and_code() {
    let maps = vec![
        region(0x400000, 0x401000, PERM_READ | PERM_PRIVATE),
        region(0x600000, 0x601000, PERM_READ | PERM_WRITE | PERM_PRIVATE),
    ];
    let (data, code) =
        assemble_bs_code(b"/c/1", &maps, &vec![true, true], &Vec::new(), 0xe0000, 0xe0078)
            .unwrap();
    assert_eq!(data, b"/c/1/0\0/c/1/1\0".to_vec());
    assert_eq!(data.len(), 14);
    assert!(!code.is_empty());
}

#[test]
fn a_descriptor_that_is_no_regular_file_adds_nothing() {
    let pipe = vec![FileDescriptorRecord { fd: 5, target: FdTarget::Other, mode: 0, offset: 0 }];
    let with_pipe =
        assemble_bs_code(b"/c/1", &Vec::new(), &Vec::new(), &pipe, 0xe0000, 0xe0078).unwrap();
    let without =
        assemble_bs_code(b"/c/1", &Vec::new(), &Vec::new(), &Vec::new(), 0xe0000, 0xe0078)
            .unwrap();
    assert!(with_pipe.0.is_empty());
    assert_eq!(with_pipe, without);
}
