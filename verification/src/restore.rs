//! The restore bootstrapper: a minimal executable that rebuilds the
//! target's address space and files and then stops itself, so that a tracer
//! can put the saved registers in place.

use vstd::prelude::*;
use vstd::string::StringSliceAdditionalSpecFns;
use crate::assembler::assembled;
use crate::bytes::{append, contains_bytes, join, joined, occurs_in};
use crate::checkpoint::{checkpoint_dir, dir_of, FILES_NAME, MAPS_NAME, REGS_NAME};
use crate::elf::{
    file_header, file_header_bytes, lemma_header_sizes, segment_header, segment_header_bytes,
};
use crate::error::Error;
use crate::layout::{plan_layout, planned, LayoutModel};
use crate::program::{
    assemble_program, is_window, placeable, program_text, window_fits, CODE_WINDOW,
    USER_SPACE_TOP,
};
use crate::region::{FileDescriptorRecord, PathModel, RegionDescriptor, RegionModel, RegionPath};

verus! {

/// The name of the bootstrapper's file. A region that is mapped from a
/// file whose path holds this name belongs to a bootstrapper.
pub const BS_GUID: &'static str = "bs_43b39ed1-7e9e-4c8d-9d87-540c42dfccbd";

/// The mode of the bootstrapper's file: read and execute for user and
/// group, write for the user.
pub const BS_MODE: u32 = 0o750;

/// The lowest address that the bootstrapper is loaded at.
pub const DEFAULT_BASE: u64 = 0xe0000;

/// The size of the file header.
pub const FILE_HEADER_SIZE: u64 = 64;

/// The size of the file header and the one program header.
pub const HEADERS_SIZE: u64 = 120;

/// ELF object type: an executable file.
pub const ET_EXEC: u16 = 2;

/// ELF machine: 64-bit x86.
pub const EM_X86_64: u16 = 62;

/// ELF segment flags: readable, writable and executable.
pub const PF_RWX: u32 = 7;

/// Whether a region holds an address of the window at `base`.
pub open spec fn overlaps(region: RegionModel, base: u64) -> bool {
    region.low < region.high && region.low < base + CODE_WINDOW && base < region.high
}

/// Whether no region holds an address of the window at `base`.
pub open spec fn window_free(maps: Seq<RegionModel>, base: u64) -> bool {
    forall|i: int| 0 <= i < maps.len() ==> !overlaps(#[trigger] maps[i], base)
}

/// Whether a window may start at `base`: on a page boundary, not below
/// `DEFAULT_BASE`, and with its end in user space.
pub open spec fn is_candidate(base: u64) -> bool {
    base % 4096 == 0 && base >= DEFAULT_BASE && base + CODE_WINDOW <= USER_SPACE_TOP
}

/// Whether `base` is the lowest candidate whose window is free.
pub open spec fn is_base(maps: Seq<RegionModel>, base: u64) -> bool {
    &&& is_candidate(base)
    &&& window_free(maps, base)
    &&& forall|b: u64| is_candidate(b) && b < base ==> !window_free(maps, b)
}

/// The first region that holds an address of the window at `base`.
fn find_blocker(maps: &Vec<RegionDescriptor>, base: u64) -> (r: Option<usize>)
    requires
        base + CODE_WINDOW <= USER_SPACE_TOP,
    ensures
        match r {
            Some(i) => i < maps.len() && overlaps(maps.deep_view()[i as int], base),
            None => window_free(maps.deep_view(), base),
        },
{
    let mut i: usize = 0;
    while i < maps.len()
        invariant
            i <= maps.len(),
            base + CODE_WINDOW <= USER_SPACE_TOP,
            forall|k: int| 0 <= k < i ==> !overlaps(#[trigger] maps.deep_view()[k], base),
        decreases maps.len() - i,
    {
        let region = &maps[i];
        assert(maps.deep_view()[i as int] == region@);
        if region.low < region.high && region.low < base + CODE_WINDOW && base < region.high {
            return Some(i);
        }
        i += 1;
    }
    None
}

/// Chooses where the bootstrapper is loaded: the lowest page at or above
/// `DEFAULT_BASE` that none of the regions touches. There is none only
/// where the regions cover every such page.
pub fn choose_base(maps: &Vec<RegionDescriptor>) -> (r: Option<u64>)
    ensures
        match r {
            Some(base) => is_base(maps.deep_view(), base),
            None => forall|b: u64| is_candidate(b) ==> !window_free(maps.deep_view(), b),
        },
{
    let mut base: u64 = DEFAULT_BASE;
    loop
        invariant
            is_candidate(base),
            forall|b: u64| is_candidate(b) && b < base ==> !window_free(maps.deep_view(), b),
        decreases USER_SPACE_TOP - base,
    {
        match find_blocker(maps, base) {
            None => {
                return Some(base);
            },
            Some(i) => {
                let high = maps[i].high;
                let ghost blocker = maps.deep_view()[i as int];
                assert(blocker == maps[i as int]@);
                if high > USER_SPACE_TOP - CODE_WINDOW {
                    assert forall|b: u64| is_candidate(b) && base <= b implies !window_free(
                        maps.deep_view(),
                        b,
                    ) by {
                        assert(overlaps(blocker, b));
                    }
                    return None;
                }
                let rem = high % CODE_WINDOW;
                let next: u64 = if rem == 0 {
                    high
                } else {
                    high - rem + CODE_WINDOW
                };
                assert forall|b: u64| is_candidate(b) && base <= b && b < next implies !window_free(
                    maps.deep_view(),
                    b,
                ) by {
                    assert(overlaps(blocker, b));
                }
                base = next;
            },
        }
    }
}

/// The signature of a bootstrapper's own pages: the name of its file.
pub open spec fn signature() -> Seq<u8> {
    BS_GUID.spec_bytes()
}

/// Whether a region belongs to a bootstrapper: it is mapped from a file
/// whose path holds the bootstrapper's name.
pub open spec fn bootstrapper_region(region: RegionModel) -> bool {
    match region.path {
        PathModel::File(path) => occurs_in(signature(), path),
        _ => false,
    }
}

/// Whether a region belongs to a bootstrapper.
pub fn is_bootstrapper_region(region: &RegionDescriptor) -> (own: bool)
    ensures
        own == bootstrapper_region(region@),
{
    match &region.path {
        RegionPath::File(path) => contains_bytes(path.as_slice(), BS_GUID.as_bytes()),
        _ => false,
    }
}

/// The path of the bootstrapper's file in the checkpoint directory `cp_dir`.
pub fn bootstrapper_path(cp_dir: &[u8]) -> (path: Vec<u8>)
    ensures
        path@ == joined(cp_dir@, signature()),
{
    join(cp_dir, BS_GUID.as_bytes())
}

/// The code of a bootstrapper with this layout, loaded at `vaddr` with
/// its blob at `data_addr`: what the assembler makes of the layout's
/// program text, placed right behind the blob. There is none where the
/// assembler refuses the text or makes no code of it.
pub open spec fn bootstrapper_code(layout: LayoutModel, vaddr: u64, data_addr: u64) -> Option<
    Seq<u8>,
> {
    match assembled(
        program_text(layout, vaddr, data_addr),
        (data_addr + layout.data.len()) as u64,
    ) {
        Some(code) => if code.len() > 0 {
            Some(code)
        } else {
            None
        },
        None => None,
    }
}

/// Assembles the data blob and the program code of the bootstrapper for
/// the checkpoint in `cp_dir`, to be loaded at `vaddr` with the blob at
/// `data_addr` and the code right behind it.
///
/// `present[i]` says whether the checkpoint holds a file for region `i`.
/// The request is refused where `vaddr` is no page boundary, where the
/// window would leave user space or the blob the address space, and where
/// there is no layout. In every other case the result is the blob of the
/// layout and the code that `bootstrapper_code` gives, which is not
/// empty, and `Error::Assemble` where there is no such code.
pub fn assemble_bs_code(
    cp_dir: &[u8],
    maps: &Vec<RegionDescriptor>,
    present: &Vec<bool>,
    files: &Vec<FileDescriptorRecord>,
    vaddr: u64,
    data_addr: u64,
) -> (r: Result<(Vec<u8>, Vec<u8>), Error>)
    ensures
        !placeable(vaddr, data_addr) ==> r matches Err(Error::Precondition),
        placeable(vaddr, data_addr) ==> (match planned(
            cp_dir@,
            maps.deep_view(),
            present@,
            files.deep_view(),
        ) {
            Ok(layout) => match bootstrapper_code(layout, vaddr, data_addr) {
                Some(expected) => r matches Ok((data, code)) && data@ == layout.data && code@
                    == expected,
                None => r matches Err(Error::Assemble),
            },
            Err(e) => r matches Err(f) && f == e,
        }),
        r matches Ok((_, code)) ==> code@.len() > 0,
{
    if !is_window(vaddr) || data_addr > u64::MAX - CODE_WINDOW {
        return Err(Error::Precondition);
    }
    let layout = plan_layout(cp_dir, maps, present, files)?;
    let code = assemble_program(&layout, vaddr, data_addr)?;
    if code.len() == 0 {
        return Err(Error::Assemble);
    }
    Ok((layout.data, code))
}

/// Whether an image with this much data and code is one that a window at
/// `vaddr` can hold: the window is a page, and the image is no larger.
pub open spec fn image_fits(vaddr: u64, data_len: nat, code_len: nat) -> bool {
    HEADERS_SIZE + data_len + code_len <= CODE_WINDOW && window_fits(vaddr)
}

/// The bytes of the bootstrapper's file: the file header, the header of
/// the one segment, the data blob and the code. The segment is the code;
/// it is loaded behind the headers and the blob, which share its page, and
/// the entry point is its first byte.
pub open spec fn image(vaddr: u64, data: Seq<u8>, code: Seq<u8>) -> Seq<u8> {
    let offset = (HEADERS_SIZE + data.len()) as u64;
    let entry = (vaddr + offset) as u64;
    file_header_bytes(ET_EXEC, EM_X86_64, entry, FILE_HEADER_SIZE, 1) + segment_header_bytes(
        PF_RWX,
        offset,
        entry,
        code.len() as u64,
        code.len() as u64,
    ) + data + code
}

/// Builds the bytes of the bootstrapper's file from its data blob and its
/// code. An image that a window at `vaddr` cannot hold is refused: the
/// image has to fit into one page, which has to start at `vaddr`.
pub fn write_bs_elf(vaddr: u64, data: &[u8], code: &[u8]) -> (r: Result<Vec<u8>, Error>)
    ensures
        image_fits(vaddr, data@.len(), code@.len()) ==> (r matches Ok(bytes) && bytes@ == image(
            vaddr,
            data@,
            code@,
        )),
        !image_fits(vaddr, data@.len(), code@.len()) ==> r matches Err(Error::Precondition),
{
    if !is_window(vaddr) || data.len() > CODE_WINDOW as usize || code.len() > CODE_WINDOW as usize {
        return Err(Error::Precondition);
    }
    let data_len = data.len() as u64;
    let code_len = code.len() as u64;
    if HEADERS_SIZE + data_len + code_len > CODE_WINDOW {
        return Err(Error::Precondition);
    }
    let offset: u64 = HEADERS_SIZE + data_len;
    let entry: u64 = vaddr + offset;
    let mut bytes = file_header(ET_EXEC, EM_X86_64, entry, FILE_HEADER_SIZE, 1);
    let segment = segment_header(PF_RWX, offset, entry, code_len, code_len);
    proof {
        lemma_header_sizes(
            ET_EXEC,
            EM_X86_64,
            entry,
            FILE_HEADER_SIZE,
            1,
            PF_RWX,
            offset,
            entry,
            code_len,
            code_len,
        );
    }
    append(&mut bytes, segment.as_slice());
    append(&mut bytes, data);
    append(&mut bytes, code);
    Ok(bytes)
}

/// An image is as long as its parts: 120 bytes of headers, the blob and
/// the code. The blob starts at offset 120 and the code behind it.
pub proof fn lemma_image_parts(vaddr: u64, data: Seq<u8>, code: Seq<u8>)
    ensures
        image(vaddr, data, code).len() == HEADERS_SIZE + data.len() + code.len(),
        image(vaddr, data, code).subrange(0, 4) == seq![127u8, 69, 76, 70],
        image(vaddr, data, code).subrange(HEADERS_SIZE as int, HEADERS_SIZE + data.len()) == data,
        image(vaddr, data, code).subrange(
            HEADERS_SIZE + data.len(),
            HEADERS_SIZE + data.len() + code.len(),
        ) == code,
{
    let offset = (HEADERS_SIZE + data.len()) as u64;
    let entry = (vaddr + offset) as u64;
    lemma_header_sizes(
        ET_EXEC,
        EM_X86_64,
        entry,
        FILE_HEADER_SIZE,
        1,
        PF_RWX,
        offset,
        entry,
        code.len() as u64,
        code.len() as u64,
    );
    let whole = image(vaddr, data, code);
    assert(whole.subrange(0, 4) =~= seq![127u8, 69, 76, 70]);
    assert(whole.subrange(HEADERS_SIZE as int, HEADERS_SIZE + data.len()) =~= data);
    assert(whole.subrange(HEADERS_SIZE + data.len(), HEADERS_SIZE + data.len() + code.len())
        =~= code);
}

/// What `create_bootstrapper` returns once the base and the layout are
/// known: the image of the blob and the code, `Error::Assemble` where
/// there is no code, and `Error::Precondition` where the image does not
/// fit the window.
pub open spec fn bootstrapper_image(base: u64, layout: LayoutModel) -> Result<Seq<u8>, Error> {
    match bootstrapper_code(layout, base, (base + HEADERS_SIZE) as u64) {
        Some(code) => if image_fits(base, layout.data.len(), code.len()) {
            Ok(image(base, layout.data, code))
        } else {
            Err(Error::Precondition)
        },
        None => Err(Error::Assemble),
    }
}

/// Builds the bootstrapper for the checkpoint in `checkpoint_dir`: chooses
/// the base, lays out the blob, assembles the code and builds the file's
/// bytes.
///
/// The request is refused with `Error::Precondition` where the regions
/// leave no page for the bootstrapper, and for the reasons for which there
/// is no layout. In every other case the result is what
/// `bootstrapper_image` gives for the chosen base.
pub fn create_bootstrapper(
    checkpoint_dir: &[u8],
    maps: &Vec<RegionDescriptor>,
    present: &Vec<bool>,
    files: &Vec<FileDescriptorRecord>,
) -> (r: Result<Vec<u8>, Error>)
    ensures
        (forall|b: u64| !is_base(maps.deep_view(), b)) ==> r matches Err(Error::Precondition),
        forall|base: u64| #[trigger]
            is_base(maps.deep_view(), base) ==> (match planned(
                checkpoint_dir@,
                maps.deep_view(),
                present@,
                files.deep_view(),
            ) {
                Ok(layout) => match bootstrapper_image(base, layout) {
                    Ok(bytes) => r matches Ok(b) && b@ == bytes,
                    Err(e) => r matches Err(f) && f == e,
                },
                Err(e) => r matches Err(f) && f == e,
            }),
{
    let base = match choose_base(maps) {
        Some(base) => base,
        None => {
            assert forall|b: u64| !is_base(maps.deep_view(), b) by {}
            return Err(Error::Precondition);
        },
    };
    proof {
        lemma_base_unique(maps.deep_view(), base);
    }
    let data_addr: u64 = base + HEADERS_SIZE;
    let (data, code) = assemble_bs_code(checkpoint_dir, maps, present, files, base, data_addr)?;
    write_bs_elf(base, data.as_slice(), code.as_slice())
}

/// One step of the handshake between the restoring process and the
/// bootstrapper that it has started.
#[derive(Debug, Clone, Copy, PartialEq, Eq, Structural)]
pub enum RestoreStep {
    /// Wait until the bootstrapper has stopped itself, traced or not.
    WaitStopped,
    /// Attach the tracer to the bootstrapper.
    Attach,
    /// Write both register banks of the checkpoint.
    SetRegisters,
    /// Release the bootstrapper.
    Detach,
    /// Let the process, which is now the restored target, continue.
    Resume,
    /// Print the process number of the stopped process.
    ReportPid,
    /// Wait for the process to end.
    WaitExit,
}

/// The handshake. With `hang` the process is not resumed: its number is
/// reported and it stays stopped, for a debugger to look at.
pub open spec fn handshake(hang: bool) -> Seq<RestoreStep> {
    if hang {
        seq![
            RestoreStep::WaitStopped,
            RestoreStep::Attach,
            RestoreStep::SetRegisters,
            RestoreStep::Detach,
            RestoreStep::ReportPid,
            RestoreStep::WaitExit,
        ]
    } else {
        seq![
            RestoreStep::WaitStopped,
            RestoreStep::Attach,
            RestoreStep::SetRegisters,
            RestoreStep::Detach,
            RestoreStep::Resume,
        ]
    }
}

/// How a checkpoint is restored, as a mathematical value.
pub struct RestoreModel {
    pub checkpoint_dir: Seq<u8>,
    pub regs: Seq<u8>,
    pub maps: Seq<u8>,
    pub files: Seq<u8>,
    pub bootstrapper: Seq<u8>,
    pub steps: Seq<RestoreStep>,
}

/// How a checkpoint is restored: its directory, the paths of its three
/// documents, the path at which the bootstrapper is written, and the
/// handshake once the bootstrapper runs.
#[derive(Debug, Clone, PartialEq, Eq)]
pub struct RestorePlan {
    pub checkpoint_dir: Vec<u8>,
    pub regs: Vec<u8>,
    pub maps: Vec<u8>,
    pub files: Vec<u8>,
    pub bootstrapper: Vec<u8>,
    pub steps: Vec<RestoreStep>,
}

impl View for RestorePlan {
    type V = RestoreModel;

    open spec fn view(&self) -> RestoreModel {
        RestoreModel {
            checkpoint_dir: self.checkpoint_dir@,
            regs: self.regs@,
            maps: self.maps@,
            files: self.files@,
            bootstrapper: self.bootstrapper@,
            steps: self.steps@,
        }
    }
}

/// How the checkpoint `seq` under `path` is restored.
pub open spec fn restore_of(path: Seq<u8>, seq: u64, hang: bool) -> RestoreModel {
    let dir = dir_of(path, seq as nat);
    RestoreModel {
        checkpoint_dir: dir,
        regs: joined(dir, REGS_NAME.spec_bytes()),
        maps: joined(dir, MAPS_NAME.spec_bytes()),
        files: joined(dir, FILES_NAME.spec_bytes()),
        bootstrapper: joined(dir, signature()),
        steps: handshake(hang),
    }
}

/// Plans the restore of the newest checkpoint under `path`, which the
/// sequence pointer names as `seq`. Where no checkpoint was taken there is
/// nothing to restore.
pub fn restore_checkpoint(path: &[u8], seq: u64, hang: bool) -> (r: Result<RestorePlan, Error>)
    ensures
        seq == 0 ==> r matches Err(Error::Precondition),
        seq != 0 ==> (r matches Ok(plan) && plan@ == restore_of(path@, seq, hang)),
{
    if seq == 0 {
        return Err(Error::Precondition);
    }
    let dir = checkpoint_dir(path, seq);
    let mut steps: Vec<RestoreStep> = Vec::new();
    steps.push(RestoreStep::WaitStopped);
    steps.push(RestoreStep::Attach);
    steps.push(RestoreStep::SetRegisters);
    steps.push(RestoreStep::Detach);
    if hang {
        steps.push(RestoreStep::ReportPid);
        steps.push(RestoreStep::WaitExit);
    } else {
        steps.push(RestoreStep::Resume);
    }
    assert(steps@ =~= handshake(hang));
    Ok(
        RestorePlan {
            regs: join(dir.as_slice(), REGS_NAME.as_bytes()),
            maps: join(dir.as_slice(), MAPS_NAME.as_bytes()),
            files: join(dir.as_slice(), FILES_NAME.as_bytes()),
            bootstrapper: bootstrapper_path(dir.as_slice()),
            checkpoint_dir: dir,
            steps,
        },
    )
}

/// There is at most one base for a list of regions.
pub proof fn lemma_base_unique(maps: Seq<RegionModel>, base: u64)
    requires
        is_base(maps, base),
    ensures
        forall|b: u64| is_base(maps, b) ==> b == base,
{
}

} // verus!
