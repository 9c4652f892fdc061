//! The two headers of the bootstrapper's executable file. They are laid
//! out by `goblin` and written out by `scroll`; that the bytes are those
//! of the ELF format is stated of the two crates and is not proved.

use vstd::prelude::*;
use goblin::container::{Container, Ctx, Endian};
use goblin::elf::header::header64;
use goblin::elf::program_header::program_header64;
use goblin::elf::{Header, ProgramHeader};
use scroll::Pwrite;

verus! {

/// The `width` bytes of `value`, least significant byte first.
pub open spec fn le_bytes(value: nat, width: nat) -> Seq<u8>
    decreases width,
{
    if width == 0 {
        Seq::empty()
    } else {
        seq![(value % 256) as u8] + le_bytes(value / 256, (width - 1) as nat)
    }
}

/// The first 16 bytes of the file header: the magic number, then the
/// marks of a 64-bit, little-endian file of the current version with no
/// special ABI, then padding.
pub open spec fn ident_bytes() -> Seq<u8> {
    seq![127u8, 69, 76, 70, 2, 1, 1, 0, 0, 0, 0, 0, 0, 0, 0, 0]
}

/// The bytes of the file header of a little-endian 64-bit ELF file with
/// the given object type, machine, entry point, program header offset and
/// program header count. The file has version 1, no section headers and no
/// flags; the sizes of the file header, of a program header and of a
/// section header are 64, 56 and 64.
pub open spec fn file_header_bytes(
    kind: u16,
    machine: u16,
    entry: u64,
    ph_offset: u64,
    ph_count: u16,
) -> Seq<u8> {
    ident_bytes() + le_bytes(kind as nat, 2) + le_bytes(machine as nat, 2) + le_bytes(1, 4)
        + le_bytes(entry as nat, 8) + le_bytes(ph_offset as nat, 8) + le_bytes(0, 8) + le_bytes(0, 4)
        + le_bytes(64, 2) + le_bytes(56, 2) + le_bytes(ph_count as nat, 2) + le_bytes(64, 2)
        + le_bytes(0, 2) + le_bytes(0, 2)
}

/// The bytes of the 64-bit little-endian program header of a loadable
/// segment with the given flags, file offset, virtual address, size in the
/// file and size in memory. The segment has type 1, physical address 0 and
/// an alignment of two megabytes.
pub open spec fn segment_header_bytes(
    flags: u32,
    offset: u64,
    vaddr: u64,
    file_size: u64,
    mem_size: u64,
) -> Seq<u8> {
    le_bytes(1, 4) + le_bytes(flags as nat, 4) + le_bytes(offset as nat, 8) + le_bytes(
        vaddr as nat,
        8,
    ) + le_bytes(0, 8) + le_bytes(file_size as nat, 8) + le_bytes(mem_size as nat, 8) + le_bytes(
        0x20_0000,
        8,
    )
}

/// A value takes as many bytes as it is given.
pub proof fn lemma_le_bytes_len(value: nat, width: nat)
    ensures
        le_bytes(value, width).len() == width,
    decreases width,
{
    if width > 0 {
        lemma_le_bytes_len(value / 256, (width - 1) as nat);
    }
}

/// The file header takes 64 bytes and the program header 56.
pub proof fn lemma_header_sizes(
    kind: u16,
    machine: u16,
    entry: u64,
    ph_offset: u64,
    ph_count: u16,
    flags: u32,
    offset: u64,
    vaddr: u64,
    file_size: u64,
    mem_size: u64,
)
    ensures
        file_header_bytes(kind, machine, entry, ph_offset, ph_count).len() == 64,
        segment_header_bytes(flags, offset, vaddr, file_size, mem_size).len() == 56,
{
    lemma_le_bytes_len(kind as nat, 2);
    lemma_le_bytes_len(machine as nat, 2);
    lemma_le_bytes_len(1, 4);
    lemma_le_bytes_len(entry as nat, 8);
    lemma_le_bytes_len(ph_offset as nat, 8);
    lemma_le_bytes_len(0, 8);
    lemma_le_bytes_len(0, 4);
    lemma_le_bytes_len(64, 2);
    lemma_le_bytes_len(56, 2);
    lemma_le_bytes_len(ph_count as nat, 2);
    lemma_le_bytes_len(0, 2);
    lemma_le_bytes_len(flags as nat, 4);
    lemma_le_bytes_len(offset as nat, 8);
    lemma_le_bytes_len(vaddr as nat, 8);
    lemma_le_bytes_len(file_size as nat, 8);
    lemma_le_bytes_len(mem_size as nat, 8);
    lemma_le_bytes_len(0x20_0000, 8);
}

/// `goblin`'s `Header::new` for a little-endian 64-bit file, with five
/// fields replaced, turned into a `header64::Header` and written out by
/// `scroll`'s `pwrite`: the fields in the order of the ELF format, each
/// least significant byte first.
#[verifier::external_body]
pub(crate) fn file_header(
    kind: u16,
    machine: u16,
    entry: u64,
    ph_offset: u64,
    ph_count: u16,
) -> (bytes: Vec<u8>)
    ensures
        bytes@ == file_header_bytes(kind, machine, entry, ph_offset, ph_count),
{
    let header: header64::Header = Header {
        e_type: kind,
        e_machine: machine,
        e_entry: entry,
        e_phoff: ph_offset,
        e_phnum: ph_count,
        ..Header::new(Ctx::new(Container::Big, Endian::Little))
    }.into();
    let mut bytes = vec![0u8; header64::SIZEOF_EHDR];
    bytes.pwrite(header, 0).unwrap();
    bytes
}

/// `goblin`'s `ProgramHeader::new`, with five fields replaced, turned into
/// a `program_header64::ProgramHeader` and written out little-endian by
/// `scroll`'s `pwrite_with`: the fields in the order of the ELF format,
/// each least significant byte first.
#[verifier::external_body]
pub(crate) fn segment_header(
    flags: u32,
    offset: u64,
    vaddr: u64,
    file_size: u64,
    mem_size: u64,
) -> (bytes: Vec<u8>)
    ensures
        bytes@ == segment_header_bytes(flags, offset, vaddr, file_size, mem_size),
{
    let header: program_header64::ProgramHeader = ProgramHeader {
        p_flags: flags,
        p_offset: offset,
        p_vaddr: vaddr,
        p_filesz: file_size,
        p_memsz: mem_size,
        ..ProgramHeader::new()
    }.into();
    let mut bytes = vec![0u8; program_header64::SIZEOF_PHDR];
    bytes.pwrite_with(header, 0, scroll::LE).unwrap();
    bytes
}

} // verus!
