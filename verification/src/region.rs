//! Descriptors of what a target holds: its virtual memory regions and its
//! open files.

use vstd::prelude::*;
use crate::bytes::bytes_eq;

verus! {

/// Permission bit: the region can be read.
pub const PERM_READ: u8 = 1;

/// Permission bit: the region can be written.
pub const PERM_WRITE: u8 = 2;

/// Permission bit: the region can be executed.
pub const PERM_EXECUTE: u8 = 4;

/// Permission bit: the region is shared with other processes.
pub const PERM_SHARED: u8 = 8;

/// Permission bit: the region is private to the process.
pub const PERM_PRIVATE: u8 = 16;

/// Where a region's contents come from, as a mathematical value.
pub enum PathModel {
    Anonymous,
    Tagged(Seq<u8>),
    File(Seq<u8>),
}

/// Where a region's contents come from.
#[derive(Debug, Clone, PartialEq, Eq)]
pub enum RegionPath {
    /// An anonymous mapping without a name.
    Anonymous,
    /// An anonymous mapping that the kernel tags, such as `[heap]`.
    Tagged(Vec<u8>),
    /// A mapping of the file at this path.
    File(Vec<u8>),
}

impl View for RegionPath {
    type V = PathModel;

    open spec fn view(&self) -> PathModel {
        match *self {
            RegionPath::Anonymous => PathModel::Anonymous,
            RegionPath::Tagged(tag) => PathModel::Tagged(tag@),
            RegionPath::File(path) => PathModel::File(path@),
        }
    }
}

impl RegionPath {
    /// Whether two paths are equal in kind and in every byte.
    pub fn same(&self, other: &RegionPath) -> (equal: bool)
        ensures
            equal == (self@ == other@),
    {
        match (self, other) {
            (RegionPath::Anonymous, RegionPath::Anonymous) => true,
            (RegionPath::Tagged(a), RegionPath::Tagged(b)) => bytes_eq(a.as_slice(), b.as_slice()),
            (RegionPath::File(a), RegionPath::File(b)) => bytes_eq(a.as_slice(), b.as_slice()),
            _ => false,
        }
    }

    /// A copy of this path.
    pub fn duplicate(&self) -> (copy: RegionPath)
        ensures
            copy@ == self@,
    {
        match self {
            RegionPath::Anonymous => RegionPath::Anonymous,
            RegionPath::Tagged(tag) => RegionPath::Tagged(tag.clone()),
            RegionPath::File(path) => RegionPath::File(path.clone()),
        }
    }
}

/// A virtual memory region, as a mathematical value.
pub struct RegionModel {
    pub low: u64,
    pub high: u64,
    pub perms: u8,
    pub offset: u64,
    pub path: PathModel,
}

/// A virtual memory region of the target: the half-open address range
/// `[low, high)`, its permission bits, and where its contents come from.
#[derive(Debug, Clone, PartialEq, Eq)]
pub struct RegionDescriptor {
    pub low: u64,
    pub high: u64,
    pub perms: u8,
    pub offset: u64,
    pub path: RegionPath,
}

impl View for RegionDescriptor {
    type V = RegionModel;

    open spec fn view(&self) -> RegionModel {
        RegionModel {
            low: self.low,
            high: self.high,
            perms: self.perms,
            offset: self.offset,
            path: self.path@,
        }
    }
}

impl DeepView for RegionDescriptor {
    type V = RegionModel;

    open spec fn deep_view(&self) -> RegionModel {
        self@
    }
}

impl RegionModel {
    /// Whether the region can be written.
    pub open spec fn writable(self) -> bool {
        self.perms & 2 != 0
    }

    /// The number of bytes in the region.
    pub open spec fn len(self) -> int {
        self.high - self.low
    }
}

impl RegionDescriptor {
    /// Whether the region can be written.
    pub fn writable(&self) -> (w: bool)
        ensures
            w == self@.writable(),
    {
        self.perms & PERM_WRITE != 0
    }

    /// Whether two descriptors are equal in every field.
    pub fn same(&self, other: &RegionDescriptor) -> (equal: bool)
        ensures
            equal == (self@ == other@),
    {
        self.low == other.low && self.high == other.high && self.perms == other.perms
            && self.offset == other.offset && self.path.same(&other.path)
    }

    /// A copy of this descriptor.
    pub fn duplicate(&self) -> (copy: RegionDescriptor)
        ensures
            copy@ == self@,
    {
        RegionDescriptor {
            low: self.low,
            high: self.high,
            perms: self.perms,
            offset: self.offset,
            path: self.path.duplicate(),
        }
    }
}

/// What an open file descriptor of the target refers to, as a mathematical value.
pub enum TargetModel {
    File(Seq<u8>),
    Other,
}

/// What an open file descriptor of the target refers to.
#[derive(Debug, Clone, PartialEq, Eq)]
pub enum FdTarget {
    /// The regular file at this absolute path.
    File(Vec<u8>),
    /// Anything else: a pipe, a socket, a device, a directory.
    Other,
}

impl View for FdTarget {
    type V = TargetModel;

    open spec fn view(&self) -> TargetModel {
        match *self {
            FdTarget::File(path) => TargetModel::File(path@),
            FdTarget::Other => TargetModel::Other,
        }
    }
}

/// An open file of the target, as a mathematical value.
pub struct FileModel {
    pub fd: i32,
    pub target: TargetModel,
    pub mode: u32,
    pub offset: u64,
}

/// An open file of the target: the descriptor's number, what it refers to,
/// the access mode flags it was opened with, and its current offset.
#[derive(Debug, Clone, PartialEq, Eq)]
pub struct FileDescriptorRecord {
    pub fd: i32,
    pub target: FdTarget,
    pub mode: u32,
    pub offset: u64,
}

impl View for FileDescriptorRecord {
    type V = FileModel;

    open spec fn view(&self) -> FileModel {
        FileModel { fd: self.fd, target: self.target@, mode: self.mode, offset: self.offset }
    }
}

impl DeepView for FileDescriptorRecord {
    type V = FileModel;

    open spec fn deep_view(&self) -> FileModel {
        self@
    }
}

impl FileModel {
    /// Whether the descriptor refers to a regular file.
    pub open spec fn is_regular(self) -> bool {
        self.target is File
    }
}

impl FdTarget {
    /// A copy of this target.
    pub fn duplicate(&self) -> (copy: FdTarget)
        ensures
            copy@ == self@,
    {
        match self {
            FdTarget::File(path) => FdTarget::File(path.clone()),
            FdTarget::Other => FdTarget::Other,
        }
    }
}

impl FileDescriptorRecord {
    /// A copy of this record.
    pub fn duplicate(&self) -> (copy: FileDescriptorRecord)
        ensures
            copy@ == self@,
    {
        FileDescriptorRecord {
            fd: self.fd,
            target: self.target.duplicate(),
            mode: self.mode,
            offset: self.offset,
        }
    }

    /// Whether the descriptor refers to a regular file.
    pub fn is_regular(&self) -> (regular: bool)
        ensures
            regular == self@.is_regular(),
    {
        match self.target {
            FdTarget::File(_) => true,
            FdTarget::Other => false,
        }
    }
}

/// The records of `all` that refer to regular files, in their order.
pub open spec fn regular_only(all: Seq<FileModel>) -> Seq<FileModel> {
    all.filter(|f: FileModel| f.is_regular())
}

/// The descriptors that refer to regular files, in their order; the rest is dropped.
pub fn regular_files(descriptors: &Vec<FileDescriptorRecord>) -> (kept: Vec<FileDescriptorRecord>)
    ensures
        kept.deep_view() == regular_only(descriptors.deep_view()),
{
    let mut kept: Vec<FileDescriptorRecord> = Vec::new();
    let ghost all = descriptors.deep_view();
    let ghost pred = |f: FileModel| f.is_regular();
    let mut i: usize = 0;
    assert(all.take(0).filter(pred) =~= Seq::<FileModel>::empty()) by {
        reveal(Seq::filter);
    }
    assert(kept.deep_view() =~= Seq::<FileModel>::empty());
    while i < descriptors.len()
        invariant
            i <= descriptors.len(),
            all == descriptors.deep_view(),
            pred == (|f: FileModel| f.is_regular()),
            kept.deep_view() == all.take(i as int).filter(pred),
        decreases descriptors.len() - i,
    {
        let record = &descriptors[i];
        proof {
            assert(all.take(i + 1) =~= all.take(i as int).push(all[i as int]));
            Seq::lemma_filter_push(all.take(i as int), all[i as int], pred);
        }
        if record.is_regular() {
            let ghost before = kept.deep_view();
            kept.push(record.duplicate());
            assert(kept.deep_view() =~= before.push(all[i as int]));
        }
        i += 1;
    }
    assert(all.take(i as int) =~= all);
    kept
}

} // verus!
