//! The data blob of the restore bootstrapper: the file paths that its code
//! refers to, and the arguments of the system calls that it makes.

use vstd::prelude::*;
use crate::bytes::{append, c_string, contains_nul, has_nul, join, joined};
use crate::decimal::{decimal, format_u64, is_digit, lemma_decimal_digits};
use crate::error::Error;
use crate::region::{
    regular_only, FdTarget, FileDescriptorRecord, FileModel, RegionDescriptor, RegionModel,
    TargetModel,
};

verus! {

/// What the bootstrapper maps for one checkpointed region: the region's
/// address, length and protection bits, and where in the data blob the path
/// of its checkpoint file starts.
#[derive(Debug, Clone, Copy, PartialEq, Eq, Structural)]
pub struct MmapArg {
    pub addr: u64,
    pub len: u64,
    pub prot: u64,
    pub path_ptr: u64,
}

/// What the bootstrapper reopens for one file of the target: the
/// descriptor's number, where in the data blob its path starts, the access
/// mode and the offset to seek to.
#[derive(Debug, Clone, Copy, PartialEq, Eq, Structural)]
pub struct OpenArg {
    pub fd: i32,
    pub path_ptr: u64,
    pub mode: u64,
    pub offset: u64,
}

/// The data blob and the system call arguments, as a mathematical value.
pub struct LayoutModel {
    pub data: Seq<u8>,
    pub mmaps: Seq<MmapArg>,
    pub opens: Seq<OpenArg>,
}

/// The data blob of a bootstrapper and the arguments that refer into it.
#[derive(Debug, Clone, PartialEq, Eq)]
pub struct Layout {
    pub data: Vec<u8>,
    pub mmaps: Vec<MmapArg>,
    pub opens: Vec<OpenArg>,
}

impl LayoutModel {
    /// Whether the arguments point into the blob, the blob is small enough
    /// and the descriptor numbers are not negative.
    pub open spec fn bounded(self) -> bool {
        &&& self.data.len() < MAX_DATA
        &&& self.opens.len() <= self.data.len()
        &&& forall|k: int|
            0 <= k < self.mmaps.len() ==> (#[trigger] self.mmaps[k]).path_ptr < self.data.len()
        &&& forall|k: int|
            0 <= k < self.opens.len() ==> (#[trigger] self.opens[k]).path_ptr < self.data.len()
        &&& forall|k: int| 0 <= k < self.opens.len() ==> (#[trigger] self.opens[k]).fd >= 0
    }
}

impl View for Layout {
    type V = LayoutModel;

    open spec fn view(&self) -> LayoutModel {
        LayoutModel { data: self.data@, mmaps: self.mmaps@, opens: self.opens@ }
    }
}

/// The path of the file that holds region `index` of the checkpoint in `cp_dir`.
pub open spec fn region_file(cp_dir: Seq<u8>, index: nat) -> Seq<u8> {
    joined(cp_dir, decimal(index))
}

/// The layout after the first `n` regions: each region whose checkpoint
/// file is present adds its file's path to the blob and one mapping.
pub open spec fn mapped(
    cp_dir: Seq<u8>,
    maps: Seq<RegionModel>,
    present: Seq<bool>,
    n: nat,
) -> LayoutModel
    decreases n,
{
    if n == 0 {
        LayoutModel { data: Seq::empty(), mmaps: Seq::empty(), opens: Seq::empty() }
    } else {
        let before = mapped(cp_dir, maps, present, (n - 1) as nat);
        let region = maps[n - 1];
        if present[n - 1] {
            LayoutModel {
                data: before.data + c_string(region_file(cp_dir, (n - 1) as nat)),
                mmaps: before.mmaps.push(
                    MmapArg {
                        addr: region.low,
                        len: (region.high - region.low) as u64,
                        prot: region.perms as u64,
                        path_ptr: before.data.len() as u64,
                    },
                ),
                opens: before.opens,
            }
        } else {
            before
        }
    }
}

/// The layout `start` after the first `n` files: each regular file adds its
/// path to the blob and one reopening.
pub open spec fn opened(start: LayoutModel, files: Seq<FileModel>, n: nat) -> LayoutModel
    decreases n,
{
    if n == 0 {
        start
    } else {
        let before = opened(start, files, (n - 1) as nat);
        let file = files[n - 1];
        match file.target {
            TargetModel::File(path) => LayoutModel {
                data: before.data + c_string(path),
                mmaps: before.mmaps,
                opens: before.opens.push(
                    OpenArg {
                        fd: file.fd,
                        path_ptr: before.data.len() as u64,
                        mode: file.mode as u64,
                        offset: file.offset,
                    },
                ),
            },
            TargetModel::Other => before,
        }
    }
}

/// Whether a request is well formed: one presence flag for each region, no
/// region that ends before it starts, no regular file with a negative
/// descriptor number.
pub open spec fn well_formed(maps: Seq<RegionModel>, present: Seq<bool>, files: Seq<FileModel>) -> bool {
    &&& present.len() == maps.len()
    &&& forall|i: int| 0 <= i < maps.len() ==> (#[trigger] maps[i]).low <= maps[i].high
    &&& forall|i: int| 0 <= i < files.len() && (#[trigger] files[i]).is_regular() ==> files[i].fd >= 0
}

/// Whether every path that goes into the blob can be a C string: none
/// holds the byte zero.
pub open spec fn paths_clean(cp_dir: Seq<u8>, present: Seq<bool>, files: Seq<FileModel>) -> bool {
    &&& (exists|i: int| 0 <= i < present.len() && present[i]) ==> !has_nul(cp_dir)
    &&& forall|i: int|
        0 <= i < files.len() ==> (match (#[trigger] files[i]).target {
            TargetModel::File(path) => !has_nul(path),
            TargetModel::Other => true,
        })
}

/// The largest data blob that is accepted, in bytes: one that is this long
/// leaves no room for code beside it in the bootstrapper's page.
pub const MAX_DATA: usize = 4096;

/// The layout of a request, or why there is none.
pub open spec fn planned(
    cp_dir: Seq<u8>,
    maps: Seq<RegionModel>,
    present: Seq<bool>,
    files: Seq<FileModel>,
) -> Result<LayoutModel, Error> {
    let whole = opened(mapped(cp_dir, maps, present, maps.len()), files, files.len());
    if !well_formed(maps, present, files) {
        Err(Error::Precondition)
    } else if !paths_clean(cp_dir, present, files) {
        Err(Error::Io)
    } else if whole.data.len() >= MAX_DATA {
        Err(Error::Precondition)
    } else {
        Ok(whole)
    }
}

/// Whether `data` holds the C string of `path` at offset `ptr`: the
/// bytes of the path, none of them zero, and then the byte zero.
pub open spec fn c_string_at(data: Seq<u8>, ptr: int, path: Seq<u8>) -> bool {
    &&& 0 <= ptr
    &&& ptr + path.len() < data.len()
    &&& data.subrange(ptr, ptr + path.len()) == path
    &&& data[ptr + path.len()] == 0
    &&& !has_nul(path)
}

/// How many of the first `n` regions have a checkpoint file.
pub open spec fn present_before(present: Seq<bool>, n: nat) -> nat
    decreases n,
{
    if n == 0 {
        0
    } else if present[n - 1] {
        present_before(present, (n - 1) as nat) + 1
    } else {
        present_before(present, (n - 1) as nat)
    }
}

/// How many of the first `n` files are regular files.
pub open spec fn regular_before(files: Seq<FileModel>, n: nat) -> nat
    decreases n,
{
    if n == 0 {
        0
    } else if files[n - 1].is_regular() {
        regular_before(files, (n - 1) as nat) + 1
    } else {
        regular_before(files, (n - 1) as nat)
    }
}

/// Whether `arg` maps `region`, which is region `index` of the checkpoint
/// in `cp_dir`, from its checkpoint file, whose path `data` holds.
pub open spec fn maps_region(
    arg: MmapArg,
    data: Seq<u8>,
    cp_dir: Seq<u8>,
    region: RegionModel,
    index: nat,
) -> bool {
    &&& arg.addr == region.low
    &&& arg.len == region.high - region.low
    &&& arg.prot == region.perms
    &&& c_string_at(data, arg.path_ptr as int, region_file(cp_dir, index))
}

/// Whether `arg` reopens `file`, whose path `data` holds.
pub open spec fn reopens_file(arg: OpenArg, data: Seq<u8>, file: FileModel) -> bool {
    &&& arg.fd == file.fd
    &&& arg.mode == file.mode
    &&& arg.offset == file.offset
    &&& file.target matches TargetModel::File(path) && c_string_at(data, arg.path_ptr as int, path)
}

/// The path of a region's checkpoint file holds the byte zero only if the
/// checkpoint directory does.
pub proof fn lemma_region_file_clean(cp_dir: Seq<u8>, index: nat)
    requires
        !has_nul(cp_dir),
    ensures
        !has_nul(region_file(cp_dir, index)),
{
    lemma_decimal_digits(index);
    let name = decimal(index);
    let path = region_file(cp_dir, index);
    if has_nul(path) {
        let i = choose|i: int| 0 <= i < path.len() && path[i] == 0;
        if i < cp_dir.len() {
            assert(cp_dir[i] == 0);
        } else if cp_dir.len() == 0 || cp_dir.last() == 47 {
            assert(is_digit(name[i - cp_dir.len()]));
        } else if i > cp_dir.len() {
            assert(is_digit(name[i - cp_dir.len() - 1]));
        }
    }
}

/// A C string that a blob holds stays where it is when the blob grows.
proof fn lemma_c_string_stays(data: Seq<u8>, more: Seq<u8>, ptr: int, path: Seq<u8>)
    requires
        c_string_at(data, ptr, path),
    ensures
        c_string_at(data + more, ptr, path),
{
    assert((data + more).subrange(ptr, ptr + path.len()) =~= data.subrange(ptr, ptr + path.len()));
}

/// A C string that the start of a blob holds is one that the blob holds.
proof fn lemma_c_string_in_prefix(data: Seq<u8>, whole: Seq<u8>, ptr: int, path: Seq<u8>)
    requires
        c_string_at(data, ptr, path),
        data.len() <= whole.len(),
        whole.subrange(0, data.len() as int) == data,
    ensures
        c_string_at(whole, ptr, path),
{
    assert(whole =~= data + whole.subrange(data.len() as int, whole.len() as int));
    lemma_c_string_stays(data, whole.subrange(data.len() as int, whole.len() as int), ptr, path);
}

/// A blob that grows by a C string holds it where the blob ended.
proof fn lemma_c_string_added(data: Seq<u8>, path: Seq<u8>)
    requires
        !has_nul(path),
    ensures
        c_string_at(data + c_string(path), data.len() as int, path),
{
    let whole = data + c_string(path);
    assert(whole.subrange(data.len() as int, (data.len() + path.len()) as int) =~= path);
}

/// After the first `n` regions the layout maps each region that has a
/// checkpoint file, in order, and nothing else.
proof fn lemma_mapped(cp_dir: Seq<u8>, maps: Seq<RegionModel>, present: Seq<bool>, n: nat)
    requires
        n <= maps.len(),
        well_formed(maps, present, Seq::empty()),
        (exists|i: int| 0 <= i < present.len() && present[i]) ==> !has_nul(cp_dir),
        mapped(cp_dir, maps, present, n).data.len() <= u64::MAX,
    ensures
        mapped(cp_dir, maps, present, n).mmaps.len() == present_before(present, n),
        mapped(cp_dir, maps, present, n).opens.len() == 0,
        forall|i: int|
            0 <= i < n && present[i] ==> maps_region(
                mapped(cp_dir, maps, present, n).mmaps[present_before(present, i as nat) as int],
                mapped(cp_dir, maps, present, n).data,
                cp_dir,
                #[trigger] maps[i],
                i as nat,
            ),
        forall|i: int| 0 <= i <= n ==> #[trigger] present_before(present, i as nat) <= present_before(
            present,
            n,
        ),
    decreases n,
{
    if n > 0 {
        let before = mapped(cp_dir, maps, present, (n - 1) as nat);
        let after = mapped(cp_dir, maps, present, n);
        lemma_mapped(cp_dir, maps, present, (n - 1) as nat);
        if present[n - 1] {
            let path = region_file(cp_dir, (n - 1) as nat);
            lemma_region_file_clean(cp_dir, (n - 1) as nat);
            lemma_c_string_added(before.data, path);
            assert forall|i: int| 0 <= i < n && present[i] implies maps_region(
                after.mmaps[present_before(present, i as nat) as int],
                after.data,
                cp_dir,
                #[trigger] maps[i],
                i as nat,
            ) by {
                if i < n - 1 {
                    assert(present_before(present, i as nat) < present_before(present, (n - 1) as nat))
                        by {
                        lemma_present_grows(present, i as nat, (n - 1) as nat);
                    }
                    assert(maps_region(
                        before.mmaps[present_before(present, i as nat) as int],
                        before.data,
                        cp_dir,
                        maps[i],
                        i as nat,
                    ));
                    lemma_c_string_stays(
                        before.data,
                        c_string(path),
                        before.mmaps[present_before(present, i as nat) as int].path_ptr as int,
                        region_file(cp_dir, i as nat),
                    );
                }
            }
        }
    }
}

/// A region that has a checkpoint file counts.
proof fn lemma_present_grows(present: Seq<bool>, i: nat, n: nat)
    requires
        i < n,
        present[i as int],
    ensures
        present_before(present, i) < present_before(present, n),
    decreases n,
{
    if i + 1 < n {
        lemma_present_grows(present, i, (n - 1) as nat);
    }
}

/// A regular file counts.
proof fn lemma_regular_grows(files: Seq<FileModel>, j: nat, n: nat)
    requires
        j < n,
        files[j as int].is_regular(),
    ensures
        regular_before(files, j) < regular_before(files, n),
    decreases n,
{
    if j + 1 < n {
        lemma_regular_grows(files, j, (n - 1) as nat);
    }
}

/// After the first `n` files the layout reopens each regular file, in
/// order, and still maps what it mapped.
proof fn lemma_opened(start: LayoutModel, files: Seq<FileModel>, n: nat)
    requires
        n <= files.len(),
        start.opens.len() == 0,
        paths_clean(Seq::empty(), Seq::empty(), files),
        opened(start, files, n).data.len() <= u64::MAX,
    ensures
        opened(start, files, n).mmaps == start.mmaps,
        opened(start, files, n).opens.len() == regular_before(files, n),
        start.data.len() <= opened(start, files, n).data.len(),
        opened(start, files, n).data.subrange(0, start.data.len() as int) == start.data,
        forall|j: int|
            0 <= j < n && (#[trigger] files[j]).is_regular() ==> reopens_file(
                opened(start, files, n).opens[regular_before(files, j as nat) as int],
                opened(start, files, n).data,
                files[j],
            ),
    decreases n,
{
    if n == 0 {
        assert(start.data.subrange(0, start.data.len() as int) =~= start.data);
    } else {
        let before = opened(start, files, (n - 1) as nat);
        let after = opened(start, files, n);
        let file = files[n - 1];
        lemma_opened(start, files, (n - 1) as nat);
        match file.target {
            TargetModel::File(path) => {
                lemma_c_string_added(before.data, path);
                assert(after.data.subrange(0, start.data.len() as int) =~= before.data.subrange(
                    0,
                    start.data.len() as int,
                ));
                assert forall|j: int| 0 <= j < n && (#[trigger] files[j]).is_regular() implies reopens_file(
                    after.opens[regular_before(files, j as nat) as int],
                    after.data,
                    files[j],
                ) by {
                    if j < n - 1 {
                        lemma_regular_grows(files, j as nat, (n - 1) as nat);
                        let arg = before.opens[regular_before(files, j as nat) as int];
                        match files[j].target {
                            TargetModel::File(p) => {
                                lemma_c_string_stays(before.data, c_string(path), arg.path_ptr as int, p);
                            },
                            TargetModel::Other => {},
                        }
                    }
                }
            },
            TargetModel::Other => {},
        }
    }
}

/// In a layout, every argument points at the path it is for: each region
/// that has a checkpoint file is mapped from that file, each regular file
/// is reopened at its path, in the order of the request, and every path
/// stands in the blob as a C string.
pub proof fn lemma_layout_reads_paths(
    cp_dir: Seq<u8>,
    maps: Seq<RegionModel>,
    present: Seq<bool>,
    files: Seq<FileModel>,
)
    ensures
        planned(cp_dir, maps, present, files) matches Ok(layout) ==> {
            &&& layout.mmaps.len() == present_before(present, maps.len())
            &&& layout.opens.len() == regular_before(files, files.len())
            &&& forall|i: int|
                0 <= i < maps.len() && present[i] ==> maps_region(
                    layout.mmaps[present_before(present, i as nat) as int],
                    layout.data,
                    cp_dir,
                    #[trigger] maps[i],
                    i as nat,
                )
            &&& forall|j: int|
                0 <= j < files.len() && (#[trigger] files[j]).is_regular() ==> reopens_file(
                    layout.opens[regular_before(files, j as nat) as int],
                    layout.data,
                    files[j],
                )
        },
{
    if planned(cp_dir, maps, present, files) is Ok {
        let start = mapped(cp_dir, maps, present, maps.len());
        let layout = opened(start, files, files.len());
        assert(paths_clean(Seq::empty(), Seq::empty(), files));
        assert(well_formed(maps, present, Seq::empty()));
        lemma_opened_grows(start, files, files.len());
        lemma_mapped(cp_dir, maps, present, maps.len());
        lemma_opened(start, files, files.len());
        assert forall|i: int| 0 <= i < maps.len() && present[i] implies maps_region(
            layout.mmaps[present_before(present, i as nat) as int],
            layout.data,
            cp_dir,
            #[trigger] maps[i],
            i as nat,
        ) by {
            lemma_present_grows(present, i as nat, maps.len());
            let arg = start.mmaps[present_before(present, i as nat) as int];
            assert(maps_region(arg, start.data, cp_dir, maps[i], i as nat));
            lemma_c_string_in_prefix(
                start.data,
                layout.data,
                arg.path_ptr as int,
                region_file(cp_dir, i as nat),
            );
        }
    }
}

/// The blob only grows as files are added.
proof fn lemma_opened_grows(start: LayoutModel, files: Seq<FileModel>, n: nat)
    requires
        n <= files.len(),
    ensures
        start.data.len() <= opened(start, files, n).data.len(),
    decreases n,
{
    if n > 0 {
        lemma_opened_grows(start, files, (n - 1) as nat);
    }
}

/// The layout after `n` files depends on those files alone.
proof fn lemma_opened_same(start: LayoutModel, a: Seq<FileModel>, b: Seq<FileModel>, n: nat)
    requires
        n <= a.len(),
        n <= b.len(),
        forall|k: int| 0 <= k < n ==> a[k] == b[k],
    ensures
        opened(start, a, n) == opened(start, b, n),
    decreases n,
{
    if n > 0 {
        lemma_opened_same(start, a, b, (n - 1) as nat);
    }
}

/// The regular files among some files are those of the files that are regular.
proof fn lemma_regular_members(files: Seq<FileModel>)
    ensures
        forall|f: FileModel| #[trigger]
            regular_only(files).contains(f) <==> files.contains(f) && f.is_regular(),
    decreases files.len(),
{
    let pred = |f: FileModel| f.is_regular();
    if files.len() == 0 {
        assert(regular_only(files) =~= Seq::<FileModel>::empty()) by {
            reveal(Seq::filter);
        }
    } else {
        let head = files.drop_last();
        let last = files.last();
        lemma_regular_members(head);
        assert(files =~= head.push(last));
        Seq::lemma_filter_push(head, last, pred);
        assert forall|f: FileModel| #[trigger]
            regular_only(files).contains(f) <==> files.contains(f) && f.is_regular() by {
            if regular_only(files).contains(f) {
                let i = choose|i: int| 0 <= i < regular_only(files).len() && regular_only(files)[i] == f;
                if i < regular_only(head).len() {
                    assert(regular_only(head)[i] == f);
                    assert(regular_only(head).contains(f));
                    let j = choose|j: int| 0 <= j < head.len() && head[j] == f;
                    assert(files[j] == f);
                } else {
                    assert(files[files.len() - 1] == f);
                }
            }
            if files.contains(f) && f.is_regular() {
                let j = choose|j: int| 0 <= j < files.len() && files[j] == f;
                if j < head.len() {
                    assert(head[j] == f);
                    assert(regular_only(head).contains(f));
                    let i = choose|i: int| 0 <= i < regular_only(head).len() && regular_only(head)[i] == f;
                    assert(regular_only(files)[i] == f);
                } else {
                    assert(regular_only(files)[regular_only(files).len() - 1] == f);
                }
            }
        }
    }
}

/// The layout after all files is the layout after the regular files among them.
proof fn lemma_opened_regular(start: LayoutModel, files: Seq<FileModel>)
    ensures
        opened(start, files, files.len()) == opened(
            start,
            regular_only(files),
            regular_only(files).len(),
        ),
    decreases files.len(),
{
    let pred = |f: FileModel| f.is_regular();
    if files.len() == 0 {
        assert(regular_only(files) =~= Seq::<FileModel>::empty()) by {
            reveal(Seq::filter);
        }
    } else {
        let head = files.drop_last();
        let last = files.last();
        lemma_opened_regular(start, head);
        assert(files =~= head.push(last));
        Seq::lemma_filter_push(head, last, pred);
        lemma_opened_same(start, files, head, head.len());
        if last.is_regular() {
            lemma_opened_same(start, regular_only(files), regular_only(head), regular_only(head).len());
        }
    }
}

/// A descriptor that refers to no regular file adds nothing to a
/// bootstrapper: the layout of a request, and the refusal where there is
/// none, are those of the request with the regular files alone.
pub proof fn lemma_other_descriptors_add_nothing(
    cp_dir: Seq<u8>,
    maps: Seq<RegionModel>,
    present: Seq<bool>,
    files: Seq<FileModel>,
)
    ensures
        planned(cp_dir, maps, present, files) == planned(cp_dir, maps, present, regular_only(files)),
{
    let kept = regular_only(files);
    lemma_regular_members(files);
    lemma_opened_regular(mapped(cp_dir, maps, present, maps.len()), files);
    assert((forall|i: int| 0 <= i < files.len() && (#[trigger] files[i]).is_regular() ==> files[i].fd >= 0)
        <==> (forall|i: int| 0 <= i < kept.len() && (#[trigger] kept[i]).is_regular() ==> kept[i].fd
        >= 0)) by {
        if forall|i: int| 0 <= i < files.len() && (#[trigger] files[i]).is_regular() ==> files[i].fd >= 0 {
            assert forall|i: int| 0 <= i < kept.len() && (#[trigger] kept[i]).is_regular() implies kept[i].fd
                >= 0 by {
                assert(kept.contains(kept[i]));
                let j = choose|j: int| 0 <= j < files.len() && files[j] == kept[i];
                assert(files[j].is_regular());
            }
        }
        if forall|i: int| 0 <= i < kept.len() && (#[trigger] kept[i]).is_regular() ==> kept[i].fd >= 0 {
            assert forall|i: int| 0 <= i < files.len() && (#[trigger] files[i]).is_regular() implies files[i].fd
                >= 0 by {
                assert(files.contains(files[i]));
                assert(kept.contains(files[i]));
                let j = choose|j: int| 0 <= j < kept.len() && kept[j] == files[i];
                assert(kept[j].is_regular());
            }
        }
    }
    assert(well_formed(maps, present, files) == well_formed(maps, present, kept));
    assert(paths_clean(cp_dir, present, files) == paths_clean(cp_dir, present, kept)) by {
        if paths_clean(cp_dir, present, files) {
            assert forall|i: int| 0 <= i < kept.len() implies (match (#[trigger] kept[i]).target {
                TargetModel::File(path) => !has_nul(path),
                TargetModel::Other => true,
            }) by {
                assert(kept.contains(kept[i]));
                let j = choose|j: int| 0 <= j < files.len() && files[j] == kept[i];
                assert(files[j].target == kept[i].target);
            }
        }
        if paths_clean(cp_dir, present, kept) {
            assert forall|i: int| 0 <= i < files.len() implies (match (#[trigger] files[i]).target {
                TargetModel::File(path) => !has_nul(path),
                TargetModel::Other => true,
            }) by {
                if files[i].is_regular() {
                    assert(files.contains(files[i]));
                    assert(kept.contains(files[i]));
                    let j = choose|j: int| 0 <= j < kept.len() && kept[j] == files[i];
                    assert(kept[j].target == files[i].target);
                }
            }
        }
    }
}

/// After the first `n` regions every mapping points into the blob.
proof fn lemma_mapped_bounded(cp_dir: Seq<u8>, maps: Seq<RegionModel>, present: Seq<bool>, n: nat)
    requires
        mapped(cp_dir, maps, present, n).data.len() <= u64::MAX,
    ensures
        mapped(cp_dir, maps, present, n).opens.len() == 0,
        forall|k: int|
            0 <= k < mapped(cp_dir, maps, present, n).mmaps.len() ==> (#[trigger] mapped(
                cp_dir,
                maps,
                present,
                n,
            ).mmaps[k]).path_ptr < mapped(cp_dir, maps, present, n).data.len(),
    decreases n,
{
    if n > 0 {
        lemma_mapped_bounded(cp_dir, maps, present, (n - 1) as nat);
    }
}

/// After the first `n` files every argument points into the blob, no
/// reopened descriptor has a negative number, and there are no more
/// reopenings than the blob has grown by bytes.
proof fn lemma_opened_bounded(start: LayoutModel, files: Seq<FileModel>, n: nat)
    requires
        n <= files.len(),
        start.opens.len() == 0,
        forall|k: int| 0 <= k < start.mmaps.len() ==> (#[trigger] start.mmaps[k]).path_ptr < start.data.len(),
        forall|i: int| 0 <= i < files.len() && (#[trigger] files[i]).is_regular() ==> files[i].fd >= 0,
        opened(start, files, n).data.len() <= u64::MAX,
    ensures
        start.data.len() + opened(start, files, n).opens.len() <= opened(start, files, n).data.len(),
        forall|k: int|
            0 <= k < opened(start, files, n).mmaps.len() ==> (#[trigger] opened(start, files, n).mmaps[k]).path_ptr
                < opened(start, files, n).data.len(),
        forall|k: int|
            0 <= k < opened(start, files, n).opens.len() ==> (#[trigger] opened(start, files, n).opens[k]).path_ptr
                < opened(start, files, n).data.len(),
        forall|k: int|
            0 <= k < opened(start, files, n).opens.len() ==> (#[trigger] opened(start, files, n).opens[k]).fd
                >= 0,
    decreases n,
{
    if n > 0 {
        lemma_opened_bounded(start, files, (n - 1) as nat);
        assert(files[n - 1].is_regular() ==> files[n - 1].fd >= 0);
    }
}

/// Every layout is bounded: its arguments point into the blob, the blob
/// is smaller than a page, and no reopened descriptor has a negative number.
pub proof fn lemma_planned_bounded(
    cp_dir: Seq<u8>,
    maps: Seq<RegionModel>,
    present: Seq<bool>,
    files: Seq<FileModel>,
)
    ensures
        planned(cp_dir, maps, present, files) matches Ok(layout) ==> layout.bounded(),
{
    if planned(cp_dir, maps, present, files) is Ok {
        let start = mapped(cp_dir, maps, present, maps.len());
        lemma_opened_grows(start, files, files.len());
        lemma_mapped_bounded(cp_dir, maps, present, maps.len());
        lemma_opened_bounded(start, files, files.len());
    }
}

/// Whether the request is well formed.
fn check_well_formed(
    maps: &Vec<RegionDescriptor>,
    present: &Vec<bool>,
    files: &Vec<FileDescriptorRecord>,
) -> (ok: bool)
    ensures
        ok == well_formed(maps.deep_view(), present@, files.deep_view()),
{
    if present.len() != maps.len() {
        return false;
    }
    let mut i: usize = 0;
    while i < maps.len()
        invariant
            i <= maps.len(),
            forall|k: int|
                0 <= k < i ==> (#[trigger] maps.deep_view()[k]).low <= maps.deep_view()[k].high,
        decreases maps.len() - i,
    {
        if maps[i].low > maps[i].high {
            assert(maps.deep_view()[i as int].low > maps.deep_view()[i as int].high);
            return false;
        }
        i += 1;
    }
    let mut j: usize = 0;
    while j < files.len()
        invariant
            j <= files.len(),
            forall|k: int|
                0 <= k < j && (#[trigger] files.deep_view()[k]).is_regular() ==> files.deep_view()[k].fd
                    >= 0,
        decreases files.len() - j,
    {
        if files[j].is_regular() && files[j].fd < 0 {
            assert(files.deep_view()[j as int].is_regular() && files.deep_view()[j as int].fd < 0);
            return false;
        }
        j += 1;
    }
    true
}

/// Whether every path that goes into the blob can be a C string.
fn check_paths_clean(cp_dir: &[u8], present: &Vec<bool>, files: &Vec<FileDescriptorRecord>) -> (ok:
    bool)
    ensures
        ok == paths_clean(cp_dir@, present@, files.deep_view()),
{
    let mut any: bool = false;
    let mut i: usize = 0;
    while i < present.len()
        invariant
            i <= present.len(),
            any == (exists|k: int| 0 <= k < i && present@[k]),
        decreases present.len() - i,
    {
        if present[i] {
            any = true;
        }
        i += 1;
    }
    if any && contains_nul(cp_dir) {
        return false;
    }
    let mut j: usize = 0;
    while j < files.len()
        invariant
            j <= files.len(),
            forall|k: int|
                0 <= k < j ==> (match (#[trigger] files.deep_view()[k]).target {
                    TargetModel::File(path) => !has_nul(path),
                    TargetModel::Other => true,
                }),
        decreases files.len() - j,
    {
        match &files[j].target {
            FdTarget::File(path) => {
                if contains_nul(path.as_slice()) {
                    assert(files.deep_view()[j as int].target == TargetModel::File(path@));
                    return false;
                }
            },
            FdTarget::Other => {},
        }
        j += 1;
    }
    true
}

/// Lays out the data blob of a bootstrapper for the checkpoint in `cp_dir`.
///
/// `present[i]` says whether the checkpoint holds a file for region `i`; a
/// region without one is left out. Of `files`, those that refer to regular
/// files are reopened. The request is refused with `Error::Precondition`
/// where it is not well formed or the blob would fill the bootstrapper's
/// page, and with `Error::Io` where a path holds the byte zero.
pub fn plan_layout(
    cp_dir: &[u8],
    maps: &Vec<RegionDescriptor>,
    present: &Vec<bool>,
    files: &Vec<FileDescriptorRecord>,
) -> (r: Result<Layout, Error>)
    ensures
        match planned(cp_dir@, maps.deep_view(), present@, files.deep_view()) {
            Ok(model) => r matches Ok(layout) && layout@ == model,
            Err(e) => r == Err::<Layout, Error>(e),
        },
        r matches Ok(layout) ==> layout@.bounded(),
{
    if !check_well_formed(maps, present, files) {
        return Err(Error::Precondition);
    }
    if !check_paths_clean(cp_dir, present, files) {
        return Err(Error::Io);
    }
    let mut layout = Layout { data: Vec::new(), mmaps: Vec::new(), opens: Vec::new() };
    let mut i: usize = 0;
    while i < maps.len()
        invariant
            i <= maps.len(),
            present.len() == maps.len(),
            well_formed(maps.deep_view(), present@, files.deep_view()),
            layout@ == mapped(cp_dir@, maps.deep_view(), present@, i as nat),
            layout.opens@.len() == 0,
            forall|k: int|
                0 <= k < layout.mmaps@.len() ==> (#[trigger] layout.mmaps@[k]).path_ptr
                    < layout.data@.len(),
        decreases maps.len() - i,
    {
        if present[i] {
            let region = &maps[i];
            assert(maps.deep_view()[i as int] == region@);
            let arg = MmapArg {
                addr: region.low,
                len: region.high - region.low,
                prot: region.perms as u64,
                path_ptr: layout.data.len() as u64,
            };
            let name = format_u64(i as u64);
            let path = join(cp_dir, name.as_slice());
            append(&mut layout.data, path.as_slice());
            layout.data.push(0);
            layout.mmaps.push(arg);
        }
        i += 1;
    }
    let ghost start = layout@;
    let mut j: usize = 0;
    while j < files.len()
        invariant
            j <= files.len(),
            layout@ == opened(start, files.deep_view(), j as nat),
            well_formed(maps.deep_view(), present@, files.deep_view()),
            layout.opens@.len() <= layout.data@.len(),
            forall|k: int|
                0 <= k < layout.mmaps@.len() ==> (#[trigger] layout.mmaps@[k]).path_ptr
                    < layout.data@.len(),
            forall|k: int|
                0 <= k < layout.opens@.len() ==> (#[trigger] layout.opens@[k]).path_ptr
                    < layout.data@.len(),
            forall|k: int| 0 <= k < layout.opens@.len() ==> (#[trigger] layout.opens@[k]).fd >= 0,
        decreases files.len() - j,
    {
        let file = &files[j];
        assert(files.deep_view()[j as int] == file@);
        match &file.target {
            FdTarget::File(path) => {
                let arg = OpenArg {
                    fd: file.fd,
                    path_ptr: layout.data.len() as u64,
                    mode: file.mode as u64,
                    offset: file.offset,
                };
                append(&mut layout.data, path.as_slice());
                layout.data.push(0);
                layout.opens.push(arg);
            },
            FdTarget::Other => {},
        }
        j += 1;
    }
    if layout.data.len() >= MAX_DATA {
        return Err(Error::Precondition);
    }
    Ok(layout)
}

} // verus!
