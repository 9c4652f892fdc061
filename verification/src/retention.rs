//! What holds of the checkpoints on disk: the ring of the newest ones that
//! culling leaves, and the names by which they are found again.

use vstd::prelude::*;
use vstd::set_lib::{lemma_int_range, lemma_len_subset, set_int_range};
use crate::bytes::joined;
use vstd::string::StringSliceAdditionalSpecFns;
use crate::capture::{
    capture_of, distinct_regions, first_match, idle_since, lemma_first_match, lemma_idle_target,
    CaptureModel, ObservationModel,
};
use crate::compat::RegistersModel;
use crate::checkpoint::{culled, dir_of, persist_ops, sequence_of, FsOpModel, SEQ_NAME};
use crate::layout::{lemma_layout_reads_paths, maps_region, planned, present_before};
use crate::region::{FileModel, RegionModel};
use crate::decimal::{decimal, lemma_decimal_injective, lemma_parse_format};
use crate::error::Error;

verus! {

/// The checkpoints that stay of `dirs` when the ring holds `max_cps` and
/// `seq` is the newest.
pub open spec fn after_cull(dirs: Set<int>, seq: nat, max_cps: nat) -> Set<int> {
    Set::new(|cp: int| dirs.contains(cp) && !(cp >= 0 && culled(seq, max_cps, cp as nat)))
}

/// The checkpoints on disk after `n` rounds from an empty root, a round
/// being checkpoint `n` taken and then old checkpoints culled.
pub open spec fn after_rounds(n: nat, max_cps: nat) -> Set<int>
    decreases n,
{
    if n == 0 {
        Set::empty()
    } else {
        after_cull(after_rounds((n - 1) as nat, max_cps).insert(n as int), n, max_cps)
    }
}

/// The `max_cps` newest checkpoints when `seq` is the newest, or all if
/// there are fewer.
pub open spec fn newest(seq: nat, max_cps: nat) -> Set<int> {
    Set::new(|cp: int| 1 <= cp <= seq && cp + max_cps > seq)
}

/// Two entries of one directory that have the same path have the same name.
pub proof fn lemma_joined_injective(dir: Seq<u8>, a: Seq<u8>, b: Seq<u8>)
    requires
        joined(dir, a) == joined(dir, b),
    ensures
        a == b,
{
    let prefix = if dir.len() == 0 || dir.last() == 47 {
        dir
    } else {
        dir.push(47)
    };
    assert(joined(dir, a) == prefix + a);
    assert(joined(dir, b) == prefix + b);
    assert(a =~= (prefix + a).subrange(prefix.len() as int, (prefix + a).len() as int));
    assert(b =~= (prefix + b).subrange(prefix.len() as int, (prefix + b).len() as int));
}

/// Checkpoints with different numbers have different directories.
pub proof fn lemma_dirs_distinct(root: Seq<u8>, a: nat, b: nat)
    requires
        a != b,
    ensures
        dir_of(root, a) != dir_of(root, b),
{
    if dir_of(root, a) == dir_of(root, b) {
        lemma_joined_injective(root, decimal(a), decimal(b));
        lemma_decimal_injective(a, b);
    }
}

/// Culling never removes the newest checkpoint, whatever the ring.
pub proof fn lemma_cull_never_takes_newest(seq: nat, max_cps: nat, cp: nat)
    requires
        culled(seq, max_cps, cp),
    ensures
        cp < seq,
        !culled(seq, max_cps, seq),
{
}

/// Culling removes neither the directory of the newest checkpoint nor
/// that of any of the `max_cps` newest.
pub proof fn lemma_cull_spares_newest(root: Seq<u8>, seq: nat, max_cps: nat, cp: nat, kept: nat)
    requires
        culled(seq, max_cps, cp),
        kept <= seq < kept + max_cps,
    ensures
        !culled(seq, max_cps, kept),
        dir_of(root, cp) != dir_of(root, kept),
        dir_of(root, cp) != dir_of(root, seq),
{
    lemma_dirs_distinct(root, cp, kept);
    lemma_dirs_distinct(root, cp, seq);
}

/// After culling, the newest checkpoint is among those that remain,
/// whatever the ring.
pub proof fn lemma_cull_keeps_newest(dirs: Set<int>, seq: nat, max_cps: nat)
    requires
        dirs.contains(seq as int),
    ensures
        after_cull(dirs, seq, max_cps).contains(seq as int),
{
}

/// After culling with a ring of `max_cps` checkpoints, at most `max_cps`
/// checkpoints remain.
pub proof fn lemma_cull_bound(dirs: Set<int>, seq: nat, max_cps: nat)
    requires
        max_cps >= 1,
        forall|cp: int| dirs.contains(cp) ==> 0 <= cp <= seq,
    ensures
        after_cull(dirs, seq, max_cps).finite(),
        after_cull(dirs, seq, max_cps).len() <= max_cps,
{
    let low: int = if seq >= max_cps {
        seq as int - max_cps as int + 1
    } else {
        0
    };
    let high: int = seq as int + 1;
    lemma_int_range(low, high);
    assert(after_cull(dirs, seq, max_cps).subset_of(set_int_range(low, high)));
    lemma_len_subset(after_cull(dirs, seq, max_cps), set_int_range(low, high));
}

/// After any number of rounds from an empty root, with a ring of at least
/// one checkpoint, the checkpoints on disk are exactly the `max_cps`
/// newest: their numbers are contiguous and end at the newest.
pub proof fn lemma_rounds_keep_newest(n: nat, max_cps: nat)
    requires
        max_cps >= 1,
    ensures
        after_rounds(n, max_cps) == newest(n, max_cps),
    decreases n,
{
    if n == 0 {
        assert(after_rounds(n, max_cps) =~= newest(n, max_cps));
    } else {
        lemma_rounds_keep_newest((n - 1) as nat, max_cps);
        assert(after_rounds(n, max_cps) =~= newest(n, max_cps));
    }
}

/// A ring of one checkpoint holds exactly the newest one after every round.
pub proof fn lemma_ring_of_one(n: nat)
    requires
        n >= 1,
    ensures
        after_rounds(n, 1) == set![n as int],
{
    lemma_rounds_keep_newest(n, 1);
    assert(newest(n, 1) =~= set![n as int]);
}

/// The sequence pointer that checkpoint `seq` writes reads back as `seq`.
pub proof fn lemma_pointer_round_trip(seq: u64)
    ensures
        sequence_of(decimal(seq as nat)) == Ok::<u64, Error>(seq),
{
    lemma_parse_format(seq);
    crate::decimal::lemma_decimal_digits(seq as nat);
}

/// The sequence pointer is written last and once: whatever a checkpoint
/// holds, every other action of its persistence comes before.
pub proof fn lemma_pointer_last(root: Seq<u8>, seq: nat, capture: CaptureModel)
    ensures
        persist_ops(root, seq, capture).len() == 6 + capture.mems.len() + capture.reusable_mems.len(),
        persist_ops(root, seq, capture).last() == (FsOpModel::WriteSeq {
            path: joined(root, SEQ_NAME.spec_bytes()),
            text: decimal(seq),
        }),
        forall|k: int|
            0 <= k < persist_ops(root, seq, capture).len() - 1 ==> !(#[trigger] persist_ops(
                root,
                seq,
                capture,
            )[k] is WriteSeq),
{
}

/// Whether an action writes a region's bytes to `file`.
pub open spec fn writes_file(op: FsOpModel, file: Seq<u8>) -> bool {
    op matches FsOpModel::WriteRegion { path, .. } && path == file
}

/// Whether an action makes `file` a link to the file that holds `region`
/// in the previous checkpoint, whose directory is `previous` and whose
/// regions are `last`.
pub open spec fn links_file(
    op: FsOpModel,
    file: Seq<u8>,
    previous: Seq<u8>,
    last: Seq<RegionModel>,
    region: RegionModel,
) -> bool {
    op matches FsOpModel::HardLink { existing, link } && link == file && (first_match(last, region)
        matches Some(j) && existing == joined(previous, decimal(j as nat)))
}

/// Every region of a checkpoint gets its file: the file named by the
/// region's index is written with the region's bytes if the region is
/// stored, and is a link to the file of the same region in the previous
/// checkpoint if the region is reused. A region is one or the other.
pub proof fn lemma_region_persisted(
    root: Seq<u8>,
    seq: nat,
    capture: CaptureModel,
    last: Seq<RegionModel>,
    i: int,
)
    requires
        seq >= 1,
        capture.consistent(last),
        0 <= i < capture.maps.len(),
    ensures
        capture.stored_at(i) != capture.reused_at(i),
        capture.stored_at(i) ==> exists|k: int|
            0 <= k < persist_ops(root, seq, capture).len() && writes_file(
                #[trigger] persist_ops(root, seq, capture)[k],
                joined(dir_of(root, seq), decimal(i as nat)),
            ),
        capture.reused_at(i) ==> exists|k: int|
            0 <= k < persist_ops(root, seq, capture).len() && links_file(
                #[trigger] persist_ops(root, seq, capture)[k],
                joined(dir_of(root, seq), decimal(i as nat)),
                dir_of(root, (seq - 1) as nat),
                last,
                capture.maps[i],
            ),
{
    let ops = persist_ops(root, seq, capture);
    let file = joined(dir_of(root, seq), decimal(i as nat));
    if capture.stored_at(i) {
        let m = choose|m: int| 0 <= m < capture.mems.len() && (#[trigger] capture.mems[m]).0 == i;
        assert(writes_file(ops[2 + m], file));
    }
    if capture.reused_at(i) {
        let r = choose|r: int|
            0 <= r < capture.reusable_mems.len() && (#[trigger] capture.reusable_mems[r]).0 == i;
        lemma_first_match(last, capture.maps[i]);
        assert(links_file(
            ops[2 + capture.mems.len() + r],
            file,
            dir_of(root, (seq - 1) as nat),
            last,
            capture.maps[i],
        ));
    }
}

/// What a checkpoint persists is what its restore maps: for every region
/// of a consistent capture, the file that the checkpoint writes or links
/// for it is the file from which the bootstrapper of that checkpoint maps
/// the region, at the region's address, length and protection bits. The
/// checkpoint's files are all present, and the bootstrapper maps one
/// region after the other.
pub proof fn lemma_restore_maps_what_was_persisted(
    root: Seq<u8>,
    seq: nat,
    capture: CaptureModel,
    last: Seq<RegionModel>,
    files: Seq<FileModel>,
    i: int,
)
    requires
        seq >= 1,
        capture.consistent(last),
        0 <= i < capture.maps.len(),
    ensures
        planned(
            dir_of(root, seq),
            capture.maps,
            Seq::new(capture.maps.len(), |k: int| true),
            files,
        ) matches Ok(layout) ==> {
            &&& layout.mmaps.len() == capture.maps.len()
            &&& maps_region(
                layout.mmaps[i],
                layout.data,
                dir_of(root, seq),
                capture.maps[i],
                i as nat,
            )
            &&& exists|k: int|
                0 <= k < persist_ops(root, seq, capture).len() && (writes_file(
                    #[trigger] persist_ops(root, seq, capture)[k],
                    joined(dir_of(root, seq), decimal(i as nat)),
                ) || links_file(
                    persist_ops(root, seq, capture)[k],
                    joined(dir_of(root, seq), decimal(i as nat)),
                    dir_of(root, (seq - 1) as nat),
                    last,
                    capture.maps[i],
                ))
        },
{
    let present = Seq::new(capture.maps.len(), |k: int| true);
    lemma_layout_reads_paths(dir_of(root, seq), capture.maps, present, files);
    lemma_all_present(present, capture.maps.len());
    lemma_all_present(present, i as nat);
    lemma_region_persisted(root, seq, capture, last, i);
}

/// Where every region has its file, as many are present as there are regions.
proof fn lemma_all_present(present: Seq<bool>, n: nat)
    requires
        n <= present.len(),
        forall|k: int| 0 <= k < present.len() ==> present[k],
    ensures
        present_before(present, n) == n,
    decreases n,
{
    if n > 0 {
        lemma_all_present(present, (n - 1) as nat);
    }
}

/// The second of two checkpoints of an idle target links every region
/// that is not written to from the file of the same index in the first,
/// and writes no file for it. This holds where no region occurs twice
/// among the observations, as holds of the regions of one address space.
pub proof fn lemma_idle_checkpoint_links(
    root: Seq<u8>,
    seq: nat,
    before: Seq<RegionModel>,
    regs: RegistersModel,
    first: Seq<ObservationModel>,
    descriptors: Seq<FileModel>,
    second: Seq<ObservationModel>,
    i: int,
)
    requires
        seq >= 1,
        first.len() <= usize::MAX,
        before.len() <= usize::MAX,
        distinct_regions(first),
        capture_of(before, regs, first, descriptors) is Ok,
        idle_since(capture_of(before, regs, first, descriptors).unwrap().maps, first, second),
        0 <= i < capture_of(before, regs, first, descriptors).unwrap().maps.len(),
        !capture_of(before, regs, first, descriptors).unwrap().maps[i].writable(),
    ensures
        ({
            let regions = capture_of(before, regs, first, descriptors).unwrap().maps;
            let again = capture_of(regions, regs, second, descriptors);
            let ops = persist_ops(root, seq, again.unwrap());
            &&& again is Ok
            &&& again.unwrap().maps == regions
            &&& ops.contains(
                FsOpModel::HardLink {
                    existing: joined(dir_of(root, (seq - 1) as nat), decimal(i as nat)),
                    link: joined(dir_of(root, seq), decimal(i as nat)),
                },
            )
            &&& forall|k: int|
                0 <= k < ops.len() ==> !writes_file(
                    #[trigger] ops[k],
                    joined(dir_of(root, seq), decimal(i as nat)),
                )
        }),
{
    let regions = capture_of(before, regs, first, descriptors).unwrap().maps;
    lemma_idle_target(before, regs, first, descriptors, regs, second, descriptors);
    crate::capture::lemma_capture_consistent(before, regs, first, descriptors);
    crate::capture::lemma_capture_consistent(regions, regs, second, descriptors);
    let again = capture_of(regions, regs, second, descriptors).unwrap();
    let ops = persist_ops(root, seq, again);
    let pair = (i as usize, i as usize);
    let q = choose|q: int| 0 <= q < again.reusable_mems.len() && again.reusable_mems[q] == pair;
    let link = FsOpModel::HardLink {
        existing: joined(dir_of(root, (seq - 1) as nat), decimal(i as nat)),
        link: joined(dir_of(root, seq), decimal(i as nat)),
    };
    assert(ops[2 + again.mems.len() + q] == link);
    assert(again.reused_at(i));
    assert(!again.stored_at(i));
    assert forall|k: int| 0 <= k < ops.len() implies !writes_file(
        #[trigger] ops[k],
        joined(dir_of(root, seq), decimal(i as nat)),
    ) by {
        if 2 <= k < 2 + again.mems.len() {
            let m = k - 2;
            if writes_file(ops[k], joined(dir_of(root, seq), decimal(i as nat))) {
                lemma_joined_injective(
                    dir_of(root, seq),
                    decimal(again.mems[m].0 as nat),
                    decimal(i as nat),
                );
                lemma_decimal_injective(again.mems[m].0 as nat, i as nat);
                assert(again.mems[m].0 == i);
            }
        }
    }
}

/// What the engine's actions leave on disk, as far as checkpoints are
/// found by it: the directories, and the texts written to sequence
/// pointers, by their paths.
pub struct DiskModel {
    pub dirs: Set<Seq<u8>>,
    pub pointers: Map<Seq<u8>, Seq<u8>>,
}

/// A disk on which nothing was written yet.
pub open spec fn empty_disk() -> DiskModel {
    DiskModel { dirs: Set::empty(), pointers: Map::empty() }
}

/// The disk after one action. Region files and documents lie inside the
/// directories and are not part of this model.
pub open spec fn acted(disk: DiskModel, op: FsOpModel) -> DiskModel {
    match op {
        FsOpModel::RemoveDirAll(dir) => DiskModel { dirs: disk.dirs.remove(dir), ..disk },
        FsOpModel::CreateDir(dir) => DiskModel { dirs: disk.dirs.insert(dir), ..disk },
        FsOpModel::WriteSeq { path, text } => DiskModel {
            pointers: disk.pointers.insert(path, text),
            ..disk
        },
        _ => disk,
    }
}

/// The disk after a list of actions, carried out in order.
pub open spec fn acted_all(disk: DiskModel, ops: Seq<FsOpModel>) -> DiskModel
    decreases ops.len(),
{
    if ops.len() == 0 {
        disk
    } else {
        acted(acted_all(disk, ops.drop_last()), ops.last())
    }
}

/// The disk after checkpoints of the given captures were taken one after
/// the other from an empty root, and nothing was culled: the first has
/// number 1, and each is persisted as `persist_ops` plans.
pub open spec fn after_checkpoints(root: Seq<u8>, captures: Seq<CaptureModel>) -> DiskModel
    decreases captures.len(),
{
    if captures.len() == 0 {
        empty_disk()
    } else {
        acted_all(
            after_checkpoints(root, captures.drop_last()),
            persist_ops(root, captures.len(), captures.last()),
        )
    }
}

/// The directories of the checkpoints 1 to `n` under `root`.
pub open spec fn checkpoint_dirs(root: Seq<u8>, n: nat) -> Set<Seq<u8>> {
    Set::new(|dir: Seq<u8>| exists|s: nat| 1 <= s <= n && dir == #[trigger] dir_of(root, s))
}

/// Carrying out two lists of actions one after the other is carrying out
/// the one list that they make.
proof fn lemma_acted_concat(disk: DiskModel, a: Seq<FsOpModel>, b: Seq<FsOpModel>)
    ensures
        acted_all(disk, a + b) == acted_all(acted_all(disk, a), b),
    decreases b.len(),
{
    if b.len() == 0 {
        assert(a + b =~= a);
    } else {
        lemma_acted_concat(disk, a, b.drop_last());
        assert((a + b).drop_last() =~= a + b.drop_last());
    }
}

/// Carrying out a list of actions and one more is carrying out the list
/// and then the one.
proof fn lemma_acted_push(disk: DiskModel, ops: Seq<FsOpModel>, op: FsOpModel)
    ensures
        acted_all(disk, ops.push(op)) == acted(acted_all(disk, ops), op),
{
    assert(ops.push(op).drop_last() =~= ops);
}

/// Actions on region files and documents leave directories and pointers as they are.
proof fn lemma_acted_inside(disk: DiskModel, ops: Seq<FsOpModel>)
    requires
        forall|k: int|
            0 <= k < ops.len() ==> !(#[trigger] ops[k] is RemoveDirAll || ops[k] is CreateDir
                || ops[k] is WriteSeq),
    ensures
        acted_all(disk, ops) == disk,
    decreases ops.len(),
{
    if ops.len() > 0 {
        lemma_acted_inside(disk, ops.drop_last());
        assert(ops.drop_last().len() == ops.len() - 1);
        assert(ops.last() == ops[ops.len() - 1]);
    }
}

/// Persisting checkpoint `seq` leaves its directory on disk and its
/// number in the sequence pointer, and everything else as it was.
pub proof fn lemma_persisted(disk: DiskModel, root: Seq<u8>, seq: nat, capture: CaptureModel)
    ensures
        acted_all(disk, persist_ops(root, seq, capture)).dirs == disk.dirs.insert(dir_of(root, seq)),
        acted_all(disk, persist_ops(root, seq, capture)).pointers == disk.pointers.insert(
            joined(root, SEQ_NAME.spec_bytes()),
            decimal(seq),
        ),
{
    let opening = crate::checkpoint::opening_ops(root, seq);
    let writes = crate::checkpoint::region_writes(dir_of(root, seq), capture.mems);
    let links = crate::checkpoint::region_links(
        dir_of(root, (seq - 1) as nat),
        dir_of(root, seq),
        capture.reusable_mems,
    );
    let closing = crate::checkpoint::closing_ops(root, seq);
    lemma_acted_concat(disk, opening + writes + links, closing);
    lemma_acted_concat(disk, opening + writes, links);
    lemma_acted_concat(disk, opening, writes);
    let none = Seq::<FsOpModel>::empty();
    let opened = acted_all(disk, opening);
    lemma_acted_push(disk, none, opening[0]);
    lemma_acted_push(disk, none.push(opening[0]), opening[1]);
    assert(opening =~= none.push(opening[0]).push(opening[1]));
    assert(opened.dirs =~= disk.dirs.insert(dir_of(root, seq)));
    assert(opened.pointers == disk.pointers);
    lemma_acted_inside(opened, writes);
    lemma_acted_inside(opened, links);
    let inside = seq![closing[0], closing[1], closing[2]];
    lemma_acted_inside(opened, inside);
    lemma_acted_push(opened, inside, closing[3]);
    assert(closing =~= inside.push(closing[3]));
}

/// After `n` checkpoints from an empty root, without culling, the
/// sequence pointer holds the decimal text of `n`, which reads back as
/// `n`, and the directories on disk are exactly those of the checkpoints
/// 1 to `n`.
pub proof fn lemma_checkpoints_from_empty_root(root: Seq<u8>, captures: Seq<CaptureModel>)
    requires
        1 <= captures.len() <= u64::MAX,
    ensures
        after_checkpoints(root, captures).pointers.contains_key(joined(root, SEQ_NAME.spec_bytes())),
        after_checkpoints(root, captures).pointers[joined(root, SEQ_NAME.spec_bytes())] == decimal(
            captures.len(),
        ),
        sequence_of(decimal(captures.len())) == Ok::<u64, Error>(captures.len() as u64),
        after_checkpoints(root, captures).dirs == checkpoint_dirs(root, captures.len()),
        forall|s: nat|
            1 <= s <= captures.len() ==> after_checkpoints(root, captures).dirs.contains(
                #[trigger] dir_of(root, s),
            ),
        forall|t: nat|
            t > captures.len() ==> !after_checkpoints(root, captures).dirs.contains(
                #[trigger] dir_of(root, t),
            ),
{
    lemma_checkpoint_dirs(root, captures);
    lemma_persisted(
        after_checkpoints(root, captures.drop_last()),
        root,
        captures.len(),
        captures.last(),
    );
    lemma_pointer_round_trip(captures.len() as u64);
    assert forall|t: nat| t > captures.len() implies !after_checkpoints(root, captures).dirs.contains(
        #[trigger] dir_of(root, t),
    ) by {
        if checkpoint_dirs(root, captures.len()).contains(dir_of(root, t)) {
            let s = choose|s: nat| 1 <= s <= captures.len() && dir_of(root, t) == #[trigger] dir_of(root, s);
            lemma_dirs_distinct(root, s, t);
        }
    }
}

/// After any number of checkpoints from an empty root, without culling,
/// the directories on disk are those of the checkpoints taken.
proof fn lemma_checkpoint_dirs(root: Seq<u8>, captures: Seq<CaptureModel>)
    ensures
        after_checkpoints(root, captures).dirs == checkpoint_dirs(root, captures.len()),
    decreases captures.len(),
{
    let n = captures.len();
    if n == 0 {
        assert(after_checkpoints(root, captures).dirs =~= checkpoint_dirs(root, 0));
    } else {
        let before = after_checkpoints(root, captures.drop_last());
        lemma_checkpoint_dirs(root, captures.drop_last());
        lemma_persisted(before, root, n, captures.last());
        assert forall|dir: Seq<u8>| checkpoint_dirs(root, n).contains(dir) <==> checkpoint_dirs(
            root,
            (n - 1) as nat,
        ).insert(dir_of(root, n)).contains(dir) by {
            if checkpoint_dirs(root, n).contains(dir) {
                let s = choose|s: nat| 1 <= s <= n && dir == #[trigger] dir_of(root, s);
                if s < n {
                    assert(1 <= s <= n - 1 && dir == dir_of(root, s));
                }
            }
            if checkpoint_dirs(root, (n - 1) as nat).contains(dir) {
                let s = choose|s: nat| 1 <= s <= n - 1 && dir == #[trigger] dir_of(root, s);
                assert(1 <= s <= n && dir == dir_of(root, s));
            }
            if dir == dir_of(root, n) {
                assert(1 <= n <= n && dir == dir_of(root, n));
            }
        }
        assert(after_checkpoints(root, captures).dirs =~= checkpoint_dirs(root, n));
    }
}

} // verus!