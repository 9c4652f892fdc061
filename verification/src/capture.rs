//! What a checkpoint captures of the target's memory: which regions are
//! dropped, which are reused from the previous checkpoint, and which are
//! stored anew.

use vstd::prelude::*;
use crate::compat::{Registers, RegistersModel};
use crate::error::Error;
use crate::region::{
    regular_files, regular_only, FileDescriptorRecord, FileModel, RegionDescriptor, RegionModel,
};
use crate::restore::{bootstrapper_region, is_bootstrapper_region};

verus! {

/// The kernel's error number for an I/O error. A region whose memory
/// cannot be read for this reason is one that the kernel hides.
pub const EIO: i32 = 5;

/// What an attempt to read a region's memory gave, as a mathematical value.
pub enum ReadModel {
    Bytes(Seq<u8>),
    Failed(i32),
    NotRead,
}

/// What an attempt to read a region's memory gave.
#[derive(Debug, Clone, PartialEq, Eq)]
pub enum ReadOutcome {
    /// The region's bytes.
    Bytes(Vec<u8>),
    /// The read failed with this kernel error number.
    Failed(i32),
    /// No read was attempted.
    NotRead,
}

impl View for ReadOutcome {
    type V = ReadModel;

    open spec fn view(&self) -> ReadModel {
        match *self {
            ReadOutcome::Bytes(bytes) => ReadModel::Bytes(bytes@),
            ReadOutcome::Failed(errno) => ReadModel::Failed(errno),
            ReadOutcome::NotRead => ReadModel::NotRead,
        }
    }
}

/// A region of the stopped target and what reading it gave, as a mathematical value.
pub struct ObservationModel {
    pub region: RegionModel,
    pub read: ReadModel,
}

/// A region of the stopped target and what reading it gave.
#[derive(Debug, Clone, PartialEq, Eq)]
pub struct Observation {
    pub region: RegionDescriptor,
    pub read: ReadOutcome,
}

impl View for Observation {
    type V = ObservationModel;

    open spec fn view(&self) -> ObservationModel {
        ObservationModel { region: self.region@, read: self.read@ }
    }
}

impl DeepView for Observation {
    type V = ObservationModel;

    open spec fn deep_view(&self) -> ObservationModel {
        self@
    }
}

/// What becomes of a region in a checkpoint.
#[derive(Debug, Clone, Copy, PartialEq, Eq, Structural)]
pub enum RegionPlan {
    /// The region is left out: it belongs to a bootstrapper.
    Drop,
    /// The region is not written to and the previous checkpoint holds it
    /// under this index: its file there is linked.
    Reuse(usize),
    /// The region's memory is read and stored.
    Read,
}

/// Whether `j` is the first index at which `last` holds `region`.
pub open spec fn first_at(last: Seq<RegionModel>, region: RegionModel, j: int) -> bool {
    &&& 0 <= j < last.len()
    &&& last[j] == region
    &&& forall|k: int| 0 <= k < j ==> last[k] != region
}

/// The first index at which `last` holds `region`, if it holds it.
pub open spec fn first_match(last: Seq<RegionModel>, region: RegionModel) -> Option<int> {
    if last.contains(region) {
        Some(choose|j: int| first_at(last, region, j))
    } else {
        None
    }
}

/// What becomes of `region` when `last` is what the previous checkpoint holds.
pub open spec fn plan_of(last: Seq<RegionModel>, region: RegionModel) -> RegionPlan {
    if bootstrapper_region(region) {
        RegionPlan::Drop
    } else if !region.writable() && last.contains(region) {
        RegionPlan::Reuse(first_match(last, region).unwrap() as usize)
    } else {
        RegionPlan::Read
    }
}

/// Where a sequence holds a value, it holds it at exactly one first index.
pub proof fn lemma_first_match(last: Seq<RegionModel>, region: RegionModel)
    ensures
        match first_match(last, region) {
            Some(j) => first_at(last, region, j),
            None => !last.contains(region),
        },
        forall|j: int| first_at(last, region, j) ==> first_match(last, region) == Some(j),
{
    if last.contains(region) {
        let i = choose|i: int| 0 <= i < last.len() && last[i] == region;
        lemma_first_exists(last, region, i);
        let j = choose|j: int| first_at(last, region, j);
        assert forall|k: int| first_at(last, region, k) implies k == j by {
            if k < j {
                assert(last[k] != region);
            } else if j < k {
                assert(last[j] != region);
            }
        }
    }
}

/// Below an index that holds a value there is a first one.
proof fn lemma_first_exists(last: Seq<RegionModel>, region: RegionModel, i: int)
    requires
        0 <= i < last.len(),
        last[i] == region,
    ensures
        exists|j: int| first_at(last, region, j),
    decreases i,
{
    if exists|k: int| 0 <= k < i && last[k] == region {
        let k = choose|k: int| 0 <= k < i && last[k] == region;
        lemma_first_exists(last, region, k);
    } else {
        assert(first_at(last, region, i));
    }
}

/// The first index at which `last` holds a descriptor equal to `region`.
pub fn find_match(last: &Vec<RegionDescriptor>, region: &RegionDescriptor) -> (r: Option<usize>)
    ensures
        r matches Some(j) ==> first_match(last.deep_view(), region@) == Some(j as int),
        r is None ==> first_match(last.deep_view(), region@) is None,
{
    let mut j: usize = 0;
    while j < last.len()
        invariant
            j <= last.len(),
            forall|k: int| 0 <= k < j ==> last.deep_view()[k] != region@,
        decreases last.len() - j,
    {
        assert(last.deep_view()[j as int] == last[j as int]@);
        if last[j].same(region) {
            proof {
                assert(first_at(last.deep_view(), region@, j as int));
                lemma_first_match(last.deep_view(), region@);
            }
            return Some(j);
        }
        j += 1;
    }
    None
}

/// Decides what becomes of a region of the stopped target, given the
/// regions of the previous checkpoint.
pub fn plan_region(last: &Vec<RegionDescriptor>, region: &RegionDescriptor) -> (plan: RegionPlan)
    ensures
        plan == plan_of(last.deep_view(), region@),
{
    if is_bootstrapper_region(region) {
        return RegionPlan::Drop;
    }
    if !region.writable() {
        if let Some(j) = find_match(last, region) {
            return RegionPlan::Reuse(j);
        }
    }
    RegionPlan::Read
}

/// What a checkpoint has captured, as a mathematical value.
pub struct CaptureModel {
    pub regs: RegistersModel,
    pub maps: Seq<RegionModel>,
    pub mems: Seq<(usize, Seq<u8>)>,
    pub reusable_mems: Seq<(usize, usize)>,
    pub files: Seq<FileModel>,
}

/// What a checkpoint has captured of the stopped target, before anything
/// is written to disk.
///
/// `maps` lists the regions of the checkpoint. Each pair of `mems` is the
/// index of a region in `maps` and that region's bytes. Each pair of
/// `reusable_mems` is the index of a region in `maps` and the index under
/// which the previous checkpoint holds the same region.
#[derive(Debug, Clone, PartialEq, Eq)]
pub struct VolatileCheckpoint {
    pub regs: Registers,
    pub maps: Vec<RegionDescriptor>,
    pub mems: Vec<(usize, Vec<u8>)>,
    pub reusable_mems: Vec<(usize, usize)>,
    pub files: Vec<FileDescriptorRecord>,
}

/// The pairs of `mems`, with each region's bytes as a sequence.
pub open spec fn mems_view(mems: Seq<(usize, Vec<u8>)>) -> Seq<(usize, Seq<u8>)> {
    Seq::new(mems.len(), |i: int| (mems[i].0, mems[i].1@))
}

impl View for VolatileCheckpoint {
    type V = CaptureModel;

    open spec fn view(&self) -> CaptureModel {
        CaptureModel {
            regs: self.regs@,
            maps: self.maps.deep_view(),
            mems: mems_view(self.mems@),
            reusable_mems: self.reusable_mems@,
            files: self.files.deep_view(),
        }
    }
}

/// A capture that holds no region yet.
pub open spec fn empty_capture(regs: RegistersModel, files: Seq<FileModel>) -> CaptureModel {
    CaptureModel {
        regs,
        maps: Seq::empty(),
        mems: Seq::empty(),
        reusable_mems: Seq::empty(),
        files,
    }
}

/// The capture `before` with one more region observed. A region that
/// belongs to a bootstrapper is left out. A region that is not written to
/// and that `last` holds is reused. Any other region is stored with the
/// bytes read; one that the kernel hides is left out; a read that failed
/// for another reason fails the checkpoint with the kernel's error number,
/// and a read that was due and not attempted is a misuse.
pub open spec fn observe(last: Seq<RegionModel>, before: CaptureModel, seen: ObservationModel) -> Result<
    CaptureModel,
    Error,
> {
    let index = before.maps.len() as usize;
    match plan_of(last, seen.region) {
        RegionPlan::Drop => Ok(before),
        RegionPlan::Reuse(old) => Ok(
            CaptureModel {
                maps: before.maps.push(seen.region),
                reusable_mems: before.reusable_mems.push((index, old)),
                ..before
            },
        ),
        RegionPlan::Read => match seen.read {
            ReadModel::Bytes(bytes) => Ok(
                CaptureModel {
                    maps: before.maps.push(seen.region),
                    mems: before.mems.push((index, bytes)),
                    ..before
                },
            ),
            ReadModel::Failed(errno) => if errno == EIO {
                Ok(before)
            } else {
                Err(Error::Os(errno))
            },
            ReadModel::NotRead => Err(Error::Precondition),
        },
    }
}

/// The capture after the first `n` observations, in their order, or the
/// first failure among them.
pub open spec fn captured(
    last: Seq<RegionModel>,
    start: CaptureModel,
    seen: Seq<ObservationModel>,
    n: nat,
) -> Result<CaptureModel, Error>
    decreases n,
{
    if n == 0 {
        Ok(start)
    } else {
        match captured(last, start, seen, (n - 1) as nat) {
            Ok(before) => observe(last, before, seen[n - 1]),
            Err(e) => Err(e),
        }
    }
}

/// The capture of a whole enumeration of the target's regions and files.
pub open spec fn capture_of(
    last: Seq<RegionModel>,
    regs: RegistersModel,
    seen: Seq<ObservationModel>,
    descriptors: Seq<FileModel>,
) -> Result<CaptureModel, Error> {
    captured(last, empty_capture(regs, regular_only(descriptors)), seen, seen.len())
}

/// Whether a read that failed with this error number only drops its
/// region. Any other failure is fatal to the checkpoint.
pub fn read_error_is_tolerated(errno: i32) -> (tolerated: bool)
    ensures
        tolerated == (errno == EIO),
{
    errno == EIO
}

/// Builds what a checkpoint captures from the registers, the regions and
/// the open files of the stopped target.
///
/// `last` lists the regions of the previous checkpoint. The observations
/// come in the order in which the regions were enumerated; regions are
/// numbered in that order, those left out not counted.
#[verifier::loop_isolation(false)]
pub fn capture(
    last: &Vec<RegionDescriptor>,
    regs: Registers,
    observations: Vec<Observation>,
    descriptors: &Vec<FileDescriptorRecord>,
) -> (r: Result<VolatileCheckpoint, Error>)
    ensures
        match capture_of(last.deep_view(), regs@, observations.deep_view(), descriptors.deep_view()) {
            Ok(model) => r matches Ok(v_cp) && v_cp@ == model,
            Err(e) => r matches Err(f) && f == e,
        },
{
    let ghost seen = observations.deep_view();
    let ghost items = observations@;
    let ghost start = empty_capture(regs@, regular_only(descriptors.deep_view()));
    let mut v_cp = VolatileCheckpoint {
        regs,
        maps: Vec::new(),
        mems: Vec::new(),
        reusable_mems: Vec::new(),
        files: regular_files(descriptors),
    };
    assert(v_cp@.maps =~= start.maps);
    assert(v_cp@.mems =~= start.mems);
    for observation in it: observations
        invariant
            it.seq() == items,
            seen.len() == items.len(),
            forall|k: int| 0 <= k < items.len() ==> seen[k] == (#[trigger] items[k])@,
            captured(last.deep_view(), start, seen, it.index() as nat) == Ok::<CaptureModel, Error>(
                v_cp@,
            ),
    {
        let ghost before = v_cp@;
        let ghost n = it.index();
        assert(seen[n as int] == observation@);
        let index = v_cp.maps.len();
        let Observation { region, read } = observation;
        match plan_region(last, &region) {
            RegionPlan::Drop => {},
            RegionPlan::Reuse(old) => {
                v_cp.reusable_mems.push((index, old));
                v_cp.maps.push(region);
                assert(v_cp@.maps =~= before.maps.push(region@));
                assert(v_cp@.mems =~= before.mems);
            },
            RegionPlan::Read => {
                match read {
                    ReadOutcome::Bytes(bytes) => {
                        v_cp.mems.push((index, bytes));
                        v_cp.maps.push(region);
                        assert(v_cp@.maps =~= before.maps.push(region@));
                        assert(v_cp@.mems =~= before.mems.push((index, bytes@)));
                    },
                    ReadOutcome::Failed(errno) => {
                        if !read_error_is_tolerated(errno) {
                            proof {
                                assert(captured(last.deep_view(), start, seen, (n + 1) as nat) is Err);
                                lemma_failure_stays(
                                    last.deep_view(),
                                    start,
                                    seen,
                                    (n + 1) as nat,
                                    seen.len(),
                                );
                            }
                            return Err(Error::Os(errno));
                        }
                    },
                    ReadOutcome::NotRead => {
                        proof {
                            assert(captured(last.deep_view(), start, seen, (n + 1) as nat) is Err);
                            lemma_failure_stays(
                                last.deep_view(),
                                start,
                                seen,
                                (n + 1) as nat,
                                seen.len(),
                            );
                        }
                        return Err(Error::Precondition);
                    },
                }
            },
        }
    }
    Ok(v_cp)
}

/// A capture that has failed after `n` observations has failed after any more.
pub proof fn lemma_failure_stays(
    last: Seq<RegionModel>,
    start: CaptureModel,
    seen: Seq<ObservationModel>,
    n: nat,
    m: nat,
)
    requires
        n <= m,
        captured(last, start, seen, n) is Err,
    ensures
        captured(last, start, seen, m) == captured(last, start, seen, n),
    decreases m - n,
{
    if n < m {
        lemma_failure_stays(last, start, seen, n, (m - 1) as nat);
    }
}

impl CaptureModel {
    /// Whether region `i` is reused from the previous checkpoint.
    pub open spec fn reused_at(self, i: int) -> bool {
        exists|k: int| 0 <= k < self.reusable_mems.len() && (#[trigger] self.reusable_mems[k]).0 == i
    }

    /// Whether the bytes of region `i` are stored.
    pub open spec fn stored_at(self, i: int) -> bool {
        exists|k: int| 0 <= k < self.mems.len() && (#[trigger] self.mems[k]).0 == i
    }

    /// Whether the capture is a sound basis for a checkpoint that follows
    /// one with the regions `last`:
    /// every reused region is not written to and equals the region that
    /// `last` holds at the index given, which is the first such index;
    /// no region belongs to a bootstrapper;
    /// a region is reused exactly if it is not written to and `last` holds it;
    /// every region is either reused or stored, and never twice.
    pub open spec fn consistent(self, last: Seq<RegionModel>) -> bool {
        &&& forall|k: int|
            0 <= k < self.reusable_mems.len() ==> {
                let pair = #[trigger] self.reusable_mems[k];
                &&& pair.0 < self.maps.len()
                &&& !self.maps[pair.0 as int].writable()
                &&& first_at(last, self.maps[pair.0 as int], pair.1 as int)
            }
        &&& forall|k: int| 0 <= k < self.mems.len() ==> (#[trigger] self.mems[k]).0 < self.maps.len()
        &&& forall|i: int| 0 <= i < self.maps.len() ==> !bootstrapper_region(#[trigger] self.maps[i])
        &&& forall|i: int|
            0 <= i < self.maps.len() ==> (#[trigger] self.reused_at(i) <==> !self.maps[i].writable()
                && last.contains(self.maps[i]))
        &&& forall|i: int|
            0 <= i < self.maps.len() ==> (#[trigger] self.stored_at(i) <==> !self.reused_at(i))
        &&& forall|j: int, k: int|
            0 <= j < k < self.reusable_mems.len() ==> (#[trigger] self.reusable_mems[j]).0 < (
            #[trigger] self.reusable_mems[k]).0
        &&& forall|j: int, k: int|
            0 <= j < k < self.mems.len() ==> (#[trigger] self.mems[j]).0 < (#[trigger] self.mems[k]).0
    }
}

/// One more observation keeps a capture consistent.
proof fn lemma_observe_consistent(last: Seq<RegionModel>, before: CaptureModel, seen: ObservationModel)
    requires
        before.consistent(last),
        before.maps.len() < usize::MAX,
        last.len() <= usize::MAX,
    ensures
        observe(last, before, seen) matches Ok(after) ==> after.consistent(last),
{
    lemma_first_match(last, seen.region);
    let index = before.maps.len() as int;
    match observe(last, before, seen) {
        Ok(after) => {
            if after.maps.len() > before.maps.len() {
                assert(after.maps[index] == seen.region);
                assert forall|i: int| 0 <= i < index implies after.maps[i] == before.maps[i] by {}
                assert forall|i: int| 0 <= i < index implies (after.reused_at(i)
                    <==> before.reused_at(i)) by {
                    if before.reused_at(i) {
                        let k = choose|k: int|
                            0 <= k < before.reusable_mems.len() && (#[trigger] before.reusable_mems[k]).0
                                == i;
                        assert(after.reusable_mems[k].0 == i);
                    }
                    if after.reused_at(i) {
                        let k = choose|k: int|
                            0 <= k < after.reusable_mems.len() && (#[trigger] after.reusable_mems[k]).0
                                == i;
                        assert(before.reusable_mems[k].0 == i);
                    }
                }
                assert forall|i: int| 0 <= i < index implies (after.stored_at(i)
                    <==> before.stored_at(i)) by {
                    if before.stored_at(i) {
                        let k = choose|k: int|
                            0 <= k < before.mems.len() && (#[trigger] before.mems[k]).0 == i;
                        assert(after.mems[k].0 == i);
                    }
                    if after.stored_at(i) {
                        let k = choose|k: int|
                            0 <= k < after.mems.len() && (#[trigger] after.mems[k]).0 == i;
                        assert(before.mems[k].0 == i);
                    }
                }
                if plan_of(last, seen.region) is Reuse {
                    let k = before.reusable_mems.len() as int;
                    assert(after.reusable_mems[k].0 == index);
                    assert(after.reused_at(index));
                    assert(!after.stored_at(index));
                } else {
                    let k = before.mems.len() as int;
                    assert(after.mems[k].0 == index);
                    assert(after.stored_at(index));
                    assert(!after.reused_at(index));
                }
            }
        },
        Err(_) => {},
    }
}

/// Whatever the target's regions are and whatever reading them gives, a
/// capture that succeeds is consistent with the previous checkpoint: the
/// regions it reuses are exactly those that are not written to and equal
/// a region of the previous checkpoint, and every other region is stored.
pub proof fn lemma_capture_consistent(
    last: Seq<RegionModel>,
    regs: RegistersModel,
    seen: Seq<ObservationModel>,
    descriptors: Seq<FileModel>,
)
    requires
        seen.len() <= usize::MAX,
        last.len() <= usize::MAX,
    ensures
        capture_of(last, regs, seen, descriptors) matches Ok(capture) ==> capture.consistent(last)
            && capture.maps.len() <= seen.len(),
{
    lemma_captured_consistent(last, empty_capture(regs, regular_only(descriptors)), seen, seen.len());
}

/// A consistent capture stays consistent over any number of observations.
proof fn lemma_captured_consistent(
    last: Seq<RegionModel>,
    start: CaptureModel,
    seen: Seq<ObservationModel>,
    n: nat,
)
    requires
        start.consistent(last),
        start.maps.len() == 0,
        n <= seen.len() <= usize::MAX,
        last.len() <= usize::MAX,
    ensures
        captured(last, start, seen, n) matches Ok(capture) ==> capture.consistent(last)
            && capture.maps.len() <= n,
    decreases n,
{
    if n > 0 {
        lemma_captured_consistent(last, start, seen, (n - 1) as nat);
        match captured(last, start, seen, (n - 1) as nat) {
            Ok(before) => {
                lemma_observe_consistent(last, before, seen[n - 1]);
            },
            Err(_) => {},
        }
    }
}

/// Whether an observation adds its region to a capture that follows a
/// checkpoint with the regions `last`: the region is reused, or it was
/// read and its bytes are there.
pub open spec fn keeps(last: Seq<RegionModel>, seen: ObservationModel) -> bool {
    match plan_of(last, seen.region) {
        RegionPlan::Drop => false,
        RegionPlan::Reuse(_) => true,
        RegionPlan::Read => seen.read is Bytes,
    }
}

/// Whether one of the first `n` observations has the region `region` and
/// adds it to the capture.
pub open spec fn kept_among(
    last: Seq<RegionModel>,
    seen: Seq<ObservationModel>,
    n: nat,
    region: RegionModel,
) -> bool {
    exists|k: int| 0 <= k < n && (#[trigger] seen[k]).region == region && keeps(last, seen[k])
}

/// Whether no region occurs twice among the observations.
pub open spec fn distinct_regions(seen: Seq<ObservationModel>) -> bool {
    forall|i: int, j: int|
        0 <= i < j < seen.len() ==> (#[trigger] seen[i]).region != (#[trigger] seen[j]).region
}

/// Whether `second` is what is observed of a target that has been idle
/// since `first` was observed, when the checkpoint in between holds the
/// regions `last`: the regions are the same, in the same order, and every
/// region that is read again reads as before.
pub open spec fn idle_since(
    last: Seq<RegionModel>,
    first: Seq<ObservationModel>,
    second: Seq<ObservationModel>,
) -> bool {
    &&& second.len() == first.len()
    &&& forall|i: int| 0 <= i < first.len() ==> (#[trigger] second[i]).region == first[i].region
    &&& forall|i: int|
        0 <= i < first.len() && plan_of(last, (#[trigger] second[i]).region) is Read ==> second[i].read
            == first[i].read
}

/// A capture that has come through `m` observations has come through
/// every smaller number of them, and its regions then were the first of
/// its regions now.
pub proof fn lemma_capture_grows(
    last: Seq<RegionModel>,
    start: CaptureModel,
    seen: Seq<ObservationModel>,
    n: nat,
    m: nat,
)
    requires
        n <= m,
        captured(last, start, seen, m) is Ok,
    ensures
        captured(last, start, seen, n) is Ok,
        captured(last, start, seen, n).unwrap().maps.len() <= captured(
            last,
            start,
            seen,
            m,
        ).unwrap().maps.len(),
        captured(last, start, seen, m).unwrap().maps.take(
            captured(last, start, seen, n).unwrap().maps.len() as int,
        ) == captured(last, start, seen, n).unwrap().maps,
    decreases m - n,
{
    if n == m {
        let maps = captured(last, start, seen, m).unwrap().maps;
        assert(maps.take(maps.len() as int) =~= maps);
    } else {
        if captured(last, start, seen, (m - 1) as nat) is Err {
            lemma_failure_stays(last, start, seen, (m - 1) as nat, m);
        }
        lemma_capture_grows(last, start, seen, n, (m - 1) as nat);
        let small = captured(last, start, seen, n).unwrap().maps;
        let before = captured(last, start, seen, (m - 1) as nat).unwrap().maps;
        let after = captured(last, start, seen, m).unwrap().maps;
        assert(after.take(small.len() as int) =~= before.take(small.len() as int));
    }
}

/// Every region of a capture is the region of an observation that added it.
pub proof fn lemma_capture_sources(
    last: Seq<RegionModel>,
    start: CaptureModel,
    seen: Seq<ObservationModel>,
    n: nat,
)
    requires
        start.maps.len() == 0,
        captured(last, start, seen, n) is Ok,
    ensures
        forall|i: int|
            0 <= i < captured(last, start, seen, n).unwrap().maps.len() ==> kept_among(
                last,
                seen,
                n,
                #[trigger] captured(last, start, seen, n).unwrap().maps[i],
            ),
    decreases n,
{
    if n > 0 {
        lemma_capture_grows(last, start, seen, (n - 1) as nat, n);
        lemma_capture_sources(last, start, seen, (n - 1) as nat);
        let before = captured(last, start, seen, (n - 1) as nat).unwrap();
        let after = captured(last, start, seen, n).unwrap();
        assert forall|i: int| 0 <= i < after.maps.len() implies kept_among(
            last,
            seen,
            n,
            #[trigger] after.maps[i],
        ) by {
            if i < before.maps.len() {
                assert(after.maps[i] == before.maps[i]);
                assert(kept_among(last, seen, (n - 1) as nat, before.maps[i]));
                let k = choose|k: int|
                    0 <= k < n - 1 && (#[trigger] seen[k]).region == before.maps[i] && keeps(
                        last,
                        seen[k],
                    );
                assert(seen[k].region == after.maps[i] && keeps(last, seen[k]));
            } else {
                assert(seen[n - 1].region == after.maps[i] && keeps(last, seen[n - 1]));
            }
        }
    }
}

/// What holds of the second of two captures of an idle target after its
/// first `n` observations.
spec fn idle_step(
    regions: Seq<RegionModel>,
    first: CaptureModel,
    second: CaptureModel,
) -> bool {
    &&& second.maps == first.maps
    &&& first.maps.len() <= regions.len()
    &&& forall|i: int|
        0 <= i < second.maps.len() && !(#[trigger] second.maps[i]).writable() ==> second.reusable_mems.contains(
            (i as usize, i as usize),
        )
    &&& forall|i: int|
        0 <= i < second.maps.len() && (#[trigger] second.maps[i]).writable() ==> second.stored_at(i)
}

/// The two captures of an idle target agree after every number of observations.
proof fn lemma_idle_prefix(
    before: Seq<RegionModel>,
    start: CaptureModel,
    first: Seq<ObservationModel>,
    again: CaptureModel,
    second: Seq<ObservationModel>,
    n: nat,
)
    requires
        n <= first.len() <= usize::MAX,
        start.maps.len() == 0,
        again.maps.len() == 0,
        again.mems.len() == 0,
        again.reusable_mems.len() == 0,
        distinct_regions(first),
        captured(before, start, first, first.len()) is Ok,
        idle_since(captured(before, start, first, first.len()).unwrap().maps, first, second),
    ensures
        captured(before, start, first, n) is Ok,
        captured(captured(before, start, first, first.len()).unwrap().maps, again, second, n) is Ok,
        idle_step(
            captured(before, start, first, first.len()).unwrap().maps,
            captured(before, start, first, n).unwrap(),
            captured(
                captured(before, start, first, first.len()).unwrap().maps,
                again,
                second,
                n,
            ).unwrap(),
        ),
        captured(before, start, first, n).unwrap().maps.len() <= n,
    decreases n,
{
    let regions = captured(before, start, first, first.len()).unwrap().maps;
    lemma_capture_grows(before, start, first, n, first.len());
    if n == 0 {
        assert(again.maps =~= start.maps);
    } else {
        lemma_idle_prefix(before, start, first, again, second, (n - 1) as nat);
        lemma_capture_grows(before, start, first, (n - 1) as nat, first.len());
        let a0 = captured(before, start, first, (n - 1) as nat).unwrap();
        let a1 = captured(before, start, first, n).unwrap();
        let b0 = captured(regions, again, second, (n - 1) as nat).unwrap();
        let seen = first[n - 1];
        let region = seen.region;
        assert(second[n - 1].region == region);
        lemma_first_match(regions, region);
        let index = a0.maps.len() as int;
        if keeps(before, seen) {
            assert(a1.maps == a0.maps.push(region));
            assert(regions.take(a1.maps.len() as int)[index] == region);
            assert(regions[index] == region);
            assert(first_at(regions, region, index)) by {
                lemma_capture_sources(before, start, first, (n - 1) as nat);
                assert forall|m: int| 0 <= m < index implies regions[m] != region by {
                    assert(regions.take(a0.maps.len() as int)[m] == regions[m]);
                    assert(kept_among(before, first, (n - 1) as nat, a0.maps[m]));
                }
            }
            if !region.writable() {
                let b1 = captured(regions, again, second, n).unwrap();
                assert(b1.reusable_mems.last() == (index as usize, index as usize));
                assert forall|i: int|
                    0 <= i < b1.maps.len() && !(#[trigger] b1.maps[i]).writable() implies b1.reusable_mems.contains(
                    (i as usize, i as usize),
                ) by {
                    if i < index {
                        assert(b0.maps[i] == b1.maps[i]);
                        let q = choose|q: int|
                            0 <= q < b0.reusable_mems.len() && b0.reusable_mems[q] == (
                                i as usize,
                                i as usize,
                            );
                        assert(b1.reusable_mems[q] == (i as usize, i as usize));
                    } else {
                        assert(b1.reusable_mems[b1.reusable_mems.len() - 1] == (i as usize, i as usize));
                    }
                }
                assert forall|i: int|
                    0 <= i < b1.maps.len() && (#[trigger] b1.maps[i]).writable() implies b1.stored_at(i) by {
                    assert(b0.maps[i] == b1.maps[i]);
                    assert(b0.stored_at(i));
                    let q = choose|q: int| 0 <= q < b0.mems.len() && (#[trigger] b0.mems[q]).0 == i;
                    assert(b1.mems[q].0 == i);
                }
            } else {
                assert(plan_of(before, region) is Read);
                assert(plan_of(regions, region) is Read);
                let b1 = captured(regions, again, second, n).unwrap();
                assert(b1.mems.last().0 == index);
                assert forall|i: int|
                    0 <= i < b1.maps.len() && !(#[trigger] b1.maps[i]).writable() implies b1.reusable_mems.contains(
                    (i as usize, i as usize),
                ) by {
                    assert(b0.maps[i] == b1.maps[i]);
                }
                assert forall|i: int|
                    0 <= i < b1.maps.len() && (#[trigger] b1.maps[i]).writable() implies b1.stored_at(i) by {
                    if i < index {
                        assert(b0.maps[i] == b1.maps[i]);
                        assert(b0.stored_at(i));
                        let q = choose|q: int|
                            0 <= q < b0.mems.len() && (#[trigger] b0.mems[q]).0 == i;
                        assert(b1.mems[q].0 == i);
                    } else {
                        assert(b1.mems[b1.mems.len() - 1].0 == i);
                    }
                }
            }
        } else {
            assert(a1.maps == a0.maps);
            assert(first[n - 1].read is Failed || bootstrapper_region(region));
            if !bootstrapper_region(region) {
                if regions.contains(region) {
                    lemma_capture_sources(before, start, first, first.len());
                    let m = choose|m: int| 0 <= m < regions.len() && regions[m] == region;
                    assert(kept_among(before, first, first.len(), regions[m]));
                    let k = choose|k: int|
                        0 <= k < first.len() && (#[trigger] first[k]).region == region && keeps(
                            before,
                            first[k],
                        );
                    assert(k == n - 1) by {
                        if k < n - 1 {
                            assert(first[k].region != first[n - 1].region);
                        } else if k > n - 1 {
                            assert(first[n - 1].region != first[k].region);
                        }
                    }
                }
                assert(plan_of(before, region) is Read);
                assert(plan_of(regions, region) is Read);
                assert(second[n - 1].read == first[n - 1].read);
            }
            assert(captured(regions, again, second, n) == Ok::<CaptureModel, Error>(b0));
        }
    }
}

/// Two successive checkpoints of an idle target hold the same regions in
/// the same order, and the second reuses every region that is not written
/// to under the index that it has in the first, and stores every other
/// region anew. This holds where no region occurs twice among the
/// observations, as `lemma_address_space_distinct` shows of the regions
/// of one address space.
pub proof fn lemma_idle_target(
    before: Seq<RegionModel>,
    regs: RegistersModel,
    first: Seq<ObservationModel>,
    descriptors: Seq<FileModel>,
    regs_again: RegistersModel,
    second: Seq<ObservationModel>,
    descriptors_again: Seq<FileModel>,
)
    requires
        first.len() <= usize::MAX,
        distinct_regions(first),
        capture_of(before, regs, first, descriptors) is Ok,
        idle_since(capture_of(before, regs, first, descriptors).unwrap().maps, first, second),
    ensures
        capture_of(
            capture_of(before, regs, first, descriptors).unwrap().maps,
            regs_again,
            second,
            descriptors_again,
        ) matches Ok(again) && {
            &&& again.maps == capture_of(before, regs, first, descriptors).unwrap().maps
            &&& forall|i: int|
                0 <= i < again.maps.len() && !(#[trigger] again.maps[i]).writable()
                    ==> again.reusable_mems.contains((i as usize, i as usize))
            &&& forall|i: int|
                0 <= i < again.maps.len() && (#[trigger] again.maps[i]).writable() ==> again.stored_at(
                    i,
                )
        },
{
    lemma_idle_prefix(
        before,
        empty_capture(regs, regular_only(descriptors)),
        first,
        empty_capture(regs_again, regular_only(descriptors_again)),
        second,
        first.len(),
    );
}

/// The regions of the observations that add their region to a capture,
/// in the order of the observations.
pub open spec fn kept_regions(last: Seq<RegionModel>, seen: Seq<ObservationModel>) -> Seq<
    RegionModel,
> {
    seen.filter(|o: ObservationModel| keeps(last, o)).map_values(|o: ObservationModel| o.region)
}

/// After `n` observations a capture holds the regions that they added, in order.
proof fn lemma_captured_in_order(
    last: Seq<RegionModel>,
    start: CaptureModel,
    seen: Seq<ObservationModel>,
    n: nat,
)
    requires
        n <= seen.len(),
        start.maps.len() == 0,
        captured(last, start, seen, n) is Ok,
    ensures
        captured(last, start, seen, n).unwrap().maps == kept_regions(last, seen.take(n as int)),
    decreases n,
{
    let pred = |o: ObservationModel| keeps(last, o);
    let region = |o: ObservationModel| o.region;
    if n == 0 {
        assert(seen.take(0).filter(pred) =~= Seq::<ObservationModel>::empty()) by {
            reveal(Seq::filter);
        }
        assert(start.maps =~= kept_regions(last, seen.take(0)));
    } else {
        lemma_capture_grows(last, start, seen, (n - 1) as nat, n);
        lemma_captured_in_order(last, start, seen, (n - 1) as nat);
        let head = seen.take(n - 1);
        let item = seen[n - 1];
        assert(seen.take(n as int) =~= head.push(item));
        Seq::lemma_filter_push(head, item, pred);
        let before = captured(last, start, seen, (n - 1) as nat).unwrap();
        let after = captured(last, start, seen, n).unwrap();
        if keeps(last, item) {
            assert(after.maps == before.maps.push(item.region));
            assert(head.filter(pred).push(item).map_values(region) =~= head.filter(pred).map_values(
                region,
            ).push(item.region));
        } else {
            assert(after.maps == before.maps);
        }
    }
}

/// A capture that succeeds holds exactly the regions that its
/// observations add, in the order in which they were enumerated: a region
/// that belongs to a bootstrapper, and a region whose read failed with the
/// kernel's I/O error, are left out, and the regions behind them move up,
/// so that the indices have no gap.
pub proof fn lemma_capture_keeps_in_order(
    last: Seq<RegionModel>,
    regs: RegistersModel,
    seen: Seq<ObservationModel>,
    descriptors: Seq<FileModel>,
)
    ensures
        capture_of(last, regs, seen, descriptors) matches Ok(capture) ==> capture.maps
            == kept_regions(last, seen),
        forall|i: int|
            0 <= i < seen.len() && plan_of(last, (#[trigger] seen[i]).region) is Read && seen[i].read
                == ReadModel::Failed(EIO) ==> !keeps(last, seen[i]),
{
    if capture_of(last, regs, seen, descriptors) is Ok {
        lemma_captured_in_order(
            last,
            empty_capture(regs, regular_only(descriptors)),
            seen,
            seen.len(),
        );
        assert(seen.take(seen.len() as int) =~= seen);
    }
}

/// Whether the observations are those of one address space, in the order
/// of their addresses: no region is empty, and each ends where the next
/// starts, or before.
pub open spec fn address_space(seen: Seq<ObservationModel>) -> bool {
    &&& forall|i: int| 0 <= i < seen.len() ==> (#[trigger] seen[i]).region.low < seen[i].region.high
    &&& forall|i: int, j: int|
        0 <= i < j < seen.len() ==> (#[trigger] seen[i]).region.high <= (#[trigger] seen[j]).region.low
}

/// No region occurs twice in one address space.
pub proof fn lemma_address_space_distinct(seen: Seq<ObservationModel>)
    requires
        address_space(seen),
    ensures
        distinct_regions(seen),
{
    assert forall|i: int, j: int| 0 <= i < j < seen.len() implies (#[trigger] seen[i]).region != (
    #[trigger] seen[j]).region by {
        assert(seen[i].region.low < seen[i].region.high);
        assert(seen[i].region.high <= seen[j].region.low);
    }
}

} // verus!