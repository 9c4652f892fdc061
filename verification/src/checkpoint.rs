//! The checkpoint engine: the sequence of checkpoints under a root
//! directory, what is written for each, and which old ones are removed.

use vstd::prelude::*;
use vstd::string::StringSliceAdditionalSpecFns;
use crate::bytes::{join, joined};
use crate::capture::{capture, capture_of, mems_view, CaptureModel, Observation, VolatileCheckpoint};
use crate::compat::{Registers, RegistersModel};
use crate::decimal::{decimal, format_u64, parse_u64, parsed};
use crate::error::Error;
use crate::region::{FileDescriptorRecord, FileModel, RegionDescriptor, RegionModel};

verus! {

/// The name of the sequence pointer in the root directory.
pub const SEQ_NAME: &'static str = "seq";

/// The name of the register document in a checkpoint directory.
pub const REGS_NAME: &'static str = "regs";

/// The name of the region list in a checkpoint directory.
pub const MAPS_NAME: &'static str = "maps";

/// The name of the file list in a checkpoint directory.
pub const FILES_NAME: &'static str = "files";

/// The directory of checkpoint `seq` under `root`.
pub open spec fn dir_of(root: Seq<u8>, seq: nat) -> Seq<u8> {
    joined(root, decimal(seq))
}

/// The sequence number that the text of a sequence pointer stands for. An
/// empty pointer is one that was never written: no checkpoint was taken.
pub open spec fn sequence_of(text: Seq<u8>) -> Result<u64, Error> {
    if text.len() == 0 {
        Ok(0)
    } else {
        match parsed(text) {
            Some(seq) => Ok(seq),
            None => Err(Error::Decode),
        }
    }
}

/// Reads the sequence number from the text of the sequence pointer.
pub fn sequence_number(text: &[u8]) -> (r: Result<u64, Error>)
    ensures
        r == sequence_of(text@),
{
    if text.len() == 0 {
        return Ok(0);
    }
    match parse_u64(text) {
        Some(seq) => Ok(seq),
        None => Err(Error::Decode),
    }
}

/// What the engine remembers between checkpoints: the number of the newest
/// complete checkpoint, 0 if there is none, and the regions it holds.
#[derive(Debug, Clone, PartialEq, Eq)]
pub struct StepData {
    pub seq: u64,
    pub last_maps: Vec<RegionDescriptor>,
}

impl StepData {
    /// The state that is found under a root: `seq` is what the sequence
    /// pointer gave and `maps` the region list of that checkpoint. Where
    /// no checkpoint was taken there are no regions, whatever `maps` holds.
    pub fn open(seq: u64, maps: Vec<RegionDescriptor>) -> (step: StepData)
        ensures
            step.seq == seq,
            seq == 0 ==> step.last_maps.deep_view() == Seq::<RegionModel>::empty(),
            seq != 0 ==> step.last_maps.deep_view() == maps.deep_view(),
    {
        if seq == 0 {
            let step = StepData { seq, last_maps: Vec::new() };
            assert(step.last_maps.deep_view() =~= Seq::<RegionModel>::empty());
            step
        } else {
            StepData { seq, last_maps: maps }
        }
    }
}

/// One action on the file system, as a mathematical value.
pub enum FsOpModel {
    RemoveDirAll(Seq<u8>),
    CreateDir(Seq<u8>),
    WriteRegion { path: Seq<u8>, mem: usize },
    HardLink { existing: Seq<u8>, link: Seq<u8> },
    WriteRegs(Seq<u8>),
    WriteMaps(Seq<u8>),
    WriteFiles(Seq<u8>),
    WriteSeq { path: Seq<u8>, text: Seq<u8> },
}

/// One action on the file system that persists a checkpoint.
#[derive(Debug, Clone, PartialEq, Eq)]
pub enum FsOp {
    /// Remove the directory at this path with all it holds; none there is no failure.
    RemoveDirAll(Vec<u8>),
    /// Create the directory at this path.
    CreateDir(Vec<u8>),
    /// Write the bytes of entry `mem` of the checkpoint's `mems` to a new file at `path`.
    WriteRegion { path: Vec<u8>, mem: usize },
    /// Create `link` as a hard link to the file `existing`.
    HardLink { existing: Vec<u8>, link: Vec<u8> },
    /// Write the serialized registers to a new file at this path.
    WriteRegs(Vec<u8>),
    /// Write the serialized region list to a new file at this path.
    WriteMaps(Vec<u8>),
    /// Write the serialized file list to a new file at this path.
    WriteFiles(Vec<u8>),
    /// Replace what the sequence pointer at `path` holds by `text`, and sync it to disk.
    WriteSeq { path: Vec<u8>, text: Vec<u8> },
}

impl View for FsOp {
    type V = FsOpModel;

    open spec fn view(&self) -> FsOpModel {
        match *self {
            FsOp::RemoveDirAll(path) => FsOpModel::RemoveDirAll(path@),
            FsOp::CreateDir(path) => FsOpModel::CreateDir(path@),
            FsOp::WriteRegion { path, mem } => FsOpModel::WriteRegion { path: path@, mem },
            FsOp::HardLink { existing, link } => FsOpModel::HardLink {
                existing: existing@,
                link: link@,
            },
            FsOp::WriteRegs(path) => FsOpModel::WriteRegs(path@),
            FsOp::WriteMaps(path) => FsOpModel::WriteMaps(path@),
            FsOp::WriteFiles(path) => FsOpModel::WriteFiles(path@),
            FsOp::WriteSeq { path, text } => FsOpModel::WriteSeq { path: path@, text: text@ },
        }
    }
}

impl DeepView for FsOp {
    type V = FsOpModel;

    open spec fn deep_view(&self) -> FsOpModel {
        self@
    }
}

/// The actions that make room for checkpoint `seq`: what a crashed
/// attempt may have left of its directory goes, and the directory is created.
pub open spec fn opening_ops(root: Seq<u8>, seq: nat) -> Seq<FsOpModel> {
    seq![FsOpModel::RemoveDirAll(dir_of(root, seq)), FsOpModel::CreateDir(dir_of(root, seq))]
}

/// The actions that write the stored regions: entry `k` of `mems` goes to
/// the file named by its region's index.
pub open spec fn region_writes(dir: Seq<u8>, mems: Seq<(usize, Seq<u8>)>) -> Seq<FsOpModel> {
    Seq::new(
        mems.len(),
        |k: int|
            FsOpModel::WriteRegion {
                path: joined(dir, decimal(mems[k].0 as nat)),
                mem: k as usize,
            },
    )
}

/// The actions that link the reused regions: the file of the region's old
/// index in the previous checkpoint is linked under its new index.
pub open spec fn region_links(previous: Seq<u8>, dir: Seq<u8>, reusable: Seq<(usize, usize)>) -> Seq<
    FsOpModel,
> {
    Seq::new(
        reusable.len(),
        |k: int|
            FsOpModel::HardLink {
                existing: joined(previous, decimal(reusable[k].1 as nat)),
                link: joined(dir, decimal(reusable[k].0 as nat)),
            },
    )
}

/// The actions that complete checkpoint `seq`: the three documents, and
/// last of all the sequence pointer.
pub open spec fn closing_ops(root: Seq<u8>, seq: nat) -> Seq<FsOpModel> {
    seq![
        FsOpModel::WriteRegs(joined(dir_of(root, seq), REGS_NAME.spec_bytes())),
        FsOpModel::WriteMaps(joined(dir_of(root, seq), MAPS_NAME.spec_bytes())),
        FsOpModel::WriteFiles(joined(dir_of(root, seq), FILES_NAME.spec_bytes())),
        FsOpModel::WriteSeq { path: joined(root, SEQ_NAME.spec_bytes()), text: decimal(seq) },
    ]
}

/// All the actions that persist a capture as checkpoint `seq` under
/// `root`, in the order in which they are carried out.
pub open spec fn persist_ops(root: Seq<u8>, seq: nat, capture: CaptureModel) -> Seq<FsOpModel>
    recommends
        seq >= 1,
{
    opening_ops(root, seq) + region_writes(dir_of(root, seq), capture.mems) + region_links(
        dir_of(root, (seq - 1) as nat),
        dir_of(root, seq),
        capture.reusable_mems,
    ) + closing_ops(root, seq)
}

/// A checkpoint that is ready to be written, as a mathematical value.
pub struct CheckpointModel {
    pub seq: u64,
    pub regs: RegistersModel,
    pub mems: Seq<(usize, Seq<u8>)>,
    pub files: Seq<FileModel>,
    pub ops: Seq<FsOpModel>,
}

/// A checkpoint that is ready to be written: its number, the registers,
/// the stored regions and the files to serialize, and the actions that
/// persist it. The region list to serialize is the engine's `last_maps`.
#[derive(Debug, Clone, PartialEq, Eq)]
pub struct Checkpoint {
    pub seq: u64,
    pub regs: Registers,
    pub mems: Vec<(usize, Vec<u8>)>,
    pub files: Vec<FileDescriptorRecord>,
    pub ops: Vec<FsOp>,
}

impl View for Checkpoint {
    type V = CheckpointModel;

    open spec fn view(&self) -> CheckpointModel {
        CheckpointModel {
            seq: self.seq,
            regs: self.regs@,
            mems: mems_view(self.mems@),
            files: self.files.deep_view(),
            ops: self.ops.deep_view(),
        }
    }
}

/// The checkpoint engine of one target: the root directory of its
/// checkpoints and what it remembers between them.
#[derive(Debug, Clone, PartialEq, Eq)]
pub struct Checkpointer {
    pub path: Vec<u8>,
    pub step: StepData,
}

/// The directory of checkpoint `seq` under `root`.
pub fn checkpoint_dir(root: &[u8], seq: u64) -> (dir: Vec<u8>)
    ensures
        dir@ == dir_of(root@, seq as nat),
{
    let name = format_u64(seq);
    join(root, name.as_slice())
}

/// The actions that persist a capture as checkpoint `seq` under `root`.
fn plan_persist(root: &[u8], seq: u64, v_cp: &VolatileCheckpoint) -> (ops: Vec<FsOp>)
    requires
        seq >= 1,
    ensures
        ops.deep_view() == persist_ops(root@, seq as nat, v_cp@),
{
    let dir = checkpoint_dir(root, seq);
    let previous = checkpoint_dir(root, seq - 1);
    let mut ops: Vec<FsOp> = Vec::new();
    ops.push(FsOp::RemoveDirAll(dir.clone()));
    ops.push(FsOp::CreateDir(dir.clone()));
    assert(ops.deep_view() =~= opening_ops(root@, seq as nat));
    let ghost writes = region_writes(dir@, v_cp@.mems);
    let mut i: usize = 0;
    while i < v_cp.mems.len()
        invariant
            i <= v_cp.mems.len(),
            dir@ == dir_of(root@, seq as nat),
            writes == region_writes(dir@, v_cp@.mems),
            ops.deep_view() == opening_ops(root@, seq as nat) + writes.take(i as int),
        decreases v_cp.mems.len() - i,
    {
        let name = format_u64(v_cp.mems[i].0 as u64);
        let path = join(dir.as_slice(), name.as_slice());
        let ghost before = ops.deep_view();
        ops.push(FsOp::WriteRegion { path, mem: i });
        assert(v_cp@.mems[i as int].0 == v_cp.mems@[i as int].0);
        assert(ops.deep_view() =~= before.push(writes[i as int]));
        assert(writes.take(i + 1) =~= writes.take(i as int).push(writes[i as int]));
        i += 1;
    }
    assert(writes.take(i as int) =~= writes);
    let ghost links = region_links(previous@, dir@, v_cp@.reusable_mems);
    let ghost head = ops.deep_view();
    let mut j: usize = 0;
    while j < v_cp.reusable_mems.len()
        invariant
            j <= v_cp.reusable_mems.len(),
            links == region_links(previous@, dir@, v_cp@.reusable_mems),
            ops.deep_view() == head + links.take(j as int),
        decreases v_cp.reusable_mems.len() - j,
    {
        let (new, old) = v_cp.reusable_mems[j];
        let old_name = format_u64(old as u64);
        let new_name = format_u64(new as u64);
        let existing = join(previous.as_slice(), old_name.as_slice());
        let link = join(dir.as_slice(), new_name.as_slice());
        let ghost before = ops.deep_view();
        ops.push(FsOp::HardLink { existing, link });
        assert(ops.deep_view() =~= before.push(links[j as int]));
        assert(links.take(j + 1) =~= links.take(j as int).push(links[j as int]));
        j += 1;
    }
    assert(links.take(j as int) =~= links);
    let ghost body = ops.deep_view();
    ops.push(FsOp::WriteRegs(join(dir.as_slice(), REGS_NAME.as_bytes())));
    ops.push(FsOp::WriteMaps(join(dir.as_slice(), MAPS_NAME.as_bytes())));
    ops.push(FsOp::WriteFiles(join(dir.as_slice(), FILES_NAME.as_bytes())));
    ops.push(FsOp::WriteSeq { path: join(root, SEQ_NAME.as_bytes()), text: format_u64(seq) });
    assert(ops.deep_view() =~= body + closing_ops(root@, seq as nat));
    ops
}

/// What removing a directory with all it holds gave.
#[derive(Debug, Clone, Copy, PartialEq, Eq, Structural)]
pub enum RemoveOutcome {
    /// The directory is gone.
    Removed,
    /// There was no such directory.
    NotFound,
    /// The removal failed for another reason.
    Failed,
}

/// Judges the removal of a directory that may not exist: that there was
/// none is no failure.
pub fn maybe_remove_dir_all(outcome: RemoveOutcome) -> (r: Result<(), Error>)
    ensures
        r == (match outcome {
            RemoveOutcome::Removed => Ok::<(), Error>(()),
            RemoveOutcome::NotFound => Ok(()),
            RemoveOutcome::Failed => Err(Error::Io),
        }),
{
    match outcome {
        RemoveOutcome::Removed => Ok(()),
        RemoveOutcome::NotFound => Ok(()),
        RemoveOutcome::Failed => Err(Error::Io),
    }
}

/// Whether checkpoint `cp` is removed when the ring holds `max_cps`
/// checkpoints and `seq` is the newest. A ring holds at least one
/// checkpoint, so the newest is never removed.
pub open spec fn culled(seq: nat, max_cps: nat, cp: nat) -> bool {
    max_cps >= 1 && seq >= max_cps && cp <= seq - max_cps
}

/// The directories of the checkpoints `first` to `last`, oldest first.
pub open spec fn dirs_between(root: Seq<u8>, first: nat, last: nat) -> Seq<Seq<u8>> {
    if first <= last {
        Seq::new((last - first + 1) as nat, |i: int| dir_of(root, (first + i) as nat))
    } else {
        Seq::empty()
    }
}

impl Checkpointer {
    /// The engine for the checkpoints under `path`, with the state that was
    /// found there. Nothing is done to any process.
    pub fn attach(path: Vec<u8>, step: StepData) -> (engine: Checkpointer)
        ensures
            engine.path == path,
            engine.step == step,
    {
        Checkpointer { path, step }
    }

    /// Builds what the next checkpoint captures from the registers, the
    /// regions and the open files of the stopped target. Regions are
    /// compared with those of the newest checkpoint.
    pub fn volatile_checkpoint(
        &self,
        regs: Registers,
        observations: Vec<Observation>,
        descriptors: &Vec<FileDescriptorRecord>,
    ) -> (r: Result<VolatileCheckpoint, Error>)
        ensures
            match capture_of(
                self.step.last_maps.deep_view(),
                regs@,
                observations.deep_view(),
                descriptors.deep_view(),
            ) {
                Ok(model) => r matches Ok(v_cp) && v_cp@ == model,
                Err(e) => r matches Err(f) && f == e,
            },
    {
        capture(&self.step.last_maps, regs, observations, descriptors)
    }

    /// Turns a capture into the next checkpoint: the sequence number goes
    /// up by one, the capture's regions become the regions remembered, and
    /// the result says what is to be written. With `time_pause` the pause
    /// that the caller measured is handed back. The engine's state is that
    /// after the checkpoint was written: where writing it fails, the
    /// engine is of no more use.
    ///
    /// At the largest sequence number there is no next checkpoint, and the
    /// engine stays as it is.
    pub fn checkpoint_timed(&mut self, v_cp: VolatileCheckpoint, time_pause: bool, pause: u64) -> (r:
        Result<(Checkpoint, Option<u64>), Error>)
        ensures
            old(self).step.seq == u64::MAX ==> (r matches Err(Error::Precondition)) && *final(self)
                == *old(self),
            old(self).step.seq < u64::MAX ==> (r matches Ok((checkpoint, measured)) && {
                &&& final(self).path == old(self).path
                &&& final(self).step.seq == old(self).step.seq + 1
                &&& final(self).step.last_maps.deep_view() == v_cp@.maps
                &&& checkpoint@.seq == final(self).step.seq
                &&& checkpoint@.regs == v_cp@.regs
                &&& checkpoint@.mems == v_cp@.mems
                &&& checkpoint@.files == v_cp@.files
                &&& checkpoint@.ops == persist_ops(
                    old(self).path@,
                    (old(self).step.seq + 1) as nat,
                    v_cp@,
                )
                &&& measured == (if time_pause {
                    Some(pause)
                } else {
                    None
                })
            }),
    {
        if self.step.seq == u64::MAX {
            return Err(Error::Precondition);
        }
        let seq = self.step.seq + 1;
        let ops = plan_persist(self.path.as_slice(), seq, &v_cp);
        let VolatileCheckpoint { regs, maps, mems, reusable_mems: _, files } = v_cp;
        self.step.seq = seq;
        self.step.last_maps = maps;
        let checkpoint = Checkpoint { seq, regs, mems, files, ops };
        let measured = if time_pause {
            Some(pause)
        } else {
            None
        };
        Ok((checkpoint, measured))
    }

    /// Turns a capture into the next checkpoint, as `checkpoint_timed`
    /// does, and hands back the pause that the caller measured.
    pub fn checkpoint(&mut self, v_cp: VolatileCheckpoint, pause: u64) -> (r: Result<
        (Checkpoint, u64),
        Error,
    >)
        ensures
            old(self).step.seq == u64::MAX ==> (r matches Err(Error::Precondition)) && *final(self)
                == *old(self),
            old(self).step.seq < u64::MAX ==> (r matches Ok((checkpoint, measured)) && {
                &&& final(self).path == old(self).path
                &&& final(self).step.seq == old(self).step.seq + 1
                &&& final(self).step.last_maps.deep_view() == v_cp@.maps
                &&& checkpoint@.seq == final(self).step.seq
                &&& checkpoint@.regs == v_cp@.regs
                &&& checkpoint@.mems == v_cp@.mems
                &&& checkpoint@.files == v_cp@.files
                &&& checkpoint@.ops == persist_ops(
                    old(self).path@,
                    (old(self).step.seq + 1) as nat,
                    v_cp@,
                )
                &&& measured == pause
            }),
    {
        match self.checkpoint_timed(v_cp, true, pause) {
            Ok((checkpoint, _)) => Ok((checkpoint, pause)),
            Err(e) => Err(e),
        }
    }

    /// Says which checkpoints go so that at most `max_cps` stay: none
    /// while the sequence number is below `max_cps`, and after that those
    /// from the first number to the one returned, which is `max_cps` below
    /// the newest. The newest checkpoint never goes: a ring of no
    /// checkpoint is refused, and nothing is to be removed then.
    pub fn cull_checkpoints(&self, max_cps: u64) -> (r: Result<Option<(u64, u64)>, Error>)
        ensures
            max_cps == 0 ==> r matches Err(Error::Precondition),
            max_cps >= 1 && self.step.seq < max_cps ==> r matches Ok(None),
            max_cps >= 1 && self.step.seq >= max_cps ==> r == Ok::<Option<(u64, u64)>, Error>(
                Some((0u64, (self.step.seq - max_cps) as u64)),
            ),
            forall|cp: nat|
                culled(self.step.seq as nat, max_cps as nat, cp) <==> (r matches Ok(
                    Some((first, last)),
                ) && first <= cp <= last),
            forall|cp: nat| culled(self.step.seq as nat, max_cps as nat, cp) ==> cp < self.step.seq,
    {
        if max_cps == 0 {
            return Err(Error::Precondition);
        }
        if self.step.seq < max_cps {
            return Ok(None);
        }
        Ok(Some((0, self.step.seq - max_cps)))
    }

    /// The directories of the checkpoints `first` to `last`, oldest first:
    /// these are removed, with all they hold.
    pub fn clean_checkpoints(&self, first: u64, last: u64) -> (dirs: Vec<Vec<u8>>)
        ensures
            dirs.deep_view() == dirs_between(self.path@, first as nat, last as nat),
    {
        let mut dirs: Vec<Vec<u8>> = Vec::new();
        if first > last {
            assert(dirs.deep_view() =~= Seq::<Seq<u8>>::empty());
            return dirs;
        }
        let ghost all = dirs_between(self.path@, first as nat, last as nat);
        let mut cp: u64 = first;
        assert(dirs.deep_view() =~= all.take(0));
        loop
            invariant
                first <= cp <= last,
                all == dirs_between(self.path@, first as nat, last as nat),
                dirs.deep_view() == all.take(cp - first),
            decreases last - cp,
        {
            let dir = checkpoint_dir(self.path.as_slice(), cp);
            let ghost before = dirs.deep_view();
            assert(dir.deep_view() =~= dir@);
            dirs.push(dir);
            assert(dirs.deep_view() =~= before.push(all[cp - first]));
            assert(all.take(cp - first + 1) =~= all.take(cp - first).push(all[cp - first]));
            if cp == last {
                assert(all.take(cp - first + 1) =~= all);
                return dirs;
            }
            cp += 1;
        }
    }
}

} // verus!
