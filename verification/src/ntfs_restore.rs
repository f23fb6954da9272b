//! Restoring a deleted file from an NTFS volume: what its record holds is written as it is, else
//! its clusters are read run by run.

use vstd::prelude::*;
use crate::ntfs::NtfsInfo;
use crate::types::{DeletedFile, FileModel};
use crate::walk::{answer, piece_models, Failure, Modelled, Piece, Request, Status, Task, TaskModel};

verus! {

/// The index, from `at` on, of the first run that is not empty; the number of runs where there is
/// none.
pub open spec fn next_run(runs: Seq<(u64, u64)>, at: int) -> int
    decreases runs.len() - at,
{
    if 0 <= at < runs.len() && runs[at].1 == 0 {
        next_run(runs, at + 1)
    } else {
        at
    }
}

/// Where cluster `done` of run `at` is: in that run, or, where it has no more, at the beginning of
/// the next run that is not empty.
pub open spec fn place(runs: Seq<(u64, u64)>, at: int, done: u64) -> (int, u64) {
    if 0 <= at < runs.len() && done < runs[at].1 {
        (at, done)
    } else if done == 0 {
        (next_run(runs, at), 0)
    } else {
        (next_run(runs, at + 1), 0)
    }
}

/// A restore along runs, as contracts speak of it.
pub struct NtfsRestoreModel {
    /// The number of bytes in a cluster.
    pub cluster_len: u32,
    /// Where the volume begins on the device, in bytes.
    pub base: u64,
    pub runs: Seq<(u64, u64)>,
    /// The index of the current run.
    pub at: int,
    /// The number of clusters of the current run that have been read.
    pub done: u64,
    /// The number of bytes that are still to be written.
    pub remaining: u64,
    /// How the restore ended, once it has.
    pub ended: Option<Status>,
}

impl NtfsRestoreModel {
    /// The restore of `size` bytes along runs.
    pub open spec fn begin(
        cluster_len: u32,
        base: u64,
        runs: Seq<(u64, u64)>,
        size: u64,
    ) -> Self {
        NtfsRestoreModel {
            cluster_len,
            base,
            runs,
            at: 0,
            done: 0,
            remaining: size,
            ended: None,
        }.arrived(0, 0)
    }

    /// The restore about to read cluster `done` of run `at`, or that of a later run where run `at`
    /// has no more; it ends where there are no more bytes to write or no more clusters to read.
    pub open spec fn arrived(self, at: int, done: u64) -> Self {
        let (to, from) = place(self.runs, at, done);
        NtfsRestoreModel {
            at: to,
            done: from,
            ended: if self.remaining == 0 || to >= self.runs.len() {
                Some(Ok(()))
            } else {
                None
            },
            ..self
        }
    }

    /// The byte offset of the current cluster.
    pub open spec fn offset(self) -> int {
        self.base + (self.runs[self.at].0 + self.done) * self.cluster_len
    }

    /// How many bytes of the current cluster belong to the file.
    pub open spec fn take_len(self) -> int {
        if self.cluster_len <= self.remaining {
            self.cluster_len as int
        } else {
            self.remaining as int
        }
    }
}

impl TaskModel for NtfsRestoreModel {
    type Out = Seq<u8>;

    open spec fn wants(self) -> Option<Request> {
        match self.ended {
            None => Some(Request { offset: self.offset() as u64, len: self.cluster_len as usize }),
            Some(_) => None,
        }
    }

    open spec fn pieces(self, reply: Option<Seq<u8>>) -> Seq<Piece<Self, Seq<u8>>> {
        match reply {
            Some(data) => seq![Piece::Emit(data.take(self.take_len()))],
            None => seq![],
        }
    }

    open spec fn next(self, reply: Option<Seq<u8>>) -> Self {
        match reply {
            Some(_) => NtfsRestoreModel {
                remaining: (self.remaining - self.take_len()) as u64,
                ..self
            }.arrived(self.at, (self.done + 1) as u64),
            None => NtfsRestoreModel {
                ended: Some(Err(Failure::Unreadable { offset: self.offset() as u64 })),
                ..self
            },
        }
    }

    open spec fn status(self) -> Status {
        match self.ended {
            Some(status) => status,
            None => Ok(()),
        }
    }

    open spec fn valid(self) -> bool {
        &&& 0 <= self.at <= self.runs.len()
        &&& self.ended is None ==> self.at < self.runs.len() && self.done < self.runs[self.at].1
            && self.offset() <= u64::MAX
    }

    /// An answer after which the next cluster has an address.
    open spec fn accepts(self, reply: Option<Seq<u8>>) -> bool {
        reply is Some ==> self.next(reply).valid()
    }
}

/// A restore along runs.
pub struct NtfsRestore {
    cluster_len: u32,
    base: u64,
    runs: Vec<(u64, u64)>,
    at: usize,
    done: u64,
    remaining: u64,
    ended: Option<Status>,
}

impl Modelled for NtfsRestore {
    type Model = NtfsRestoreModel;

    type Output = Vec<u8>;

    closed spec fn model(self) -> NtfsRestoreModel {
        NtfsRestoreModel {
            cluster_len: self.cluster_len,
            base: self.base,
            runs: self.runs@,
            at: self.at as int,
            done: self.done,
            remaining: self.remaining,
            ended: self.ended,
        }
    }

    open spec fn output(out: Vec<u8>) -> Seq<u8> {
        out@
    }
}

proof fn lemma_next_run(runs: Seq<(u64, u64)>, at: int)
    requires
        0 <= at <= runs.len(),
    ensures
        at <= next_run(runs, at) <= runs.len(),
        next_run(runs, at) < runs.len() ==> runs[next_run(runs, at)].1 > 0,
    decreases runs.len() - at,
{
    if at < runs.len() && runs[at].1 == 0 {
        lemma_next_run(runs, at + 1);
    }
}

fn find_next_run(runs: &Vec<(u64, u64)>, at: usize) -> (next: usize)
    requires
        at <= runs@.len(),
    ensures
        next == next_run(runs@, at as int),
        next <= runs@.len(),
        next < runs@.len() ==> runs@[next as int].1 > 0,
{
    proof {
        lemma_next_run(runs@, at as int);
    }
    let mut i: usize = at;
    while i < runs.len() && runs[i].1 == 0
        invariant
            i <= runs@.len(),
            next_run(runs@, i as int) == next_run(runs@, at as int),
        decreases runs@.len() - i,
    {
        i = i + 1;
    }
    i
}

fn find_place(runs: &Vec<(u64, u64)>, at: usize, done: u64) -> (found: (usize, u64))
    requires
        at < runs@.len() || (at == runs@.len() && done == 0),
    ensures
        (found.0 as int, found.1) == place(runs@, at as int, done),
        found.0 <= runs@.len(),
        found.0 < runs@.len() ==> found.1 < runs@[found.0 as int].1,
{
    if at < runs.len() && done < runs[at].1 {
        (at, done)
    } else {
        (find_next_run(runs, if done == 0 { at } else { at + 1 }), 0)
    }
}

fn copy_runs(runs: &Vec<(u64, u64)>) -> (same: Vec<(u64, u64)>)
    ensures
        same@ == runs@,
{
    let mut same: Vec<(u64, u64)> = Vec::new();
    let mut i: usize = 0;
    while i < runs.len()
        invariant
            i <= runs@.len(),
            same@ == runs@.take(i as int),
        decreases runs@.len() - i,
    {
        same.push(runs[i]);
        i = i + 1;
    }
    assert(runs@.take(i as int) =~= runs@);
    same
}

impl NtfsRestore {
    /// The number of bytes that are still to be written.
    pub fn remaining(&self) -> (remaining: u64)
        ensures
            remaining == self.model().remaining,
    {
        self.remaining
    }

    fn arrive(&mut self, at: usize, done: u64)
        requires
            at < old(self).runs@.len() || (at == old(self).runs@.len() && done == 0),
        ensures
            final(self).model() == old(self).model().arrived(at as int, done),
            final(self).at <= final(self).runs@.len(),
            final(self).ended is None ==> final(self).at < final(self).runs@.len()
                && final(self).done < final(self).runs@[final(self).at as int].1,
    {
        let (to, from) = find_place(&self.runs, at, done);
        self.at = to;
        self.done = from;
        self.ended = if self.remaining == 0 || to >= self.runs.len() {
            Some(Ok(()))
        } else {
            None
        };
    }

    /// The byte offset of cluster `done` of run `at`, where it has one.
    fn address(&self, at: usize, done: u64) -> (address: Option<u64>)
        requires
            at < self.runs@.len(),
        ensures
            ({
                let offset = (NtfsRestoreModel { at: at as int, done, ..self.model() }).offset();
                &&& address is Some <==> offset <= u64::MAX
                &&& address matches Some(o) ==> o == offset
            }),
    {
        let c: u128 = self.runs[at].0 as u128 + done as u128;
        let n: u128 = self.cluster_len as u128;
        assert(c * n <= 0x1_FFFF_FFFF_FFFF_FFFE * 0xFFFF_FFFF) by (nonlinear_arith)
            requires
                c <= 0x1_FFFF_FFFF_FFFF_FFFE,
                n <= 0xFFFF_FFFF,
        ;
        let offset: u128 = self.base as u128 + c * n;
        if offset <= u64::MAX as u128 {
            Some(offset as u64)
        } else {
            None
        }
    }

    /// How many bytes of the current cluster belong to the file.
    fn part(&self) -> (n: u64)
        ensures
            n == self.model().take_len(),
            n <= self.remaining,
            n <= self.cluster_len,
    {
        if self.cluster_len as u64 <= self.remaining {
            self.cluster_len as u64
        } else {
            self.remaining
        }
    }
}

impl Task for NtfsRestore {
    fn wants(&self) -> (request: Option<Request>) {
        match self.ended {
            None => match self.address(self.at, self.done) {
                Some(offset) => Some(Request { offset, len: self.cluster_len as usize }),
                None => None,
            },
            Some(_) => None,
        }
    }

    fn status(&self) -> (status: Status) {
        match self.ended {
            Some(status) => status,
            None => Ok(()),
        }
    }

    fn can_take(&self, reply: Option<&[u8]>) -> (takes: bool) {
        if reply.is_none() {
            return true;
        }
        let (at, done) = find_place(&self.runs, self.at, self.done + 1);
        self.remaining == self.part() || at >= self.runs.len() || self.address(at, done).is_some()
    }

    fn resume(self, reply: Option<&[u8]>) -> (turn: (Vec<Piece<Self, Vec<u8>>>, Self)) {
        let ghost model = self.model();
        let mut pieces: Vec<Piece<NtfsRestore, Vec<u8>>> = Vec::new();
        assert(piece_models::<NtfsRestore>(pieces@) =~= seq![]);
        let mut task = self;
        match reply {
            Some(data) => {
                let n: usize = task.part() as usize;
                let chunk = vstd::slice::slice_to_vec(vstd::slice::slice_subrange(data, 0, n));
                assert(chunk@ =~= data@.take(n as int));
                pieces.push(Piece::Emit(chunk));
                assert(piece_models::<NtfsRestore>(pieces@) =~= model.pieces(answer(reply)));
                task.remaining = task.remaining - n as u64;
                let (at, done): (usize, u64) = (task.at, task.done + 1);
                task.arrive(at, done);
            },
            None => {
                match task.address(task.at, task.done) {
                    Some(offset) => {
                        task.ended = Some(Err(Failure::Unreadable { offset }));
                    },
                    None => {},
                }
            },
        }
        (pieces, task)
    }
}

// ---------------------------------------------------------------------------------------------
// Beginning a restore
// ---------------------------------------------------------------------------------------------

/// The number of bytes in a cluster of a volume.
pub open spec fn cluster_len(info: NtfsInfo) -> int {
    info.bytes_per_sector * info.sectors_per_cluster
}

/// The runs along which a file is read: its own, or, where it has none, all clusters from its
/// address on.
pub open spec fn restore_runs(info: NtfsInfo, entry: FileModel) -> Seq<(u64, u64)> {
    if entry.data_runs.len() > 0 || entry.size == 0 {
        entry.data_runs
    } else {
        seq![((entry.start_address as int / cluster_len(info)) as u64, u64::MAX)]
    }
}

/// How a file is restored, as contracts speak of it.
pub enum NtfsPlanModel {
    /// These bytes are the file.
    Whole(Seq<u8>),
    /// The file is read along runs.
    Clusters(NtfsRestoreModel),
}

/// How a file is restored.
pub open spec fn restore_plan(info: NtfsInfo, entry: FileModel) -> NtfsPlanModel {
    match entry.resident_data {
        Some(data) => NtfsPlanModel::Whole(data),
        None => NtfsPlanModel::Clusters(
            NtfsRestoreModel::begin(
                cluster_len(info) as u32,
                info.partition_offset,
                restore_runs(info, entry),
                entry.size,
            ),
        ),
    }
}

/// Whether the restore of a file can begin: where the file's own address is gone by, clusters hold
/// something, and the first cluster has an address.
pub open spec fn restorable(info: NtfsInfo, entry: FileModel) -> bool {
    restore_plan(info, entry) matches NtfsPlanModel::Clusters(task) ==> {
        &&& entry.data_runs.len() == 0 && entry.size > 0 ==> cluster_len(info) > 0
        &&& task.valid()
    }
}

/// How a file is restored.
pub enum NtfsPlan {
    /// These bytes are the file.
    Whole(Vec<u8>),
    /// The file is read along runs.
    Clusters(NtfsRestore),
}

impl NtfsPlan {
    /// The plan as contracts speak of it.
    pub open spec fn model(self) -> NtfsPlanModel {
        match self {
            NtfsPlan::Whole(data) => NtfsPlanModel::Whole(data@),
            NtfsPlan::Clusters(task) => NtfsPlanModel::Clusters(task.model()),
        }
    }
}

/// Begins the restore of a file, or tells that it cannot begin.
pub fn try_restore(info: &NtfsInfo, entry: &DeletedFile) -> (plan: Option<NtfsPlan>)
    ensures
        plan is Some <==> restorable(*info, entry@),
        plan matches Some(p) ==> p.model() == restore_plan(*info, entry@),
{
    match &entry.resident_data {
        Some(data) => {
            return Some(NtfsPlan::Whole(data.clone()));
        },
        None => {},
    }
    let (b, s): (u32, u32) = (info.bytes_per_sector as u32, info.sectors_per_cluster as u32);
    assert(0 <= b * s <= 0xFFFF * 0xFF) by (nonlinear_arith)
        requires
            0 <= b <= 0xFFFF,
            0 <= s <= 0xFF,
    ;
    let cluster_len: u32 = b * s;
    let runs = if entry.data_runs.len() > 0 || entry.size == 0 {
        copy_runs(&entry.data_runs)
    } else if cluster_len == 0 {
        return None;
    } else {
        vec![(entry.start_address / cluster_len as u64, u64::MAX)]
    };
    assert(runs@ =~= restore_runs(*info, entry@));
    let mut task = NtfsRestore {
        cluster_len,
        base: info.partition_offset,
        runs,
        at: 0,
        done: 0,
        remaining: entry.size,
        ended: None,
    };
    task.arrive(0, 0);
    if task.ended.is_some() || task.address(task.at, task.done).is_some() {
        Some(NtfsPlan::Clusters(task))
    } else {
        None
    }
}

/// Tells whether the restore of a file can begin.
pub fn is_restorable(info: &NtfsInfo, entry: &DeletedFile) -> (answer: bool)
    ensures
        answer == restorable(*info, entry@),
{
    try_restore(info, entry).is_some()
}

/// Begins the restore of a file.
pub fn restore(info: &NtfsInfo, entry: &DeletedFile) -> (plan: NtfsPlan)
    requires
        restorable(*info, entry@),
    ensures
        plan.model() == restore_plan(*info, entry@),
        plan matches NtfsPlan::Clusters(task) ==> task.model().valid(),
{
    match try_restore(info, entry) {
        Some(plan) => plan,
        None => {
            assert(false);
            NtfsPlan::Whole(Vec::new())
        },
    }
}

} // verus!
