//! The scan of an exFAT volume: each directory is read cluster by cluster along its chain, and a
//! file is described by a primary entry and the secondary entries that follow it.

use std::collections::HashSet;
use vstd::prelude::*;
use crate::bytes::{le_u16, le_u32, read_u16_le, read_u32_le};
use crate::fat::ExfatInfo;
use crate::fat_entry::{units_text, utf16_to_string};
use crate::fat_scan::{
    entry_of, join_path, leads_on, read_table_value, sub_path, table_value, ChainPhase,
    FAT_ENTRY_END_MIN, FAT_ENTRY_FREE,
};
use crate::text::{hex, push_hex};
use crate::types::{directory_bit, is_directory, DeletedFile, FileModel};
use crate::walk::{
    all_valid, piece_models, Modelled, Piece, Request, Status, Task, TaskModel, Walk, WalkModel,
};

verus! {

// ---------------------------------------------------------------------------------------------
// Entry sets
// ---------------------------------------------------------------------------------------------

/// The first byte of a deleted entry.
pub const EXFAT_DELETED: u8 = 0xE5;

/// The greatest number of secondary entries that are looked for behind a deleted primary entry.
pub const MAX_DELETED_SECONDARIES: usize = 20;

/// The number of entries in a cluster.
pub open spec fn entry_count(data: Seq<u8>) -> int {
    data.len() as int / 32
}

/// The fourteen UTF-16 units in a file name entry.
pub open spec fn name_entry_units(entry: Seq<u8>) -> Seq<u16> {
    Seq::new(14, |k: int| le_u16(entry, 4 + 2 * k) as u16)
}

/// Whether a secondary entry is a stream extension.
pub open spec fn stream_entry(entry: Seq<u8>) -> bool {
    entry[2] == 0 && entry[3] > 0
}

/// Whether a secondary entry is a file name entry.
pub open spec fn name_entry(entry: Seq<u8>) -> bool {
    entry[2] == 0 && entry[3] == 0
}

/// What the secondary entries of a file say of it.
pub struct SetModel {
    pub name: Seq<char>,
    pub size: u64,
    /// The first cluster of the contents; 0 where none is stated.
    pub cluster: u32,
}

impl SetModel {
    /// Nothing said yet.
    pub open spec fn none() -> Self {
        SetModel { name: seq![], size: 0, cluster: 0 }
    }

    /// With what a secondary entry adds. A stream extension states size and first cluster, a file
    /// name entry continues the name.
    pub open spec fn with(self, entry: Seq<u8>) -> Self {
        if stream_entry(entry) {
            SetModel {
                size: le_u32(entry, 24) as u64,
                cluster: if le_u32(entry, 20) >= 2 {
                    le_u32(entry, 20) as u32
                } else {
                    self.cluster
                },
                ..self
            }
        } else if name_entry(entry) {
            SetModel { name: self.name + units_text(name_entry_units(entry)), ..self }
        } else {
            self
        }
    }
}

/// The least of two numbers.
pub open spec fn least(a: int, b: int) -> int {
    if a <= b {
        a
    } else {
        b
    }
}

/// Whether an entry can belong to the set of a deleted primary entry.
pub open spec fn deleted_secondary(entry: Seq<u8>) -> bool {
    entry[0] == EXFAT_DELETED && entry[2] == 0
}

/// The number of entries, out of those from `from` up to but not including `to`, before the first
/// that cannot belong to a deleted set.
pub open spec fn deleted_run(data: Seq<u8>, from: int, to: int) -> nat
    decreases to - from,
{
    if from >= to || !deleted_secondary(entry_of(data, from)) {
        0
    } else {
        1 + deleted_run(data, from + 1, to)
    }
}

/// The number of secondary entries behind the deleted primary entry `i`.
pub open spec fn deleted_secondaries(data: Seq<u8>, i: int) -> nat {
    deleted_run(data, i + 1, least(i + 1 + MAX_DELETED_SECONDARIES, entry_count(data)))
}

/// What the `n` entries from `from` on say of a deleted file.
pub open spec fn deleted_set(data: Seq<u8>, from: int, n: nat) -> SetModel
    decreases n,
{
    if n == 0 {
        SetModel::none()
    } else {
        deleted_set(data, from, (n - 1) as nat).with(entry_of(data, from + n - 1))
    }
}

/// Whether an entry can belong to the set of a primary entry that is there.
pub open spec fn active_secondary(entry: Seq<u8>) -> bool {
    entry[0] >= 0x80
}

/// The number of entries, out of those from `from` up to but not including `to`, before the first
/// that cannot belong to the set of a file that is there.
pub open spec fn active_run(data: Seq<u8>, from: int, to: int) -> nat
    decreases to - from,
{
    if from >= to || !active_secondary(entry_of(data, from)) {
        0
    } else {
        1 + active_run(data, from + 1, to)
    }
}

/// The number of secondary entries behind the primary entry `i`, which states how many there are.
pub open spec fn active_secondaries(data: Seq<u8>, i: int) -> nat {
    active_run(data, i + 1, least(i + 1 + entry_of(data, i)[1], entry_count(data)))
}

/// What the `n` entries from `from` on say of a file that is there. A file name entry whose first
/// byte of text is zero is passed over.
pub open spec fn active_set(data: Seq<u8>, from: int, n: nat) -> SetModel
    decreases n,
{
    if n == 0 {
        SetModel::none()
    } else {
        let before = active_set(data, from, (n - 1) as nat);
        let entry = entry_of(data, from + n - 1);
        if name_entry(entry) && entry[4] == 0 {
            before
        } else {
            before.with(entry)
        }
    }
}

/// Whether an entry type is that of a primary entry that is there and may be a directory.
pub open spec fn active_primary(entry_type: u8) -> bool {
    entry_type % 2 == 1 && (entry_type < 0x80 || entry_type == 0x85)
}

/// The file that a deleted set describes.
pub open spec fn deleted_exfat_file(
    info: ExfatInfo,
    path: Seq<char>,
    attr: u8,
    set: SetModel,
) -> FileModel {
    FileModel {
        name: if set.name.len() > 0 {
            set.name
        } else {
            "DELETED_EXFAT_0x"@ + hex(set.cluster as nat, 8)
        },
        size: set.size,
        start_address: if set.cluster >= 2 {
            info.cluster_at(set.cluster as int) as u64
        } else {
            0
        },
        fs_type: "exFAT"@,
        path,
        is_directory: directory_bit(attr),
        resident_data: None,
        data_runs: seq![],
    }
}

// ---------------------------------------------------------------------------------------------
// A directory
// ---------------------------------------------------------------------------------------------

/// A directory being scanned, as contracts speak of it.
pub struct ExfatDirModel {
    pub info: ExfatInfo,
    pub cluster: u32,
    pub visited: Set<u32>,
    pub path: Seq<char>,
    pub phase: ChainPhase,
}

impl ExfatDirModel {
    /// The scan of the directory that begins at `start`.
    pub open spec fn open(info: ExfatInfo, start: u32, path: Seq<char>) -> Self {
        ExfatDirModel {
            info,
            cluster: start,
            visited: Set::empty(),
            path,
            phase: ChainPhase::Contents,
        }.arrive(start)
    }

    /// The directory on arrival at a cluster: it ends at a number that is no cluster or that it
    /// has been to.
    pub open spec fn arrive(self, cluster: u32) -> Self {
        if cluster >= 2 && !self.visited.contains(cluster) {
            ExfatDirModel {
                cluster,
                visited: self.visited.insert(cluster),
                phase: ChainPhase::Contents,
                ..self
            }
        } else {
            self.ended()
        }
    }

    /// The directory after its end.
    pub open spec fn ended(self) -> Self {
        ExfatDirModel { phase: ChainPhase::Ended(Ok(())), ..self }
    }

    /// What the directory has of a primary entry that is there: the scan of a subdirectory.
    pub open spec fn active_pieces(self, attr: u8, set: SetModel) -> Seq<Piece<Self, FileModel>> {
        if directory_bit(attr) && set.name.len() > 0 && set.cluster >= 2 {
            seq![
                Piece::Enter(
                    ExfatDirModel::open(self.info, set.cluster, sub_path(self.path, set.name)),
                ),
            ]
        } else {
            seq![]
        }
    }

    /// What the directory has of the entries of a cluster from entry `i` on.
    pub open spec fn listing(self, data: Seq<u8>, i: int) -> Seq<Piece<Self, FileModel>>
        decreases
            (if i < entry_count(data) {
                entry_count(data) - i
            } else {
                0
            }),
    {
        let entry = entry_of(data, i);
        if i >= entry_count(data) || entry[0] == 0 {
            seq![]
        } else if entry[0] == EXFAT_DELETED {
            let n = deleted_secondaries(data, i);
            let set = deleted_set(data, i + 1, n);
            seq![Piece::Emit(deleted_exfat_file(self.info, self.path, entry[3], set))]
                + self.listing(data, i + 1 + n)
        } else if active_primary(entry[0]) {
            let set = active_set(data, i + 1, active_secondaries(data, i));
            self.active_pieces(entry[3], set) + self.listing(data, i + 1 + entry[1])
        } else {
            self.listing(data, i + 1)
        }
    }
}

impl TaskModel for ExfatDirModel {
    type Out = FileModel;

    open spec fn wants(self) -> Option<Request> {
        match self.phase {
            ChainPhase::Contents => Some(
                Request {
                    offset: self.info.cluster_at(self.cluster as int) as u64,
                    len: self.info.cluster_len() as usize,
                },
            ),
            ChainPhase::TableEntry => Some(
                Request { offset: self.info.entry_at(self.cluster as int) as u64, len: 4 },
            ),
            ChainPhase::Ended(_) => None,
        }
    }

    open spec fn pieces(self, reply: Option<Seq<u8>>) -> Seq<Piece<Self, FileModel>> {
        match (self.phase, reply) {
            (ChainPhase::Contents, Some(data)) => self.listing(data, 0),
            _ => seq![],
        }
    }

    open spec fn next(self, reply: Option<Seq<u8>>) -> Self {
        match (self.phase, reply) {
            (ChainPhase::Contents, Some(data)) => ExfatDirModel {
                phase: ChainPhase::TableEntry,
                ..self
            },
            (ChainPhase::TableEntry, Some(entry)) => if leads_on(table_value(entry)) {
                self.arrive(table_value(entry))
            } else {
                self.ended()
            },
            _ => self.ended(),
        }
    }

    open spec fn status(self) -> Status {
        match self.phase {
            ChainPhase::Ended(status) => status,
            _ => Ok(()),
        }
    }

    open spec fn valid(self) -> bool {
        self.info.addressable() && (self.phase is Ended || self.cluster >= 2)
    }

    open spec fn accepts(self, reply: Option<Seq<u8>>) -> bool {
        true
    }
}

/// A directory of an exFAT volume being scanned.
pub struct ExfatDir {
    info: ExfatInfo,
    cluster: u32,
    visited: HashSet<u32>,
    path: String,
    phase: ChainPhase,
}

impl Modelled for ExfatDir {
    type Model = ExfatDirModel;

    type Output = DeletedFile;

    closed spec fn model(self) -> ExfatDirModel {
        ExfatDirModel {
            info: self.info,
            cluster: self.cluster,
            visited: self.visited@,
            path: self.path@,
            phase: self.phase,
        }
    }

    open spec fn output(out: DeletedFile) -> FileModel {
        out@
    }
}

struct EntrySet {
    name: String,
    size: u64,
    cluster: u32,
}

impl EntrySet {
    spec fn model(self) -> SetModel {
        SetModel { name: self.name@, size: self.size, cluster: self.cluster }
    }

    fn new() -> (set: EntrySet)
        ensures
            set.model() == SetModel::none(),
    {
        EntrySet { name: String::new(), size: 0, cluster: 0 }
    }

    /// Takes in a secondary entry.
    fn add(&mut self, entry: &[u8])
        requires
            entry@.len() == 32,
        ensures
            final(self).model() == old(self).model().with(entry@),
    {
        if entry[2] == 0 && entry[3] > 0 {
            self.size = read_u32_le(entry, 24) as u64;
            let cluster: u32 = read_u32_le(entry, 20);
            if cluster >= 2 {
                self.cluster = cluster;
            }
        } else if entry[2] == 0 {
            let mut units: Vec<u16> = Vec::with_capacity(14);
            let mut k: usize = 0;
            while k < 14
                invariant
                    entry@.len() == 32,
                    k <= 14,
                    units@.len() == k,
                    forall|j: int| 0 <= j < k ==> units@[j] == le_u16(entry@, 4 + 2 * j),
                decreases 14 - k,
            {
                units.push(read_u16_le(entry, 4 + 2 * k));
                k = k + 1;
            }
            assert(units@ =~= name_entry_units(entry@));
            let part = utf16_to_string(units.as_slice());
            self.name.append(part.as_str());
        }
    }
}

fn entry_slice(data: &[u8], i: usize) -> (entry: &[u8])
    requires
        i < entry_count(data@),
    ensures
        entry@ == entry_of(data@, i as int),
        entry@.len() == 32,
{
    let n: usize = data.len();
    vstd::slice::slice_subrange(data, i * 32, i * 32 + 32)
}

/// Reads the set of a deleted primary entry: what it says and how many entries it takes.
fn read_deleted_set(data: &[u8], i: usize) -> (set: (EntrySet, usize))
    requires
        i < entry_count(data@),
    ensures
        set.1 == deleted_secondaries(data@, i as int),
        set.0.model() == deleted_set(data@, i + 1, set.1 as nat),
        i + set.1 < entry_count(data@),
{
    let count: usize = data.len() / 32;
    let limit: usize = if count - i - 1 < MAX_DELETED_SECONDARIES {
        count
    } else {
        i + 1 + MAX_DELETED_SECONDARIES
    };
    let mut set = EntrySet::new();
    let mut n: usize = 0;
    let mut go_on: bool = true;
    while go_on && i + 1 + n < limit
        invariant
            i < count == entry_count(data@),
            limit == least(i + 1 + MAX_DELETED_SECONDARIES, count as int),
            i + 1 + n <= limit <= count,
            set.model() == deleted_set(data@, i + 1, n as nat),
            go_on ==> n + deleted_run(data@, i + 1 + n, limit as int) == deleted_secondaries(
                data@,
                i as int,
            ),
            !go_on ==> n == deleted_secondaries(data@, i as int),
        decreases limit - n + (if go_on { 1int } else { 0 }),
    {
        let entry = entry_slice(data, i + 1 + n);
        if entry[0] == EXFAT_DELETED && entry[2] == 0 {
            set.add(entry);
            n = n + 1;
        } else {
            go_on = false;
        }
    }
    (set, n)
}

/// Reads the set of a primary entry that is there.
fn read_active_set(data: &[u8], i: usize) -> (set: EntrySet)
    requires
        i < entry_count(data@),
    ensures
        set.model() == active_set(data@, i + 1, active_secondaries(data@, i as int)),
{
    let count: usize = data.len() / 32;
    let stated: usize = entry_slice(data, i)[1] as usize;
    let limit: usize = if count - i - 1 < stated {
        count
    } else {
        i + 1 + stated
    };
    let mut set = EntrySet::new();
    let mut n: usize = 0;
    let mut go_on: bool = true;
    while go_on && i + 1 + n < limit
        invariant
            i < count == entry_count(data@),
            stated == entry_of(data@, i as int)[1],
            limit == least(i + 1 + stated, count as int),
            i + 1 + n <= limit <= count,
            set.model() == active_set(data@, i + 1, n as nat),
            go_on ==> n + active_run(data@, i + 1 + n, limit as int) == active_secondaries(
                data@,
                i as int,
            ),
            !go_on ==> n == active_secondaries(data@, i as int),
        decreases limit - n + (if go_on { 1int } else { 0 }),
    {
        let entry = entry_slice(data, i + 1 + n);
        if entry[0] >= 0x80 {
            if !(entry[2] == 0 && entry[3] == 0 && entry[4] == 0) {
                set.add(entry);
            }
            n = n + 1;
        } else {
            go_on = false;
        }
    }
    set
}

impl ExfatDir {
    /// Begins the scan of the directory that begins at `start`.
    pub fn open(info: ExfatInfo, start: u32, path: String) -> (dir: ExfatDir)
        requires
            info.addressable(),
        ensures
            dir.model() == ExfatDirModel::open(info, start, path@),
            dir.model().valid(),
    {
        let mut dir = ExfatDir {
            info,
            cluster: start,
            visited: HashSet::new(),
            path,
            phase: ChainPhase::Contents,
        };
        dir.arrive(start);
        dir
    }

    fn arrive(&mut self, cluster: u32)
        requires
            old(self).info.addressable(),
        ensures
            final(self).model() == old(self).model().arrive(cluster),
            final(self).model().valid(),
    {
        if 2 <= cluster && self.visited.insert(cluster) {
            self.cluster = cluster;
            self.phase = ChainPhase::Contents;
        } else {
            assert(self.visited@ =~= old(self).visited@);
            self.phase = ChainPhase::Ended(Ok(()));
        }
    }

    /// The file of the deleted set whose primary entry has the attributes `attr`.
    fn file_of(&self, attr: u8, set: EntrySet) -> (file: DeletedFile)
        requires
            self.info.addressable(),
        ensures
            file@ == deleted_exfat_file(self.info, self.path@, attr, set.model()),
    {
        proof {
            self.info.lemma_addressable(set.cluster);
        }
        let start_address: u64 = if set.cluster >= 2 {
            self.info.cluster_to_offset(set.cluster)
        } else {
            0
        };
        let name = if set.name.as_str().is_empty() {
            let mut name = String::new();
            name.append("DELETED_EXFAT_0x");
            push_hex(&mut name, set.cluster as u64, 8);
            assert(name@ =~= "DELETED_EXFAT_0x"@ + hex(set.cluster as nat, 8));
            name
        } else {
            set.name
        };
        let file = DeletedFile {
            name,
            size: set.size,
            start_address,
            fs_type: "exFAT".to_owned(),
            path: self.path.clone(),
            is_directory: is_directory(attr),
            resident_data: None,
            data_runs: Vec::new(),
        };
        assert(file@.data_runs =~= seq![]);
        file
    }

    /// Takes in the entries of a cluster.
    fn take_cluster(&self, data: &[u8]) -> (pieces: Vec<Piece<ExfatDir, DeletedFile>>)
        requires
            self.info.addressable(),
        ensures
            piece_models::<ExfatDir>(pieces@) == self.model().listing(data@, 0),
            all_valid(self.model().listing(data@, 0)),
    {
        let ghost dir = self.model();
        let mut pieces: Vec<Piece<ExfatDir, DeletedFile>> = Vec::new();
        let count: usize = data.len() / 32;
        let mut i: usize = 0;
        let mut go_on: bool = true;
        assert(piece_models::<ExfatDir>(pieces@) =~= seq![]);
        while go_on && i < count
            invariant
                self.info.addressable(),
                dir == self.model(),
                count == entry_count(data@),
                all_valid(piece_models::<ExfatDir>(pieces@)),
                go_on ==> piece_models::<ExfatDir>(pieces@) + dir.listing(data@, i as int)
                    =~= dir.listing(data@, 0),
                !go_on ==> piece_models::<ExfatDir>(pieces@) =~= dir.listing(data@, 0),
            decreases count - i + (if go_on { 1int } else { 0 }),
        {
            let entry = entry_slice(data, i);
            let entry_type: u8 = entry[0];
            let attr: u8 = entry[3];
            let ghost had = pieces@;
            if entry_type == 0 {
                go_on = false;
            } else if entry_type == EXFAT_DELETED {
                let (set, n) = read_deleted_set(data, i);
                let file = self.file_of(attr, set);
                pieces.push(Piece::Emit(file));
                assert(piece_models::<ExfatDir>(pieces@) =~= piece_models::<ExfatDir>(had).push(
                    Piece::Emit(file@),
                ));
                i = i + n + 1;
            } else if entry_type % 2 == 1 && (entry_type < 0x80 || entry_type == 0x85) {
                let set = read_active_set(data, i);
                if is_directory(attr) && !set.name.as_str().is_empty() && set.cluster >= 2 {
                    let path = join_path(self.path.as_str(), set.name.as_str());
                    let child = ExfatDir::open(self.info, set.cluster, path);
                    pieces.push(Piece::Enter(child));
                    assert(piece_models::<ExfatDir>(pieces@) =~= piece_models::<ExfatDir>(
                        had,
                    ).push(Piece::Enter(child.model())));
                }
                let stated: usize = entry[1] as usize;
                if count - i <= stated + 1 {
                    assert(dir.listing(data@, i + 1 + stated) =~= seq![]);
                    go_on = false;
                } else {
                    i = i + stated + 1;
                }
            } else {
                i = i + 1;
            }
        }
        assert(go_on ==> dir.listing(data@, i as int) =~= seq![]);
        assert(piece_models::<ExfatDir>(pieces@) =~= dir.listing(data@, 0));
        pieces
    }
}

impl Task for ExfatDir {
    fn wants(&self) -> (request: Option<Request>) {
        proof {
            self.info.lemma_addressable(self.cluster);
        }
        match self.phase {
            ChainPhase::Contents => Some(
                Request {
                    offset: self.info.cluster_to_offset(self.cluster),
                    len: self.info.bytes_per_cluster() as usize,
                },
            ),
            ChainPhase::TableEntry => Some(
                Request { offset: self.info.fat_entry_offset(self.cluster), len: 4 },
            ),
            ChainPhase::Ended(_) => None,
        }
    }

    fn status(&self) -> (status: Status) {
        match self.phase {
            ChainPhase::Ended(status) => status,
            _ => Ok(()),
        }
    }

    fn can_take(&self, reply: Option<&[u8]>) -> (takes: bool) {
        true
    }

    fn resume(self, reply: Option<&[u8]>) -> (turn: (Vec<Piece<Self, DeletedFile>>, Self)) {
        let mut dir = self;
        let mut pieces: Vec<Piece<ExfatDir, DeletedFile>> = Vec::new();
        assert(piece_models::<ExfatDir>(pieces@) =~= seq![]);
        match reply {
            Some(data) => {
                match dir.phase {
                    ChainPhase::Contents => {
                        pieces = dir.take_cluster(data);
                        dir.phase = ChainPhase::TableEntry;
                    },
                    _ => {
                        let value: u32 = read_table_value(data);
                        if value >= FAT_ENTRY_END_MIN || value == FAT_ENTRY_FREE {
                            dir.phase = ChainPhase::Ended(Ok(()));
                        } else {
                            dir.arrive(value);
                        }
                    },
                }
            },
            None => {
                dir.phase = ChainPhase::Ended(Ok(()));
            },
        }
        (pieces, dir)
    }
}

/// Begins the scan of a volume at its root directory.
pub fn scan_exfat(info: &ExfatInfo) -> (walk: Walk<ExfatDir>)
    requires
        info.addressable(),
    ensures
        walk.model() == WalkModel::start(
            ExfatDirModel::open(*info, info.root_cluster, Seq::empty()),
        ),
        walk.model().valid(),
{
    Walk::start(ExfatDir::open(*info, info.root_cluster, String::new()))
}

} // verus!
