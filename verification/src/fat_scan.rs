//! The scan of a FAT32 volume: each directory is read cluster by cluster along its chain.

use std::collections::HashSet;
use vstd::prelude::*;
use crate::bytes::{le_u32, read_u32_le};
use crate::fat::Fat32Info;
use crate::fat_entry::{
    active_lfn, active_short, deleted_lfn, deleted_short, end_of_dir, entry_cluster, entry_size,
    extract_83_name, extract_lfn_utf16, get_cluster, get_file_size, is_active_lfn_entry,
    is_active_short_entry, is_deleted_lfn_entry, is_deleted_short_entry, is_end_of_dir, lfn_units,
    long_units, short_name, units_text, utf16_to_string,
};
use crate::types::{directory_bit, is_directory, DeletedFile, FileModel};
use crate::walk::{
    all_valid, piece_models, Failure, Modelled, Piece, Request, Status, Task, TaskModel, Walk,
    WalkModel,
};

verus! {

/// The least table entry that ends a chain.
pub const FAT_ENTRY_END_MIN: u32 = 0x0FFF_FFF8;

/// The table entry of a free cluster.
pub const FAT_ENTRY_FREE: u32 = 0;

/// The value of an allocation table entry: its lower 28 bits.
pub open spec fn table_value(entry: Seq<u8>) -> u32 {
    (le_u32(entry, 0) % 0x1000_0000) as u32
}

/// The value of an allocation table entry: its lower 28 bits.
pub fn read_table_value(entry: &[u8]) -> (value: u32)
    requires
        entry@.len() == 4,
    ensures
        value == table_value(entry@),
        value < 0x1000_0000,
{
    read_u32_le(entry, 0) % 0x1000_0000
}

/// Whether a table entry leads on to another cluster.
pub open spec fn leads_on(value: u32) -> bool {
    value < FAT_ENTRY_END_MIN && value != FAT_ENTRY_FREE
}

/// The path of something in a directory.
pub open spec fn sub_path(path: Seq<char>, name: Seq<char>) -> Seq<char> {
    if path.len() == 0 {
        name
    } else {
        path + "/"@ + name
    }
}

/// The path of something in a directory.
pub fn join_path(path: &str, name: &str) -> (joined: String)
    ensures
        joined@ == sub_path(path@, name@),
{
    let mut joined = String::new();
    if !path.is_empty() {
        joined.append(path);
        joined.append("/");
    }
    joined.append(name);
    assert(joined@ =~= sub_path(path@, name@));
    joined
}

// ---------------------------------------------------------------------------------------------
// The entries of a cluster
// ---------------------------------------------------------------------------------------------

/// The parts of long names that were met and not yet used: of deleted files, and of files that are
/// there. Each part is its UTF-16 units, in the order in which the entries are stored.
pub struct PartsModel {
    pub deleted: Seq<Seq<u16>>,
    pub active: Seq<Seq<u16>>,
}

impl PartsModel {
    /// No parts.
    pub open spec fn none() -> Self {
        PartsModel { deleted: seq![], active: seq![] }
    }

    /// The parts that are pending after an entry.
    pub open spec fn after_entry(self, entry: Seq<u8>) -> Self {
        if deleted_lfn(entry) {
            PartsModel { deleted: self.deleted.push(lfn_units(entry)), active: self.active }
        } else if deleted_short(entry) {
            PartsModel { deleted: seq![], active: self.active }
        } else if active_lfn(entry) {
            PartsModel { deleted: seq![], active: self.active.push(lfn_units(entry)) }
        } else {
            PartsModel::none()
        }
    }

    /// The parts that are pending after the first `n` entries of a cluster.
    pub open spec fn after_entries(self, data: Seq<u8>, n: nat) -> Self
        decreases n,
    {
        if n == 0 {
            self
        } else {
            self.after_entries(data, (n - 1) as nat).after_entry(entry_of(data, n - 1))
        }
    }
}

/// Entry `i` of a cluster.
pub open spec fn entry_of(data: Seq<u8>, i: int) -> Seq<u8> {
    data.subrange(32 * i, 32 * i + 32)
}

/// The number of entries, out of those from `i` on, before the one that ends the directory or the
/// end of the cluster.
pub open spec fn entries_from(data: Seq<u8>, i: int) -> nat
    decreases data.len() - 32 * i,
{
    if i < 0 || 32 * i + 32 > data.len() || end_of_dir(entry_of(data, i)) {
        0
    } else {
        1 + entries_from(data, i + 1)
    }
}

/// The name of a deleted entry: its long name where that is left, else its short name.
pub open spec fn deleted_name(parts: PartsModel, entry: Seq<u8>) -> Seq<char> {
    let long = units_text(long_units(parts.deleted));
    if long.len() > 0 {
        long
    } else {
        short_name(entry)
    }
}

/// The name of an entry that is there.
pub open spec fn active_name(parts: PartsModel, entry: Seq<u8>) -> Seq<char> {
    if parts.active.len() > 0 {
        units_text(long_units(parts.active))
    } else {
        short_name(entry)
    }
}

/// The file that a deleted entry describes.
pub open spec fn deleted_file(
    info: Fat32Info,
    path: Seq<char>,
    parts: PartsModel,
    entry: Seq<u8>,
) -> FileModel {
    let cluster = entry_cluster(entry);
    FileModel {
        name: deleted_name(parts, entry),
        size: entry_size(entry) as u64,
        start_address: if cluster >= 2 {
            info.cluster_at(cluster as int) as u64
        } else {
            0
        },
        fs_type: "FAT32"@,
        path,
        is_directory: directory_bit(entry[11]),
        resident_data: None,
        data_runs: seq![],
    }
}

// ---------------------------------------------------------------------------------------------
// A directory
// ---------------------------------------------------------------------------------------------

/// What a directory waits for.
#[derive(Debug, Clone, Copy)]
pub enum ChainPhase {
    /// The contents of its current cluster.
    Contents,
    /// The table entry of its current cluster.
    TableEntry,
    /// Nothing: it has ended.
    Ended(Status),
}

/// A directory being scanned, as contracts speak of it.
pub struct Fat32DirModel {
    pub info: Fat32Info,
    /// The first cluster of the directory.
    pub start: u32,
    pub cluster: u32,
    pub visited: Set<u32>,
    pub path: Seq<char>,
    pub parts: PartsModel,
    pub phase: ChainPhase,
}

impl Fat32DirModel {
    /// The scan of the directory that begins at `start`.
    pub open spec fn open(info: Fat32Info, start: u32, path: Seq<char>) -> Self {
        Fat32DirModel {
            info,
            start,
            cluster: start,
            visited: Set::empty(),
            path,
            parts: PartsModel::none(),
            phase: ChainPhase::Contents,
        }.arrive(start)
    }

    /// The directory on arrival at a cluster: it ends at a number that is no cluster or that it
    /// has been to.
    pub open spec fn arrive(self, cluster: u32) -> Self {
        if 2 <= cluster < FAT_ENTRY_END_MIN && !self.visited.contains(cluster) {
            Fat32DirModel {
                cluster,
                visited: self.visited.insert(cluster),
                phase: ChainPhase::Contents,
                ..self
            }
        } else {
            Fat32DirModel { phase: ChainPhase::Ended(Ok(())), ..self }
        }
    }

    /// What the directory has of one entry: the file of a deleted entry, the scan of a
    /// subdirectory.
    pub open spec fn entry_pieces(self, parts: PartsModel, entry: Seq<u8>) -> Seq<
        Piece<Self, FileModel>,
    > {
        if deleted_short(entry) {
            seq![Piece::Emit(deleted_file(self.info, self.path, parts, entry))]
        } else if active_short(entry) && directory_bit(entry[11]) && entry_cluster(entry) != 0
            && entry_cluster(entry) != self.start {
            seq![
                Piece::Enter(
                    Fat32DirModel::open(
                        self.info,
                        entry_cluster(entry),
                        sub_path(self.path, active_name(parts, entry)),
                    ),
                ),
            ]
        } else {
            seq![]
        }
    }

    /// What the directory has of the first `n` entries of a cluster.
    pub open spec fn listing(self, data: Seq<u8>, n: nat) -> Seq<Piece<Self, FileModel>>
        decreases n,
    {
        if n == 0 {
            seq![]
        } else {
            self.listing(data, (n - 1) as nat) + self.entry_pieces(
                self.parts.after_entries(data, (n - 1) as nat),
                entry_of(data, n - 1),
            )
        }
    }
}

impl TaskModel for Fat32DirModel {
    type Out = FileModel;

    open spec fn wants(self) -> Option<Request> {
        match self.phase {
            ChainPhase::Contents => Some(
                Request {
                    offset: self.info.cluster_at(self.cluster as int) as u64,
                    len: self.info.cluster_len() as usize,
                },
            ),
            ChainPhase::TableEntry => Some(
                Request { offset: self.info.entry_at(self.cluster as int) as u64, len: 4 },
            ),
            ChainPhase::Ended(_) => None,
        }
    }

    open spec fn pieces(self, reply: Option<Seq<u8>>) -> Seq<Piece<Self, FileModel>> {
        match (self.phase, reply) {
            (ChainPhase::Contents, Some(data)) => self.listing(data, entries_from(data, 0)),
            _ => seq![],
        }
    }

    open spec fn next(self, reply: Option<Seq<u8>>) -> Self {
        match (self.phase, reply) {
            (ChainPhase::Contents, Some(data)) => Fat32DirModel {
                parts: self.parts.after_entries(data, entries_from(data, 0)),
                phase: ChainPhase::TableEntry,
                ..self
            },
            (ChainPhase::TableEntry, Some(entry)) => if leads_on(table_value(entry)) {
                self.arrive(table_value(entry))
            } else {
                Fat32DirModel { phase: ChainPhase::Ended(Ok(())), ..self }
            },
            _ => Fat32DirModel {
                phase: ChainPhase::Ended(
                    Err(Failure::Unreadable { offset: self.wants()->0.offset }),
                ),
                ..self
            },
        }
    }

    open spec fn status(self) -> Status {
        match self.phase {
            ChainPhase::Ended(status) => status,
            _ => Ok(()),
        }
    }

    open spec fn valid(self) -> bool {
        self.info.addressable() && (self.phase is Ended || self.cluster >= 2)
    }

    open spec fn accepts(self, reply: Option<Seq<u8>>) -> bool {
        true
    }
}

/// Parts as contracts speak of them.
pub open spec fn unit_models(parts: Seq<Vec<u16>>) -> Seq<Seq<u16>> {
    Seq::new(parts.len(), |i: int| parts[i]@)
}

/// A directory of a FAT32 volume being scanned.
pub struct Fat32Dir {
    info: Fat32Info,
    start: u32,
    cluster: u32,
    visited: HashSet<u32>,
    path: String,
    deleted_parts: Vec<Vec<u16>>,
    active_parts: Vec<Vec<u16>>,
    phase: ChainPhase,
}

impl Modelled for Fat32Dir {
    type Model = Fat32DirModel;

    type Output = DeletedFile;

    closed spec fn model(self) -> Fat32DirModel {
        Fat32DirModel {
            info: self.info,
            start: self.start,
            cluster: self.cluster,
            visited: self.visited@,
            path: self.path@,
            parts: PartsModel {
                deleted: unit_models(self.deleted_parts@),
                active: unit_models(self.active_parts@),
            },
            phase: self.phase,
        }
    }

    open spec fn output(out: DeletedFile) -> FileModel {
        out@
    }
}

/// The text of the long name that stored parts hold.
fn long_name(parts: &Vec<Vec<u16>>) -> (name: String)
    ensures
        name@ == units_text(long_units(unit_models(parts@))),
{
    let mut units: Vec<u16> = Vec::new();
    let mut i: usize = parts.len();
    let ghost all = unit_models(parts@);
    assert(all.take(i as int) =~= all);
    while i > 0
        invariant
            i <= parts@.len(),
            all == unit_models(parts@),
            units@ + long_units(all.take(i as int)) =~= long_units(all),
        decreases i,
    {
        i = i - 1;
        assert(all.take(i + 1).drop_last() =~= all.take(i as int));
        assert(all.take(i + 1).last() == parts@[i as int]@);
        units.extend_from_slice(parts[i].as_slice());
        assert(units@ + long_units(all.take(i as int)) =~= long_units(all));
    }
    assert(long_units(all.take(0)) =~= seq![]);
    assert(units@ =~= long_units(all));
    utf16_to_string(units.as_slice())
}

impl Fat32Dir {
    /// Begins the scan of the directory that begins at `start`.
    pub fn open(info: Fat32Info, start: u32, path: String) -> (dir: Fat32Dir)
        requires
            info.addressable(),
        ensures
            dir.model() == Fat32DirModel::open(info, start, path@),
            dir.model().valid(),
    {
        let mut dir = Fat32Dir {
            info,
            start,
            cluster: start,
            visited: HashSet::new(),
            path,
            deleted_parts: Vec::new(),
            active_parts: Vec::new(),
            phase: ChainPhase::Contents,
        };
        assert(unit_models(Seq::empty()) =~= seq![]);
        dir.arrive(start);
        dir
    }

    fn arrive(&mut self, cluster: u32)
        requires
            old(self).info.addressable(),
        ensures
            final(self).model() == old(self).model().arrive(cluster),
            final(self).model().valid(),
    {
        if 2 <= cluster && cluster < FAT_ENTRY_END_MIN && self.visited.insert(cluster) {
            self.cluster = cluster;
            self.phase = ChainPhase::Contents;
        } else {
            assert(self.visited@ =~= old(self).visited@);
            self.phase = ChainPhase::Ended(Ok(()));
        }
    }

    /// Takes in one entry that does not end the directory.
    fn take_entry(&mut self, entry: &[u8], pieces: &mut Vec<Piece<Fat32Dir, DeletedFile>>)
        requires
            old(self).info.addressable(),
            entry@.len() == 32,
        ensures
            final(self).model() == (Fat32DirModel {
                parts: old(self).model().parts.after_entry(entry@),
                ..old(self).model()
            }),
            piece_models::<Fat32Dir>(final(pieces)@) == piece_models::<Fat32Dir>(old(pieces)@)
                + old(self).model().entry_pieces(old(self).model().parts, entry@),
            all_valid(old(self).model().entry_pieces(old(self).model().parts, entry@)),
    {
        let ghost before = self.model();
        let ghost had = pieces@;
        if is_deleted_lfn_entry(entry) {
            self.deleted_parts.push(extract_lfn_utf16(entry));
            assert(self.model().parts.deleted =~= before.parts.deleted.push(lfn_units(entry@)));
            assert(piece_models::<Fat32Dir>(had) =~= piece_models::<Fat32Dir>(had) + seq![]);
        } else if is_deleted_short_entry(entry) {
            let long = long_name(&self.deleted_parts);
            let name = if !long.as_str().is_empty() {
                long
            } else {
                extract_83_name(entry)
            };
            let cluster: u32 = get_cluster(entry);
            proof {
                self.info.lemma_addressable(cluster);
            }
            let start_address: u64 = if cluster >= 2 {
                self.info.cluster_to_offset(cluster)
            } else {
                0
            };
            let file = DeletedFile {
                name,
                size: get_file_size(entry) as u64,
                start_address,
                fs_type: "FAT32".to_owned(),
                path: self.path.clone(),
                is_directory: is_directory(entry[11]),
                resident_data: None,
                data_runs: Vec::new(),
            };
            assert(file@.data_runs =~= seq![]);
            assert(file@ == deleted_file(before.info, before.path, before.parts, entry@));
            pieces.push(Piece::Emit(file));
            self.deleted_parts.clear();
            assert(self.model().parts.deleted =~= seq![]);
            assert(piece_models::<Fat32Dir>(pieces@) =~= piece_models::<Fat32Dir>(had)
                + before.entry_pieces(before.parts, entry@));
        } else if is_active_lfn_entry(entry) {
            self.active_parts.push(extract_lfn_utf16(entry));
            self.deleted_parts.clear();
            assert(self.model().parts.active =~= before.parts.active.push(lfn_units(entry@)));
            assert(self.model().parts.deleted =~= seq![]);
            assert(piece_models::<Fat32Dir>(had) =~= piece_models::<Fat32Dir>(had) + seq![]);
        } else {
            if is_active_short_entry(entry) && is_directory(entry[11]) {
                let cluster: u32 = get_cluster(entry);
                if cluster != 0 && cluster != self.start {
                    let name = if self.active_parts.len() > 0 {
                        long_name(&self.active_parts)
                    } else {
                        extract_83_name(entry)
                    };
                    let path = join_path(self.path.as_str(), name.as_str());
                    let child = Fat32Dir::open(self.info, cluster, path);
                    pieces.push(Piece::Enter(child));
                }
            }
            self.deleted_parts.clear();
            self.active_parts.clear();
            assert(self.model().parts.deleted =~= seq![]);
            assert(self.model().parts.active =~= seq![]);
            assert(piece_models::<Fat32Dir>(pieces@) =~= piece_models::<Fat32Dir>(had)
                + before.entry_pieces(before.parts, entry@));
        }
    }

    /// Takes in the entries of a cluster.
    fn take_cluster(&mut self, data: &[u8]) -> (pieces: Vec<Piece<Fat32Dir, DeletedFile>>)
        requires
            old(self).info.addressable(),
        ensures
            final(self).model() == (Fat32DirModel {
                parts: old(self).model().parts.after_entries(data@, entries_from(data@, 0)),
                ..old(self).model()
            }),
            piece_models::<Fat32Dir>(pieces@) == old(self).model().listing(
                data@,
                entries_from(data@, 0),
            ),
            all_valid(old(self).model().listing(data@, entries_from(data@, 0))),
    {
        let ghost before = self.model();
        let mut pieces: Vec<Piece<Fat32Dir, DeletedFile>> = Vec::new();
        let count: usize = data.len() / 32;
        let mut i: usize = 0;
        assert(piece_models::<Fat32Dir>(pieces@) =~= seq![]);
        while i < count && !is_end_of_dir(vstd::slice::slice_subrange(data, i * 32, i * 32 + 32))
            invariant
                count == data@.len() / 32,
                data@.len() <= usize::MAX,
                i <= count,
                before.info.addressable(),
                self.model() == (Fat32DirModel {
                    parts: before.parts.after_entries(data@, i as nat),
                    ..before
                }),
                piece_models::<Fat32Dir>(pieces@) == before.listing(data@, i as nat),
                all_valid(before.listing(data@, i as nat)),
                i + entries_from(data@, i as int) == entries_from(data@, 0),
            decreases count - i,
        {
            let entry = vstd::slice::slice_subrange(data, i * 32, i * 32 + 32);
            assert(entry@ == entry_of(data@, i as int));
            let ghost now = self.model();
            self.take_entry(entry, &mut pieces);
            assert(now.entry_pieces(now.parts, entry@) == before.entry_pieces(now.parts, entry@));
            i = i + 1;
        }
        assert(entries_from(data@, i as int) == 0);
        pieces
    }
}

impl Task for Fat32Dir {
    fn wants(&self) -> (request: Option<Request>) {
        proof {
            self.info.lemma_addressable(self.cluster);
        }
        match self.phase {
            ChainPhase::Contents => Some(
                Request {
                    offset: self.info.cluster_to_offset(self.cluster),
                    len: self.info.bytes_per_cluster() as usize,
                },
            ),
            ChainPhase::TableEntry => Some(
                Request { offset: self.info.fat_entry_offset(self.cluster), len: 4 },
            ),
            ChainPhase::Ended(_) => None,
        }
    }

    fn status(&self) -> (status: Status) {
        match self.phase {
            ChainPhase::Ended(status) => status,
            _ => Ok(()),
        }
    }

    fn can_take(&self, reply: Option<&[u8]>) -> (takes: bool) {
        true
    }

    fn resume(self, reply: Option<&[u8]>) -> (turn: (Vec<Piece<Self, DeletedFile>>, Self)) {
        let ghost model = self.model();
        let request = self.wants();
        let mut dir = self;
        let mut pieces: Vec<Piece<Fat32Dir, DeletedFile>> = Vec::new();
        assert(piece_models::<Fat32Dir>(pieces@) =~= seq![]);
        match reply {
            Some(data) => {
                match dir.phase {
                    ChainPhase::Contents => {
                        pieces = dir.take_cluster(data);
                        dir.phase = ChainPhase::TableEntry;
                    },
                    _ => {
                        let value: u32 = read_table_value(data);
                        if value >= FAT_ENTRY_END_MIN || value == FAT_ENTRY_FREE {
                            dir.phase = ChainPhase::Ended(Ok(()));
                        } else {
                            dir.arrive(value);
                        }
                    },
                }
            },
            None => {
                match request {
                    Some(r) => {
                        dir.phase = ChainPhase::Ended(
                            Err(Failure::Unreadable { offset: r.offset }),
                        );
                    },
                    None => {},
                }
            },
        }
        (pieces, dir)
    }
}

/// Begins the scan of a volume at its root directory.
pub fn scan_fat32(info: &Fat32Info) -> (walk: Walk<Fat32Dir>)
    requires
        info.addressable(),
    ensures
        walk.model() == WalkModel::start(
            Fat32DirModel::open(*info, info.root_cluster, Seq::empty()),
        ),
        walk.model().valid(),
{
    Walk::start(Fat32Dir::open(*info, info.root_cluster, String::new()))
}

} // verus!
