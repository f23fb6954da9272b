//! The scan of an NTFS volume: the records of the master file table are gone through twice, first
//! for the names of the directories that are there, then for the files that are not.

use std::collections::HashMap;
use vstd::prelude::*;
use crate::bytes::{has_tag, tag_at};
use crate::ntfs::{
    attribute_models, attributes, build_path, data_model, data_size, dir_models, directory_path,
    extract_data_size, extract_file_name_info, extract_resident_data, file_name, is_name_readable,
    name_model, name_readable, parse_attributes, resident_data, FileNameInfo, NameModel, NtfsInfo,
    ATTR_DATA, ATTR_FILE_NAME, MFT_ROOT_DIR_RECORD,
};
use crate::ntfs_runs::{are_runs_decodable, data_runs, parse_data_runs, runs_decodable};
use crate::text::{decimal, push_decimal};
use crate::types::{DeletedFile, FileModel};
use crate::walk::{
    answer, piece_models, Modelled, Piece, Request, Status, Task, TaskModel, Walk, WalkModel,
};

verus! {

/// The number of records that are gone through at most.
pub const MAX_RECORDS: u64 = 100_000;

/// The number of records in which an empty one does not end the search for directories.
pub const RESERVED_RECORDS: u64 = 100;

// ---------------------------------------------------------------------------------------------
// Records
// ---------------------------------------------------------------------------------------------

/// Whether a record has the tag of a file record.
pub open spec fn file_record(record: Seq<u8>) -> bool {
    has_tag(record, 0, "FILE"@)
}

/// Whether a record is in use.
pub open spec fn in_use(record: Seq<u8>) -> bool {
    record[0x16] % 2 == 1
}

/// Whether a record is that of a directory.
pub open spec fn directory_record(record: Seq<u8>) -> bool {
    (record[0x16] / 2) % 2 == 1
}

/// Whether every byte of a record is zero.
pub open spec fn blank(record: Seq<u8>) -> bool {
    forall|i: int| 0 <= i < record.len() ==> record[i] == 0
}

/// The name that the last of the attributes to have one gives.
pub open spec fn last_name(attrs: Seq<(u32, Seq<u8>)>) -> Option<NameModel>
    decreases attrs.len(),
{
    if attrs.len() == 0 {
        None
    } else if attrs.last().0 == ATTR_FILE_NAME && file_name(attrs.last().1) is Some {
        file_name(attrs.last().1)
    } else {
        last_name(attrs.drop_last())
    }
}

/// The name that the first of the attributes to have one gives.
pub open spec fn first_name(attrs: Seq<(u32, Seq<u8>)>) -> Option<NameModel>
    decreases attrs.len(),
{
    if attrs.len() == 0 {
        None
    } else if first_name(attrs.drop_last()) is Some {
        first_name(attrs.drop_last())
    } else if attrs.last().0 == ATTR_FILE_NAME {
        file_name(attrs.last().1)
    } else {
        None
    }
}

/// Whether an attribute has no name of its own.
pub open spec fn unnamed(attr: Seq<u8>) -> bool {
    attr.len() <= 9 || attr[9] == 0
}

/// The last of the data attributes without a name.
pub open spec fn last_unnamed_data(attrs: Seq<(u32, Seq<u8>)>) -> Option<Seq<u8>>
    decreases attrs.len(),
{
    if attrs.len() == 0 {
        None
    } else if attrs.last().0 == ATTR_DATA && unnamed(attrs.last().1) {
        Some(attrs.last().1)
    } else {
        last_unnamed_data(attrs.drop_last())
    }
}

/// The first of the data attributes.
pub open spec fn first_data(attrs: Seq<(u32, Seq<u8>)>) -> Option<Seq<u8>>
    decreases attrs.len(),
{
    if attrs.len() == 0 {
        None
    } else if first_data(attrs.drop_last()) is Some {
        first_data(attrs.drop_last())
    } else if attrs.last().0 == ATTR_DATA {
        Some(attrs.last().1)
    } else {
        None
    }
}

/// The attribute that holds the contents of a file: one without a name before all others, and one
/// with a name only as long as there is nothing else.
pub open spec fn contents_attribute(attrs: Seq<(u32, Seq<u8>)>) -> Option<Seq<u8>> {
    match last_unnamed_data(attrs) {
        Some(attr) => Some(attr),
        None => first_data(attrs),
    }
}

/// The number of clusters in a volume.
pub open spec fn cluster_count(info: NtfsInfo) -> u64 {
    (info.total_sectors as int / info.sectors_per_cluster as int) as u64
}

/// The byte offset of a cluster on the device.
pub open spec fn cluster_offset(info: NtfsInfo, cluster: int) -> int {
    info.partition_offset + cluster * info.bytes_per_sector * info.sectors_per_cluster
}

/// The runs of the contents of a file.
pub open spec fn contents_runs(info: NtfsInfo, attrs: Seq<(u32, Seq<u8>)>) -> Seq<(u64, u64)> {
    match contents_attribute(attrs) {
        Some(attr) => data_runs(attr, cluster_count(info)),
        None => seq![],
    }
}

/// The size of the contents of a file.
pub open spec fn contents_size(attrs: Seq<(u32, Seq<u8>)>) -> u64 {
    match contents_attribute(attrs) {
        Some(attr) => data_size(attr),
        None => 0,
    }
}

/// The contents of a file, where its record holds them.
pub open spec fn contents_inside(info: NtfsInfo, attrs: Seq<(u32, Seq<u8>)>) -> Option<Seq<u8>> {
    match contents_attribute(attrs) {
        Some(attr) => if contents_runs(info, attrs).len() == 0 && data_size(attr) > 0 {
            resident_data(attr)
        } else {
            None
        },
        None => None,
    }
}

/// The deleted file that record `index` describes.
pub open spec fn deleted_ntfs_file(
    info: NtfsInfo,
    dirs: Map<u64, NameModel>,
    index: u64,
    record: Seq<u8>,
) -> FileModel {
    let attrs = attributes(record);
    let runs = contents_runs(info, attrs);
    FileModel {
        name: match first_name(attrs) {
            Some(name) => name.name,
            None => "MFT_RECORD_"@ + decimal(index as nat),
        },
        size: contents_size(attrs),
        start_address: if runs.len() > 0 {
            cluster_offset(info, runs[0].0 as int) as u64
        } else {
            0
        },
        fs_type: "NTFS"@,
        path: directory_path(
            dirs,
            match first_name(attrs) {
                Some(name) => name.parent_ref,
                None => MFT_ROOT_DIR_RECORD,
            },
        ),
        is_directory: directory_record(record),
        resident_data: contents_inside(info, attrs),
        data_runs: runs,
    }
}

/// The known directories after record `index`.
pub open spec fn dirs_after(
    dirs: Map<u64, NameModel>,
    index: u64,
    record: Seq<u8>,
) -> Map<u64, NameModel> {
    if file_record(record) && in_use(record) && directory_record(record) {
        match last_name(attributes(record)) {
            Some(name) => dirs.insert(index, name),
            None => dirs,
        }
    } else {
        dirs
    }
}

// ---------------------------------------------------------------------------------------------
// Records that can be read
// ---------------------------------------------------------------------------------------------

/// Whether the name of attribute `k` is read when the first name is looked for.
pub open spec fn name_consulted(attrs: Seq<(u32, Seq<u8>)>, k: int) -> bool {
    0 <= k < attrs.len() && attrs[k].0 == ATTR_FILE_NAME && first_name(attrs.take(k)) is None
}

/// Whether the runs of attribute `k` are read when the contents are looked for.
pub open spec fn data_consulted(attrs: Seq<(u32, Seq<u8>)>, k: int) -> bool {
    &&& 0 <= k < attrs.len()
    &&& attrs[k].0 == ATTR_DATA
    &&& unnamed(attrs[k].1) || first_data(attrs.take(k)) is None
}

/// Whether every name among the attributes can be read.
pub open spec fn names_readable(attrs: Seq<(u32, Seq<u8>)>) -> bool {
    forall|k: int|
        0 <= k < attrs.len() && (#[trigger] attrs[k]).0 == ATTR_FILE_NAME ==> name_readable(
            attrs[k].1,
        )
}

/// Whether the first name among the attributes can be found.
pub open spec fn first_name_readable(attrs: Seq<(u32, Seq<u8>)>) -> bool {
    forall|k: int| #[trigger] name_consulted(attrs, k) ==> name_readable(attrs[k].1)
}

/// Whether the contents can be found: the runs that are read can be, and the first cluster has an
/// address.
pub open spec fn contents_readable(info: NtfsInfo, attrs: Seq<(u32, Seq<u8>)>) -> bool {
    &&& forall|k: int| #[trigger]
        data_consulted(attrs, k) ==> runs_decodable(attrs[k].1, cluster_count(info))
    &&& contents_runs(info, attrs).len() > 0 ==> cluster_offset(
        info,
        contents_runs(info, attrs)[0].0 as int,
    ) <= u64::MAX
}

/// Whether a record can be read as that of a directory.
pub open spec fn directory_readable(record: Seq<u8>) -> bool {
    &&& record.len() >= 4
    &&& file_record(record) ==> record.len() >= 0x18 && (in_use(record) && directory_record(record)
        ==> names_readable(attributes(record)))
}

/// Whether a record can be read as that of a file.
pub open spec fn file_readable(info: NtfsInfo, record: Seq<u8>) -> bool {
    &&& record.len() >= 4
    &&& file_record(record) ==> record.len() >= 0x18 && (!in_use(record) ==> first_name_readable(
        attributes(record),
    ) && contents_readable(info, attributes(record)))
}

/// Tells whether an attribute has no name of its own.
fn is_unnamed(attr: &[u8]) -> (answer: bool)
    ensures
        answer == unnamed(attr@),
{
    attr.len() <= 9 || attr[9] == 0
}

fn is_file_record(record: &[u8]) -> (answer: bool)
    requires
        record@.len() >= 4,
    ensures
        answer == file_record(record@),
{
    proof {
        reveal_strlit("FILE");
    }
    tag_at(record, 0, "FILE")
}

fn is_in_use(record: &[u8]) -> (answer: bool)
    requires
        record@.len() >= 0x18,
    ensures
        answer == in_use(record@),
{
    record[0x16] % 2 == 1
}

fn is_directory_record(record: &[u8]) -> (answer: bool)
    requires
        record@.len() >= 0x18,
    ensures
        answer == directory_record(record@),
{
    (record[0x16] / 2) % 2 == 1
}

fn is_blank(record: &[u8]) -> (answer: bool)
    ensures
        answer == blank(record@),
{
    let mut i: usize = 0;
    while i < record.len()
        invariant
            i <= record@.len(),
            forall|j: int| 0 <= j < i ==> record@[j] == 0,
        decreases record@.len() - i,
    {
        if record[i] != 0 {
            assert(record@[i as int] != 0);
            return false;
        }
        i = i + 1;
    }
    true
}

fn are_names_readable(attrs: &Vec<(u32, Vec<u8>)>) -> (answer: bool)
    ensures
        answer == names_readable(attribute_models(attrs@)),
{
    let ghost all = attribute_models(attrs@);
    let mut k: usize = 0;
    while k < attrs.len()
        invariant
            k <= attrs@.len(),
            all == attribute_models(attrs@),
            forall|j: int|
                0 <= j < k && (#[trigger] all[j]).0 == ATTR_FILE_NAME ==> name_readable(all[j].1),
        decreases attrs@.len() - k,
    {
        if attrs[k].0 == ATTR_FILE_NAME && !is_name_readable(attrs[k].1.as_slice()) {
            assert(!name_readable(all[k as int].1));
            return false;
        }
        k = k + 1;
    }
    true
}

/// Finds the last name among attributes.
fn find_last_name(attrs: &Vec<(u32, Vec<u8>)>) -> (name: Option<FileNameInfo>)
    requires
        names_readable(attribute_models(attrs@)),
    ensures
        name_model(name) == last_name(attribute_models(attrs@)),
{
    let ghost all = attribute_models(attrs@);
    let mut name: Option<FileNameInfo> = None;
    let mut k: usize = 0;
    while k < attrs.len()
        invariant
            k <= attrs@.len(),
            all == attribute_models(attrs@),
            names_readable(all),
            name_model(name) == last_name(all.take(k as int)),
        decreases attrs@.len() - k,
    {
        assert(all.take(k + 1).drop_last() =~= all.take(k as int));
        assert(all.take(k + 1).last() == (attrs@[k as int].0, attrs@[k as int].1@));
        if attrs[k].0 == ATTR_FILE_NAME {
            assert(name_readable(all[k as int].1));
            match extract_file_name_info(attrs[k].1.as_slice()) {
                Some(found) => {
                    name = Some(found);
                },
                None => {},
            }
        }
        k = k + 1;
    }
    assert(all.take(k as int) =~= all);
    name
}

/// Finds the first name among attributes, or tells that it cannot be found.
fn find_first_name(attrs: &Vec<(u32, Vec<u8>)>) -> (search: Option<Option<FileNameInfo>>)
    ensures
        search is Some <==> first_name_readable(attribute_models(attrs@)),
        search matches Some(name) ==> name_model(name) == first_name(attribute_models(attrs@)),
{
    let ghost all = attribute_models(attrs@);
    let mut name: Option<FileNameInfo> = None;
    let mut k: usize = 0;
    while k < attrs.len()
        invariant
            k <= attrs@.len(),
            all == attribute_models(attrs@),
            forall|j: int| j < k && #[trigger] name_consulted(all, j) ==> name_readable(all[j].1),
            name_model(name) == first_name(all.take(k as int)),
        decreases attrs@.len() - k,
    {
        assert(all.take(k + 1).drop_last() =~= all.take(k as int));
        assert(all.take(k + 1).last() == (attrs@[k as int].0, attrs@[k as int].1@));
        if attrs[k].0 == ATTR_FILE_NAME && name.is_none() {
            assert(name_consulted(all, k as int));
            if !is_name_readable(attrs[k].1.as_slice()) {
                return None;
            }
            name = extract_file_name_info(attrs[k].1.as_slice());
        }
        k = k + 1;
    }
    assert(all.take(k as int) =~= all);
    Some(name)
}

/// Finds the attribute that holds the contents, or tells that the runs on the way cannot be read.
fn find_contents(attrs: &Vec<(u32, Vec<u8>)>, max_clusters: u64) -> (search: Option<Option<usize>>)
    ensures
        search is Some <==> forall|k: int| #[trigger]
            data_consulted(attribute_models(attrs@), k) ==> runs_decodable(
                attribute_models(attrs@)[k].1,
                max_clusters,
            ),
        search matches Some(found) ==> {
            &&& found is Some <==> contents_attribute(attribute_models(attrs@)) is Some
            &&& found matches Some(i) ==> i < attrs@.len() && contents_attribute(
                attribute_models(attrs@),
            ) == Some(attrs@[i as int].1@) && runs_decodable(attrs@[i as int].1@, max_clusters)
        },
{
    let ghost all = attribute_models(attrs@);
    let mut found: Option<usize> = None;
    let mut k: usize = 0;
    while k < attrs.len()
        invariant
            k <= attrs@.len(),
            all == attribute_models(attrs@),
            forall|j: int|
                j < k && #[trigger] data_consulted(all, j) ==> runs_decodable(
                    all[j].1,
                    max_clusters,
                ),
            found is Some <==> first_data(all.take(k as int)) is Some,
            last_unnamed_data(all.take(k as int)) is Some ==> found is Some,
            found matches Some(i) ==> i < k && contents_attribute(all.take(k as int)) == Some(
                attrs@[i as int].1@,
            ) && runs_decodable(attrs@[i as int].1@, max_clusters),
        decreases attrs@.len() - k,
    {
        assert(all.take(k + 1).drop_last() =~= all.take(k as int));
        assert(all.take(k + 1).last() == (attrs@[k as int].0, attrs@[k as int].1@));
        if attrs[k].0 == ATTR_DATA {
            if found.is_none() || is_unnamed(attrs[k].1.as_slice()) {
                assert(data_consulted(all, k as int));
                if !are_runs_decodable(attrs[k].1.as_slice(), max_clusters) {
                    return None;
                }
                found = Some(k);
            }
        }
        k = k + 1;
    }
    assert(all.take(k as int) =~= all);
    Some(found)
}

/// The byte offset of a cluster on the device, where it has one.
fn address_of(info: &NtfsInfo, cluster: u64) -> (address: Option<u64>)
    ensures
        address is Some <==> cluster_offset(*info, cluster as int) <= u64::MAX,
        address matches Some(offset) ==> offset == cluster_offset(*info, cluster as int),
{
    let (c, b, s): (u128, u128, u128) = (
        cluster as u128,
        info.bytes_per_sector as u128,
        info.sectors_per_cluster as u128,
    );
    assert(c * b <= 0xFFFF_FFFF_FFFF_FFFF * 0xFFFF) by (nonlinear_arith)
        requires
            c <= 0xFFFF_FFFF_FFFF_FFFF,
            b <= 0xFFFF,
    ;
    let sectors: u128 = c * b;
    assert(sectors * s <= 0xFFFF_FFFF_FFFF_FFFF * 0xFFFF * 0xFF) by (nonlinear_arith)
        requires
            sectors <= 0xFFFF_FFFF_FFFF_FFFF * 0xFFFF,
            s <= 0xFF,
    ;
    let offset: u128 = info.partition_offset as u128 + sectors * s;
    if offset <= u64::MAX as u128 {
        Some(offset as u64)
    } else {
        None
    }
}

/// Reads the deleted file that record `index` describes, where the record can be read.
fn read_deleted_file(
    info: &NtfsInfo,
    dirs: &HashMap<u64, (String, u64)>,
    index: u64,
    record: &[u8],
) -> (file: Option<DeletedFile>)
    requires
        info.sectors_per_cluster > 0,
        record@.len() >= 0x18,
    ensures
        file is Some <==> first_name_readable(attributes(record@)) && contents_readable(
            *info,
            attributes(record@),
        ),
        file matches Some(f) ==> f@ == deleted_ntfs_file(
            *info,
            dir_models(dirs@),
            index,
            record@,
        ),
{
    let attrs = parse_attributes(record);
    let ghost all = attributes(record@);
    let max_clusters: u64 = info.total_sectors / info.sectors_per_cluster as u64;
    assert(max_clusters == cluster_count(*info));
    let named = match find_first_name(&attrs) {
        Some(named) => named,
        None => {
            return None;
        },
    };
    let found = match find_contents(&attrs, max_clusters) {
        Some(found) => found,
        None => {
            return None;
        },
    };
    let (name, parent): (String, u64) = match named {
        Some(info) => (info.name, info.parent_ref),
        None => {
            let mut text = String::new();
            text.append("MFT_RECORD_");
            push_decimal(&mut text, index);
            (text, MFT_ROOT_DIR_RECORD)
        },
    };
    let mut size: u64 = 0;
    let mut runs: Vec<(u64, u64)> = Vec::new();
    let mut inside: Option<Vec<u8>> = None;
    assert(runs@ =~= seq![]);
    match found {
        Some(i) => {
            let attr = attrs[i].1.as_slice();
            size = extract_data_size(attr);
            runs = parse_data_runs(attr, max_clusters);
            if runs.len() == 0 && size > 0 {
                inside = extract_resident_data(attr);
            }
        },
        None => {},
    }
    assert(runs@ == contents_runs(*info, all));
    let start_address: u64 = if runs.len() > 0 {
        match address_of(info, runs[0].0) {
            Some(address) => address,
            None => {
                return None;
            },
        }
    } else {
        0
    };
    let file = DeletedFile {
        name,
        size,
        start_address,
        fs_type: "NTFS".to_owned(),
        path: build_path(dirs, parent),
        is_directory: is_directory_record(record),
        resident_data: inside,
        data_runs: runs,
    };
    assert(data_model(inside) == contents_inside(*info, all));
    assert(file@.name =~= deleted_ntfs_file(*info, dir_models(dirs@), index, record@).name);
    Some(file)
}

// ---------------------------------------------------------------------------------------------
// The scan
// ---------------------------------------------------------------------------------------------

/// What a scan goes through the records for.
#[derive(Debug, Clone, Copy, PartialEq, Eq, Structural)]
pub enum Pass {
    /// The names of directories that are there.
    Directories,
    /// Files that are not there any more.
    Files,
    /// Nothing: the scan has ended.
    Ended,
}

/// A scan of an NTFS volume, as contracts speak of it.
pub struct NtfsScanModel {
    pub info: NtfsInfo,
    pub pass: Pass,
    /// The record that is next.
    pub index: u64,
    /// The directories that were found so far.
    pub dirs: Map<u64, NameModel>,
}

impl NtfsScanModel {
    /// The scan of a volume.
    pub open spec fn open(info: NtfsInfo) -> Self {
        NtfsScanModel { info, pass: Pass::Directories, index: 0, dirs: Map::empty() }
    }

    /// The byte offset of a record on the device.
    pub open spec fn record_at(self, index: int) -> int {
        self.info.partition_offset + self.info.mft_start + index * self.info.mft_record_size
    }

    /// The scan at the beginning of the search for files.
    pub open spec fn turned(self) -> Self {
        NtfsScanModel { pass: Pass::Files, index: 0, ..self }
    }

    /// The scan behind its current record: at the next, or, behind the last, in its next pass.
    pub open spec fn advanced(self) -> Self {
        if self.index + 1 < MAX_RECORDS {
            NtfsScanModel { index: (self.index + 1) as u64, ..self }
        } else if self.pass is Directories {
            self.turned()
        } else {
            NtfsScanModel { pass: Pass::Ended, ..self }
        }
    }
}

impl TaskModel for NtfsScanModel {
    type Out = FileModel;

    open spec fn wants(self) -> Option<Request> {
        if self.pass is Ended {
            None
        } else {
            Some(
                Request {
                    offset: self.record_at(self.index as int) as u64,
                    len: self.info.mft_record_size as usize,
                },
            )
        }
    }

    open spec fn pieces(self, reply: Option<Seq<u8>>) -> Seq<Piece<Self, FileModel>> {
        match (self.pass, reply) {
            (Pass::Files, Some(record)) => if file_record(record) && !in_use(record) {
                seq![
                    Piece::Emit(deleted_ntfs_file(self.info, self.dirs, self.index, record)),
                ]
            } else {
                seq![]
            },
            _ => seq![],
        }
    }

    open spec fn next(self, reply: Option<Seq<u8>>) -> Self {
        match (self.pass, reply) {
            (Pass::Directories, Some(record)) => if !file_record(record) && self.index
                > RESERVED_RECORDS && blank(record) {
                self.turned()
            } else {
                NtfsScanModel {
                    dirs: dirs_after(self.dirs, self.index, record),
                    ..self
                }.advanced()
            },
            (Pass::Directories, None) => self.turned(),
            (Pass::Files, Some(_)) => self.advanced(),
            _ => NtfsScanModel { pass: Pass::Ended, ..self },
        }
    }

    open spec fn status(self) -> Status {
        Ok(())
    }

    open spec fn valid(self) -> bool {
        &&& self.info.sectors_per_cluster > 0
        &&& self.index < MAX_RECORDS
        &&& self.record_at(0) <= u64::MAX
        &&& self.record_at(self.index as int) <= u64::MAX
    }

    /// A record that can be read, with a next one that has an address.
    open spec fn accepts(self, reply: Option<Seq<u8>>) -> bool {
        match reply {
            Some(record) => {
                &&& match self.pass {
                    Pass::Directories => directory_readable(record),
                    _ => file_readable(self.info, record),
                }
                &&& self.record_at(self.next(reply).index as int) <= u64::MAX
            },
            None => true,
        }
    }
}

/// A scan of an NTFS volume.
pub struct NtfsScan {
    info: NtfsInfo,
    pass: Pass,
    index: u64,
    dirs: HashMap<u64, (String, u64)>,
}

impl Modelled for NtfsScan {
    type Model = NtfsScanModel;

    type Output = DeletedFile;

    closed spec fn model(self) -> NtfsScanModel {
        NtfsScanModel {
            info: self.info,
            pass: self.pass,
            index: self.index,
            dirs: dir_models(self.dirs@),
        }
    }

    open spec fn output(out: DeletedFile) -> FileModel {
        out@
    }
}

/// Tells whether the master file table of a volume has an address.
pub fn is_table_addressable(info: &NtfsInfo) -> (answer: bool)
    ensures
        answer == NtfsScanModel::open(*info).valid(),
{
    assert(NtfsScanModel::open(*info).record_at(0) == info.partition_offset + info.mft_start);
    info.sectors_per_cluster > 0 && info.mft_start <= u64::MAX - info.partition_offset
}

impl NtfsScan {
    /// Begins the scan of a volume.
    pub fn open(info: NtfsInfo) -> (scan: NtfsScan)
        ensures
            scan.model() == NtfsScanModel::open(info),
    {
        let scan = NtfsScan { info, pass: Pass::Directories, index: 0, dirs: HashMap::new() };
        assert(scan.model().dirs =~= Map::empty());
        scan
    }

    /// The byte offset of the current record.
    fn offset(&self) -> (offset: u64)
        requires
            self.model().valid(),
        ensures
            offset == self.model().record_at(self.index as int),
    {
        let (i, n): (u64, u64) = (self.index, self.info.mft_record_size as u64);
        assert(0 <= i * n <= 100_000 * 0xFFFF_FFFF) by (nonlinear_arith)
            requires
                0 <= i <= 100_000,
                0 <= n <= 0xFFFF_FFFF,
        ;
        self.info.partition_offset + self.info.mft_start + i * n
    }

    /// Tells whether the current record is the last or the next has an address.
    fn next_is_addressable(&self) -> (answer: bool)
        requires
            self.model().valid(),
        ensures
            answer == (self.index + 1 < MAX_RECORDS ==> self.model().record_at(self.index + 1)
                <= u64::MAX),
    {
        let ghost (i, n) = (self.index as int, self.info.mft_record_size as int);
        assert((i + 1) * n == i * n + n) by (nonlinear_arith);
        self.index + 1 >= MAX_RECORDS || self.info.mft_record_size as u64 <= u64::MAX
            - self.offset()
    }

    fn turn(&mut self)
        requires
            old(self).model().valid(),
        ensures
            final(self).model() == old(self).model().turned(),
            final(self).model().valid(),
    {
        self.pass = Pass::Files;
        self.index = 0;
    }

    fn advance(&mut self)
        requires
            old(self).model().valid(),
            old(self).model().record_at(old(self).model().advanced().index as int) <= u64::MAX,
        ensures
            final(self).model() == old(self).model().advanced(),
            final(self).model().valid(),
    {
        if self.index + 1 < MAX_RECORDS {
            self.index = self.index + 1;
        } else {
            match self.pass {
                Pass::Directories => {
                    self.turn();
                },
                _ => {
                    self.pass = Pass::Ended;
                },
            }
        }
    }

    /// Takes in a record that may be that of a directory.
    fn take_directory(&mut self, record: &[u8])
        requires
            old(self).model().valid(),
            directory_readable(record@),
        ensures
            final(self).model() == (NtfsScanModel {
                dirs: dirs_after(old(self).model().dirs, old(self).model().index, record@),
                ..old(self).model()
            }),
    {
        if is_file_record(record) && is_in_use(record) && is_directory_record(record) {
            let attrs = parse_attributes(record);
            match find_last_name(&attrs) {
                Some(found) => {
                    let ghost before = self.dirs@;
                    let ghost name = found@;
                    let index: u64 = self.index;
                    self.dirs.insert(index, (found.name, found.parent_ref));
                    assert(dir_models(self.dirs@) =~= dir_models(before).insert(index, name));
                },
                None => {},
            }
        }
    }
}

impl Task for NtfsScan {
    fn wants(&self) -> (request: Option<Request>) {
        match self.pass {
            Pass::Ended => None,
            _ => Some(
                Request { offset: self.offset(), len: self.info.mft_record_size as usize },
            ),
        }
    }

    fn status(&self) -> (status: Status) {
        Ok(())
    }

    fn can_take(&self, reply: Option<&[u8]>) -> (takes: bool) {
        match reply {
            Some(record) => {
                if record.len() < 4 {
                    return false;
                }
                let tagged: bool = is_file_record(record);
                if tagged && record.len() < 0x18 {
                    return false;
                }
                match self.pass {
                    Pass::Directories => {
                        if tagged && is_in_use(record) && is_directory_record(record)
                            && !are_names_readable(&parse_attributes(record)) {
                            return false;
                        }
                        (!tagged && self.index > RESERVED_RECORDS && is_blank(record))
                            || self.next_is_addressable()
                    },
                    _ => {
                        if tagged && !is_in_use(record) && read_deleted_file(
                            &self.info,
                            &self.dirs,
                            self.index,
                            record,
                        ).is_none() {
                            return false;
                        }
                        self.next_is_addressable()
                    },
                }
            },
            None => true,
        }
    }

    fn resume(self, reply: Option<&[u8]>) -> (turn: (Vec<Piece<Self, DeletedFile>>, Self)) {
        let ghost model = self.model();
        let mut scan = self;
        let mut pieces: Vec<Piece<NtfsScan, DeletedFile>> = Vec::new();
        assert(piece_models::<NtfsScan>(pieces@) =~= seq![]);
        match (scan.pass, reply) {
            (Pass::Directories, Some(record)) => {
                if !is_file_record(record) && scan.index > RESERVED_RECORDS && is_blank(record) {
                    scan.turn();
                } else {
                    scan.take_directory(record);
                    scan.advance();
                }
            },
            (Pass::Directories, None) => {
                scan.turn();
            },
            (Pass::Files, Some(record)) => {
                if is_file_record(record) && !is_in_use(record) {
                    match read_deleted_file(&scan.info, &scan.dirs, scan.index, record) {
                        Some(file) => {
                            pieces.push(Piece::Emit(file));
                        },
                        None => {},
                    }
                    assert(piece_models::<NtfsScan>(pieces@) =~= model.pieces(answer(reply)));
                }
                scan.advance();
            },
            _ => {
                scan.pass = Pass::Ended;
            },
        }
        (pieces, scan)
    }
}

/// Begins the scan of a volume.
pub fn scan(info: &NtfsInfo) -> (walk: Walk<NtfsScan>)
    requires
        NtfsScanModel::open(*info).valid(),
    ensures
        walk.model() == WalkModel::start(NtfsScanModel::open(*info)),
        walk.model().valid(),
{
    Walk::start(NtfsScan::open(*info))
}

} // verus!
