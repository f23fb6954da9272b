//! Volumes of any kind: how they are recognized, and their scan.

use vstd::prelude::*;
use vstd::arithmetic::power2::*;
use crate::bytes::{array_of, le_u32, power_of_two};
use crate::embed::{law_same_outcome, outcome_as, take_pieces, taken_as, Embeds};
use crate::exfat_scan::{ExfatDir, ExfatDirModel};
use crate::ext::{self, check_ext_layout, ext_layout_fits, ext_volume, ExtInfo};
use crate::ext_scan::{ExtDir, ExtDirModel, EXT2_ROOT_INODE};
use crate::fat::{
    check_fat32_layout, exfat_volume, fat32_layout_fits, fat32_volume, probe_exfat_from_buf,
    probe_fat32_from_buf, ExfatInfo, Fat32Info,
};
use crate::fat_scan::{Fat32Dir, Fat32DirModel};
use crate::ntfs::{check_ntfs_layout, ntfs_layout_fits, ntfs_volume, probe_from_buf, NtfsInfo};
use crate::ntfs_scan::{is_table_addressable, NtfsScan, NtfsScanModel};
use crate::text::{decimal, hex, push_decimal, push_hex};
use crate::types::{DeletedFile, FileModel};
use crate::walk::{
    answer, piece_models, visit, visit_pieces, Device, Modelled, Outcome, Piece, Request, Status,
    Task, TaskModel, Walk, WalkModel,
};
use crate::walk_laws::lemma_one_result;

verus! {

// ---------------------------------------------------------------------------------------------
// Recognizing a volume
// ---------------------------------------------------------------------------------------------

/// A volume of one of the kinds that can be scanned.
#[derive(Debug, Clone, Copy)]
pub enum Volume {
    Fat32(Fat32Info),
    Exfat(ExfatInfo),
    Ntfs(NtfsInfo),
    Ext(ExtInfo),
}

/// The volume that a boot sector describes: FAT32 comes before exFAT, and exFAT before NTFS.
pub open spec fn boot_volume(boot: Seq<u8>) -> Option<Volume> {
    match (fat32_volume(boot), exfat_volume(boot), ntfs_volume(boot)) {
        (Some(info), _, _) => Some(Volume::Fat32(info)),
        (None, Some(info), _) => Some(Volume::Exfat(info)),
        (None, None, Some(info)) => Some(Volume::Ntfs(info)),
        (None, None, None) => None,
    }
}

/// Whether what is computed to recognize a volume can be computed.
pub open spec fn boot_layout_fits(boot: Seq<u8>) -> bool {
    &&& fat32_layout_fits(boot)
    &&& fat32_volume(boot) is None && exfat_volume(boot) is None ==> ntfs_layout_fits(boot)
}

/// Tells whether what is computed to recognize a volume can be computed.
pub fn check_boot_layout(boot: &[u8; 512]) -> (answer: bool)
    ensures
        answer == boot_layout_fits(boot@),
{
    check_fat32_layout(boot) && (probe_fat32_from_buf(boot).is_some() || probe_exfat_from_buf(
        boot,
    ).is_some() || check_ntfs_layout(boot))
}

/// Recognizes a volume by its boot sector.
pub fn probe_boot(boot: &[u8; 512]) -> (volume: Option<Volume>)
    requires
        boot_layout_fits(boot@),
    ensures
        volume == boot_volume(boot@),
{
    match probe_fat32_from_buf(boot) {
        Some(info) => {
            return Some(Volume::Fat32(info));
        },
        None => {},
    }
    match probe_exfat_from_buf(boot) {
        Some(info) => {
            return Some(Volume::Exfat(info));
        },
        None => {},
    }
    match probe_from_buf(boot) {
        Some(info) => Some(Volume::Ntfs(info)),
        None => None,
    }
}

impl Volume {
    /// The volume at another place on the device.
    pub open spec fn at(self, offset: u64) -> Volume {
        match self {
            Volume::Fat32(info) => Volume::Fat32(Fat32Info { partition_offset: offset, ..info }),
            Volume::Exfat(info) => Volume::Exfat(ExfatInfo { partition_offset: offset, ..info }),
            Volume::Ntfs(info) => Volume::Ntfs(NtfsInfo { partition_offset: offset, ..info }),
            Volume::Ext(info) => Volume::Ext(ExtInfo { partition_offset: offset, ..info }),
        }
    }

    /// The volume at another place on the device.
    pub fn moved_to(self, offset: u64) -> (volume: Volume)
        ensures
            volume == self.at(offset),
    {
        match self {
            Volume::Fat32(info) => Volume::Fat32(Fat32Info { partition_offset: offset, ..info }),
            Volume::Exfat(info) => Volume::Exfat(ExfatInfo { partition_offset: offset, ..info }),
            Volume::Ntfs(info) => Volume::Ntfs(NtfsInfo { partition_offset: offset, ..info }),
            Volume::Ext(info) => Volume::Ext(ExtInfo { partition_offset: offset, ..info }),
        }
    }

    /// Whether a scan of the volume can begin: what it reads has addresses.
    pub open spec fn scannable(self) -> bool {
        match self {
            Volume::Fat32(info) => info.addressable(),
            Volume::Exfat(info) => info.addressable(),
            Volume::Ntfs(info) => NtfsScanModel::open(info).valid(),
            Volume::Ext(info) => info.addressable(),
        }
    }

    /// Tells whether a scan of the volume can begin.
    pub fn is_scannable(&self) -> (answer: bool)
        ensures
            answer == self.scannable(),
    {
        match self {
            Volume::Fat32(info) => info.is_addressable(),
            Volume::Exfat(info) => info.is_addressable(),
            Volume::Ntfs(info) => is_table_addressable(info),
            Volume::Ext(info) => info.is_addressable(),
        }
    }

    /// The number of bytes in a unit that is a whole number of sectors of the device: a sector as the
    /// volume states it. An ext volume states none; its blocks are whole sectors.
    pub open spec fn sector_size(self) -> int {
        match self {
            Volume::Fat32(info) => info.bytes_per_sector as int,
            Volume::Exfat(info) => info.bytes_per_sector as int,
            Volume::Ntfs(info) => info.bytes_per_sector as int,
            Volume::Ext(info) => info.block_size as int,
        }
    }

    /// The number of bytes in a unit that is a whole number of sectors of the device.
    pub fn sector_len(&self) -> (len: u64)
        ensures
            len == self.sector_size(),
    {
        match self {
            Volume::Fat32(info) => info.bytes_per_sector as u64,
            Volume::Exfat(info) => info.bytes_per_sector as u64,
            Volume::Ntfs(info) => info.bytes_per_sector as u64,
            Volume::Ext(info) => info.block_size as u64,
        }
    }

    /// Tells whether what is found can be limited to a directory: not so on NTFS.
    pub fn filters_by_path(&self) -> (answer: bool)
        ensures
            answer == !(self is Ntfs),
    {
        match self {
            Volume::Ntfs(_) => false,
            _ => true,
        }
    }

    /// A line that says what was recognized.
    pub open spec fn description(self) -> Seq<char> {
        match self {
            Volume::Fat32(info) => "Detected: FAT32 (bytes/sector="@ + decimal(
                info.bytes_per_sector as nat,
            ) + ", sectors/cluster="@ + decimal(info.sectors_per_cluster as nat)
                + ", root cluster="@ + decimal(info.root_cluster as nat) + ")"@,
            Volume::Exfat(info) => "Detected: exFAT (bytes/sector="@ + decimal(
                info.bytes_per_sector as nat,
            ) + ", sectors/cluster="@ + decimal(info.sectors_per_cluster as nat)
                + ", root cluster="@ + decimal(info.root_cluster as nat) + ")"@,
            Volume::Ntfs(info) => "Detected: NTFS (MFT at offset 0x"@ + hex(
                info.mft_start as nat,
                1,
            ) + ", record size="@ + decimal(info.mft_record_size as nat) + ")"@,
            Volume::Ext(info) => "Detected: ext4 (block size="@ + decimal(info.block_size as nat)
                + ")"@,
        }
    }

    /// A line that says what was recognized.
    pub fn describe(&self) -> (line: String)
        ensures
            line@ == self.description(),
    {
        let mut line = String::new();
        match self {
            Volume::Fat32(info) => {
                line.append("Detected: FAT32 (bytes/sector=");
                push_decimal(&mut line, info.bytes_per_sector as u64);
                line.append(", sectors/cluster=");
                push_decimal(&mut line, info.sectors_per_cluster as u64);
                line.append(", root cluster=");
                push_decimal(&mut line, info.root_cluster as u64);
            },
            Volume::Exfat(info) => {
                line.append("Detected: exFAT (bytes/sector=");
                push_decimal(&mut line, info.bytes_per_sector as u64);
                line.append(", sectors/cluster=");
                push_decimal(&mut line, info.sectors_per_cluster as u64);
                line.append(", root cluster=");
                push_decimal(&mut line, info.root_cluster as u64);
            },
            Volume::Ntfs(info) => {
                line.append("Detected: NTFS (MFT at offset 0x");
                push_hex(&mut line, info.mft_start, 1);
                line.append(", record size=");
                push_decimal(&mut line, info.mft_record_size as u64);
            },
            Volume::Ext(info) => {
                line.append("Detected: ext4 (block size=");
                push_decimal(&mut line, info.block_size as u64);
            },
        }
        line.append(")");
        assert(line@ =~= self.description());
        line
    }
}

/// A volume that is recognized has sectors of at least 512 bytes, by a power of two.
pub proof fn law_recognized_volume_has_sectors(stage: Detection, reply: Option<Seq<u8>>)
    requires
        recognized(stage, reply) is Some,
    ensures
        recognized(stage, reply)->0.sector_size() >= 512,
        power_of_two(recognized(stage, reply)->0.sector_size()),
{
    lemma2_to64();
    match recognized(stage, reply)->0 {
        Volume::Exfat(info) => {
            let shift = (reply->0)[108] as nat;
            assert(info.bytes_per_sector == pow2(shift)) by {
                lemma_pow2_within(9, shift);
                lemma_pow2_within(shift, 12);
            }
            lemma_pow2_within(9, shift);
        },
        Volume::Ext(info) => {
            let shift = le_u32(reply->0, 1048) as nat;
            lemma_pow2_within(0, shift);
            lemma_pow2_within(shift, 6);
            lemma_pow2_adds(10, shift);
            assert(info.block_size == pow2(10 + shift));
        },
        _ => {},
    }
}

proof fn lemma_pow2_within(n: nat, m: nat)
    requires
        n <= m,
    ensures
        pow2(n) <= pow2(m),
{
    if n < m {
        lemma_pow2_strictly_increases(n, m);
    }
}

// ---------------------------------------------------------------------------------------------
// Finding out what a device holds
// ---------------------------------------------------------------------------------------------

/// The recognition of the volume on a device, as contracts speak of it and as it is carried out.
#[derive(Debug, Clone, Copy, PartialEq, Eq, Structural)]
pub enum Detection {
    /// Waits for the boot sector.
    Boot,
    /// Waits for the first bytes, which may be those of an ext volume.
    Super,
    /// Waits for nothing.
    Done,
}

/// The read of the boot sector.
pub open spec fn boot_request() -> Request {
    Request { offset: 0, len: 512 }
}

/// The read of the first bytes of a volume, with the superblock.
pub open spec fn super_request() -> Request {
    Request { offset: 0, len: 2048 }
}

/// The volume that an answer is recognized as: a boot sector, or else first bytes.
pub open spec fn recognized(stage: Detection, reply: Option<Seq<u8>>) -> Option<Volume> {
    match (stage, reply) {
        (Detection::Boot, Some(boot)) => boot_volume(boot),
        (Detection::Super, Some(start)) => match ext_volume(start) {
            Some(info) => Some(Volume::Ext(info)),
            None => None,
        },
        _ => None,
    }
}

impl TaskModel for Detection {
    type Out = Volume;

    open spec fn wants(self) -> Option<Request> {
        match self {
            Detection::Boot => Some(boot_request()),
            Detection::Super => Some(super_request()),
            Detection::Done => None,
        }
    }

    open spec fn pieces(self, reply: Option<Seq<u8>>) -> Seq<Piece<Self, Volume>> {
        match recognized(self, reply) {
            Some(volume) => seq![Piece::Emit(volume)],
            None => seq![],
        }
    }

    open spec fn next(self, reply: Option<Seq<u8>>) -> Self {
        if self is Boot && recognized(self, reply) is None {
            Detection::Super
        } else {
            Detection::Done
        }
    }

    open spec fn status(self) -> Status {
        Ok(())
    }

    open spec fn valid(self) -> bool {
        true
    }

    /// Answers from which everything that is computed can be computed.
    open spec fn accepts(self, reply: Option<Seq<u8>>) -> bool {
        match (self, reply) {
            (Detection::Boot, Some(boot)) => boot_layout_fits(boot),
            (Detection::Super, Some(start)) => ext_layout_fits(start),
            _ => true,
        }
    }
}

impl Modelled for Detection {
    type Model = Detection;

    type Output = Volume;

    open spec fn model(self) -> Detection {
        self
    }

    open spec fn output(out: Volume) -> Volume {
        out
    }
}

impl Task for Detection {
    fn wants(&self) -> (request: Option<Request>) {
        match self {
            Detection::Boot => Some(Request { offset: 0, len: 512 }),
            Detection::Super => Some(Request { offset: 0, len: 2048 }),
            Detection::Done => None,
        }
    }

    fn status(&self) -> (status: Status) {
        Ok(())
    }

    fn can_take(&self, reply: Option<&[u8]>) -> (takes: bool) {
        match (self, reply) {
            (Detection::Boot, Some(boot)) => {
                let buf: [u8; 512] = array_of(boot);
                check_boot_layout(&buf)
            },
            (Detection::Super, Some(start)) => {
                let buf: [u8; 2048] = array_of(start);
                check_ext_layout(&buf)
            },
            _ => true,
        }
    }

    fn resume(self, reply: Option<&[u8]>) -> (turn: (Vec<Piece<Self, Volume>>, Self)) {
        let found: Option<Volume> = match (self, reply) {
            (Detection::Boot, Some(boot)) => {
                let buf: [u8; 512] = array_of(boot);
                probe_boot(&buf)
            },
            (Detection::Super, Some(start)) => {
                let buf: [u8; 2048] = array_of(start);
                match ext::probe_from_buf(&buf) {
                    Some(info) => Some(Volume::Ext(info)),
                    None => None,
                }
            },
            _ => None,
        };
        let mut pieces: Vec<Piece<Detection, Volume>> = Vec::new();
        let next = match (self, found) {
            (Detection::Boot, None) => Detection::Super,
            _ => Detection::Done,
        };
        match found {
            Some(volume) => {
                pieces.push(Piece::Emit(volume));
            },
            None => {},
        }
        assert(piece_models::<Detection>(pieces@) =~= self.pieces(answer(reply)));
        (pieces, next)
    }
}

/// A volume is recognized by its boot sector as FAT32, exFAT or NTFS, in this order, and otherwise,
/// or where there is no boot sector to be read, as ext; one volume at most.
pub proof fn law_detection_order(device: Device)
    ensures
        visit(Detection::Boot, device, 2) == Some(
            (Outcome {
                yielded: match (
                    recognized(Detection::Boot, device(boot_request())),
                    recognized(Detection::Super, device(super_request())),
                ) {
                    (Some(volume), _) => seq![volume],
                    (None, Some(volume)) => seq![volume],
                    (None, None) => seq![],
                },
                status: Ok(()),
            }),
        ),
{
    let first = recognized(Detection::Boot, device(boot_request()));
    let second = recognized(Detection::Super, device(super_request()));
    let none = Seq::<Volume>::empty();
    assert(visit(Detection::Done, device, 0) == Some((Outcome { yielded: none, status: Ok(()) })));
    assert(visit(Detection::Done, device, 1) == Some((Outcome { yielded: none, status: Ok(()) })));
    match second {
        Some(volume) => {
            lemma_one_result::<Detection>(volume, device, 0);
            assert(seq![volume] + none =~= seq![volume]);
        },
        None => {
            assert(visit_pieces::<Detection>(seq![], device, 0) == Some(none));
            assert(none + none =~= none);
        },
    }
    match first {
        Some(volume) => {
            lemma_one_result::<Detection>(volume, device, 1);
            assert(seq![volume] + none =~= seq![volume]);
        },
        None => {
            assert(visit_pieces::<Detection>(seq![], device, 1) == Some(none));
            let rest = visit(Detection::Super, device, 1)->0.yielded;
            assert(none + rest =~= rest);
        },
    }
}

// ---------------------------------------------------------------------------------------------
// The scan of a volume
// ---------------------------------------------------------------------------------------------

/// A scan within a volume of any kind, as contracts speak of it.
pub enum VolumeTaskModel {
    Fat32(Fat32DirModel),
    Exfat(ExfatDirModel),
    Ntfs(NtfsScanModel),
    Ext(ExtDirModel),
}

impl VolumeTaskModel {
    /// The scan of a volume.
    pub open spec fn open(volume: Volume) -> Self {
        match volume {
            Volume::Fat32(info) => VolumeTaskModel::Fat32(
                Fat32DirModel::open(info, info.root_cluster, Seq::empty()),
            ),
            Volume::Exfat(info) => VolumeTaskModel::Exfat(
                ExfatDirModel::open(info, info.root_cluster, Seq::empty()),
            ),
            Volume::Ntfs(info) => VolumeTaskModel::Ntfs(NtfsScanModel::open(info)),
            Volume::Ext(info) => VolumeTaskModel::Ext(
                ExtDirModel::open(info, EXT2_ROOT_INODE, Seq::empty(), true),
            ),
        }
    }
}

impl TaskModel for VolumeTaskModel {
    type Out = FileModel;

    open spec fn wants(self) -> Option<Request> {
        match self {
            VolumeTaskModel::Fat32(t) => t.wants(),
            VolumeTaskModel::Exfat(t) => t.wants(),
            VolumeTaskModel::Ntfs(t) => t.wants(),
            VolumeTaskModel::Ext(t) => t.wants(),
        }
    }

    open spec fn pieces(self, reply: Option<Seq<u8>>) -> Seq<Piece<Self, FileModel>> {
        match self {
            VolumeTaskModel::Fat32(t) => taken_as(
                t.pieces(reply),
                |m: Fat32DirModel| VolumeTaskModel::Fat32(m),
                |f: FileModel| f,
            ),
            VolumeTaskModel::Exfat(t) => taken_as(
                t.pieces(reply),
                |m: ExfatDirModel| VolumeTaskModel::Exfat(m),
                |f: FileModel| f,
            ),
            VolumeTaskModel::Ntfs(t) => taken_as(
                t.pieces(reply),
                |m: NtfsScanModel| VolumeTaskModel::Ntfs(m),
                |f: FileModel| f,
            ),
            VolumeTaskModel::Ext(t) => taken_as(
                t.pieces(reply),
                |m: ExtDirModel| VolumeTaskModel::Ext(m),
                |f: FileModel| f,
            ),
        }
    }

    open spec fn next(self, reply: Option<Seq<u8>>) -> Self {
        match self {
            VolumeTaskModel::Fat32(t) => VolumeTaskModel::Fat32(t.next(reply)),
            VolumeTaskModel::Exfat(t) => VolumeTaskModel::Exfat(t.next(reply)),
            VolumeTaskModel::Ntfs(t) => VolumeTaskModel::Ntfs(t.next(reply)),
            VolumeTaskModel::Ext(t) => VolumeTaskModel::Ext(t.next(reply)),
        }
    }

    open spec fn status(self) -> Status {
        match self {
            VolumeTaskModel::Fat32(t) => t.status(),
            VolumeTaskModel::Exfat(t) => t.status(),
            VolumeTaskModel::Ntfs(t) => t.status(),
            VolumeTaskModel::Ext(t) => t.status(),
        }
    }

    open spec fn valid(self) -> bool {
        match self {
            VolumeTaskModel::Fat32(t) => t.valid(),
            VolumeTaskModel::Exfat(t) => t.valid(),
            VolumeTaskModel::Ntfs(t) => t.valid(),
            VolumeTaskModel::Ext(t) => t.valid(),
        }
    }

    open spec fn accepts(self, reply: Option<Seq<u8>>) -> bool {
        match self {
            VolumeTaskModel::Fat32(t) => t.accepts(reply),
            VolumeTaskModel::Exfat(t) => t.accepts(reply),
            VolumeTaskModel::Ntfs(t) => t.accepts(reply),
            VolumeTaskModel::Ext(t) => t.accepts(reply),
        }
    }
}

/// A scan within a volume of any kind.
pub enum VolumeTask {
    Fat32(Fat32Dir),
    Exfat(ExfatDir),
    Ntfs(NtfsScan),
    Ext(ExtDir),
}

impl Modelled for VolumeTask {
    type Model = VolumeTaskModel;

    type Output = DeletedFile;

    open spec fn model(self) -> VolumeTaskModel {
        match self {
            VolumeTask::Fat32(t) => VolumeTaskModel::Fat32(t.model()),
            VolumeTask::Exfat(t) => VolumeTaskModel::Exfat(t.model()),
            VolumeTask::Ntfs(t) => VolumeTaskModel::Ntfs(t.model()),
            VolumeTask::Ext(t) => VolumeTaskModel::Ext(t.model()),
        }
    }

    open spec fn output(out: DeletedFile) -> FileModel {
        out@
    }
}

impl Embeds<Fat32Dir> for VolumeTask {
    open spec fn task_as(task: Fat32DirModel) -> VolumeTaskModel {
        VolumeTaskModel::Fat32(task)
    }

    open spec fn out_as(out: FileModel) -> FileModel {
        out
    }

    fn take_task(task: Fat32Dir) -> (taken: Self) {
        VolumeTask::Fat32(task)
    }

    fn take_out(out: DeletedFile) -> (taken: DeletedFile) {
        out
    }
}

impl Embeds<ExfatDir> for VolumeTask {
    open spec fn task_as(task: ExfatDirModel) -> VolumeTaskModel {
        VolumeTaskModel::Exfat(task)
    }

    open spec fn out_as(out: FileModel) -> FileModel {
        out
    }

    fn take_task(task: ExfatDir) -> (taken: Self) {
        VolumeTask::Exfat(task)
    }

    fn take_out(out: DeletedFile) -> (taken: DeletedFile) {
        out
    }
}

impl Embeds<NtfsScan> for VolumeTask {
    open spec fn task_as(task: NtfsScanModel) -> VolumeTaskModel {
        VolumeTaskModel::Ntfs(task)
    }

    open spec fn out_as(out: FileModel) -> FileModel {
        out
    }

    fn take_task(task: NtfsScan) -> (taken: Self) {
        VolumeTask::Ntfs(task)
    }

    fn take_out(out: DeletedFile) -> (taken: DeletedFile) {
        out
    }
}

impl Embeds<ExtDir> for VolumeTask {
    open spec fn task_as(task: ExtDirModel) -> VolumeTaskModel {
        VolumeTaskModel::Ext(task)
    }

    open spec fn out_as(out: FileModel) -> FileModel {
        out
    }

    fn take_task(task: ExtDir) -> (taken: Self) {
        VolumeTask::Ext(task)
    }

    fn take_out(out: DeletedFile) -> (taken: DeletedFile) {
        out
    }
}

impl Task for VolumeTask {
    fn wants(&self) -> (request: Option<Request>) {
        match self {
            VolumeTask::Fat32(t) => t.wants(),
            VolumeTask::Exfat(t) => t.wants(),
            VolumeTask::Ntfs(t) => t.wants(),
            VolumeTask::Ext(t) => t.wants(),
        }
    }

    fn status(&self) -> (status: Status) {
        match self {
            VolumeTask::Fat32(t) => t.status(),
            VolumeTask::Exfat(t) => t.status(),
            VolumeTask::Ntfs(t) => t.status(),
            VolumeTask::Ext(t) => t.status(),
        }
    }

    fn can_take(&self, reply: Option<&[u8]>) -> (takes: bool) {
        match self {
            VolumeTask::Fat32(t) => t.can_take(reply),
            VolumeTask::Exfat(t) => t.can_take(reply),
            VolumeTask::Ntfs(t) => t.can_take(reply),
            VolumeTask::Ext(t) => t.can_take(reply),
        }
    }

    fn resume(self, reply: Option<&[u8]>) -> (turn: (Vec<Piece<Self, DeletedFile>>, Self)) {
        let ghost model = self.model();
        match self {
            VolumeTask::Fat32(t) => {
                let (pieces, next) = t.resume(reply);
                let taken = take_pieces::<Fat32Dir, VolumeTask>(pieces);
                assert(piece_models::<VolumeTask>(taken@) =~= model.pieces(answer(reply)));
                (taken, VolumeTask::Fat32(next))
            },
            VolumeTask::Exfat(t) => {
                let (pieces, next) = t.resume(reply);
                let taken = take_pieces::<ExfatDir, VolumeTask>(pieces);
                assert(piece_models::<VolumeTask>(taken@) =~= model.pieces(answer(reply)));
                (taken, VolumeTask::Exfat(next))
            },
            VolumeTask::Ntfs(t) => {
                let (pieces, next) = t.resume(reply);
                let taken = take_pieces::<NtfsScan, VolumeTask>(pieces);
                assert(piece_models::<VolumeTask>(taken@) =~= model.pieces(answer(reply)));
                (taken, VolumeTask::Ntfs(next))
            },
            VolumeTask::Ext(t) => {
                let (pieces, next) = t.resume(reply);
                let taken = take_pieces::<ExtDir, VolumeTask>(pieces);
                assert(piece_models::<VolumeTask>(taken@) =~= model.pieces(answer(reply)));
                (taken, VolumeTask::Ext(next))
            },
        }
    }
}

impl VolumeTask {
    /// Begins the scan of a volume.
    pub fn open(volume: &Volume) -> (task: VolumeTask)
        requires
            volume.scannable(),
        ensures
            task.model() == VolumeTaskModel::open(*volume),
            task.model().valid(),
    {
        match volume {
            Volume::Fat32(info) => VolumeTask::Fat32(
                Fat32Dir::open(*info, info.root_cluster, String::new()),
            ),
            Volume::Exfat(info) => VolumeTask::Exfat(
                ExfatDir::open(*info, info.root_cluster, String::new()),
            ),
            Volume::Ntfs(info) => VolumeTask::Ntfs(NtfsScan::open(*info)),
            Volume::Ext(info) => VolumeTask::Ext(
                ExtDir::open(*info, EXT2_ROOT_INODE, String::new(), true),
            ),
        }
    }
}

/// Begins the scan of a volume.
pub fn scan_volume(volume: &Volume) -> (walk: Walk<VolumeTask>)
    requires
        volume.scannable(),
    ensures
        walk.model() == WalkModel::start(VolumeTaskModel::open(*volume)),
        walk.model().valid(),
{
    Walk::start(VolumeTask::open(volume))
}

/// What the scan of a volume of a given kind finds is what a scan of that kind finds.
pub proof fn law_volume_scan_is_the_scan_of_its_kind(volume: Volume, device: Device, fuel: nat)
    ensures
        visit(VolumeTaskModel::open(volume), device, fuel) == (match volume {
            Volume::Fat32(info) => visit(
                Fat32DirModel::open(info, info.root_cluster, Seq::empty()),
                device,
                fuel,
            ),
            Volume::Exfat(info) => visit(
                ExfatDirModel::open(info, info.root_cluster, Seq::empty()),
                device,
                fuel,
            ),
            Volume::Ntfs(info) => visit(NtfsScanModel::open(info), device, fuel),
            Volume::Ext(info) => visit(
                ExtDirModel::open(info, EXT2_ROOT_INODE, Seq::empty(), true),
                device,
                fuel,
            ),
        }),
{
    let same = |f: FileModel| f;
    match volume {
        Volume::Fat32(info) => {
            let task = |m: Fat32DirModel| VolumeTaskModel::Fat32(m);
            let open = Fat32DirModel::open(info, info.root_cluster, Seq::empty());
            law_same_outcome(task, same, open, device, fuel);
            lemma_same_outcome(visit(open, device, fuel));
        },
        Volume::Exfat(info) => {
            let task = |m: ExfatDirModel| VolumeTaskModel::Exfat(m);
            let open = ExfatDirModel::open(info, info.root_cluster, Seq::empty());
            law_same_outcome(task, same, open, device, fuel);
            lemma_same_outcome(visit(open, device, fuel));
        },
        Volume::Ntfs(info) => {
            let task = |m: NtfsScanModel| VolumeTaskModel::Ntfs(m);
            let open = NtfsScanModel::open(info);
            law_same_outcome(task, same, open, device, fuel);
            lemma_same_outcome(visit(open, device, fuel));
        },
        Volume::Ext(info) => {
            let task = |m: ExtDirModel| VolumeTaskModel::Ext(m);
            let open = ExtDirModel::open(info, EXT2_ROOT_INODE, Seq::empty(), true);
            law_same_outcome(task, same, open, device, fuel);
            lemma_same_outcome(visit(open, device, fuel));
        },
    }
}

proof fn lemma_same_outcome(outcome: Option<Outcome<FileModel>>)
    ensures
        outcome_as(outcome, |f: FileModel| f) == outcome,
{
    match outcome {
        Some(o) => {
            assert(o.yielded.map_values(|f: FileModel| f) =~= o.yielded);
        },
        None => {},
    }
}

} // verus!
