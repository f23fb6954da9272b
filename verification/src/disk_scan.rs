//! The scan of a whole disk: its partition table is read, and each partition is scanned.

use vstd::prelude::*;
use crate::bytes::array_of;
use crate::disk::{
    mbr_entries, mbr_partitions, parse_mbr, partition_models, Partition, PartitionModel,
};
use crate::embed::{take_pieces, taken_as, Embeds};
use crate::ext::{check_ext_layout, ext_layout_fits, ext_volume, probe_from_buf};
use crate::fat::boot_signed;
use crate::gpt::{
    gpt_header, gpt_partitions, gpt_readable, parse_gpt, read_gpt_header, try_parse_gpt, GptHeader,
};
use crate::text::{decimal, push_decimal};
use crate::types::{file_models, DeletedFile, FileModel};
use crate::volume::{
    boot_layout_fits, boot_volume, check_boot_layout, probe_boot, Volume, VolumeTask,
    VolumeTaskModel,
};
use crate::walk::{
    all_valid, answer, fits, piece_models, Failure, Modelled, Piece, Request, Status, Task,
    TaskModel, Walk, WalkModel,
};

verus! {

// ---------------------------------------------------------------------------------------------
// Events
// ---------------------------------------------------------------------------------------------

/// The kind of a volume.
#[derive(Debug, Clone, Copy, PartialEq, Eq, Structural)]
pub enum VolumeKind {
    Fat32,
    Exfat,
    Ntfs,
    Ext,
}

impl VolumeKind {
    /// The kind of a volume.
    pub open spec fn of(volume: Volume) -> VolumeKind {
        match volume {
            Volume::Fat32(_) => VolumeKind::Fat32,
            Volume::Exfat(_) => VolumeKind::Exfat,
            Volume::Ntfs(_) => VolumeKind::Ntfs,
            Volume::Ext(_) => VolumeKind::Ext,
        }
    }

    /// The name of the kind.
    pub open spec fn text(self) -> Seq<char> {
        match self {
            VolumeKind::Fat32 => "FAT32"@,
            VolumeKind::Exfat => "exFAT"@,
            VolumeKind::Ntfs => "NTFS"@,
            VolumeKind::Ext => "ext4"@,
        }
    }

    /// The name of the kind.
    pub fn name(&self) -> (name: &'static str)
        ensures
            name@ == self.text(),
    {
        match self {
            VolumeKind::Fat32 => "FAT32",
            VolumeKind::Exfat => "exFAT",
            VolumeKind::Ntfs => "NTFS",
            VolumeKind::Ext => "ext4",
        }
    }
}

fn kind_of(volume: &Volume) -> (kind: VolumeKind)
    ensures
        kind == VolumeKind::of(*volume),
{
    match volume {
        Volume::Fat32(_) => VolumeKind::Fat32,
        Volume::Exfat(_) => VolumeKind::Exfat,
        Volume::Ntfs(_) => VolumeKind::Ntfs,
        Volume::Ext(_) => VolumeKind::Ext,
    }
}

/// What the scan of a disk comes upon.
#[derive(Debug, Clone)]
pub enum Event {
    /// A line that tells how the scan goes.
    Line(String),
    /// The scan of a volume gave up.
    Failed(VolumeKind, Failure),
    /// A deleted file.
    File(DeletedFile),
}

/// What the scan of a disk comes upon, as contracts speak of it.
pub enum EventModel {
    Line(Seq<char>),
    Failed(VolumeKind, Failure),
    File(FileModel),
}

impl View for Event {
    type V = EventModel;

    open spec fn view(&self) -> EventModel {
        match *self {
            Event::Line(line) => EventModel::Line(line@),
            Event::Failed(kind, failure) => EventModel::Failed(kind, failure),
            Event::File(file) => EventModel::File(file@),
        }
    }
}

/// The files among events.
pub open spec fn files_in(events: Seq<EventModel>) -> Seq<FileModel>
    decreases events.len(),
{
    if events.len() == 0 {
        seq![]
    } else {
        match events.last() {
            EventModel::File(file) => files_in(events.drop_last()).push(file),
            _ => files_in(events.drop_last()),
        }
    }
}

/// Events as contracts speak of them.
pub open spec fn event_models(events: Seq<Event>) -> Seq<EventModel> {
    Seq::new(events.len(), |i: int| events[i]@)
}

/// The files among events.
pub fn files_of(events: Vec<Event>) -> (files: Vec<DeletedFile>)
    ensures
        file_models(files@) == files_in(event_models(events@)),
{
    let ghost all = event_models(events@);
    let ghost before = events@;
    let mut files: Vec<DeletedFile> = Vec::new();
    assert(all.take(0) =~= seq![]);
    assert(file_models(files@) =~= seq![]);
    for event in it: events
        invariant
            it.seq() == before,
            all == event_models(before),
            file_models(files@) == files_in(all.take(it.index())),
    {
        proof {
            assert(all.take(it.index() + 1).drop_last() =~= all.take(it.index()));
            assert(all.take(it.index() + 1).last() == event@);
        }
        match event {
            Event::File(file) => {
                let ghost had = files@;
                files.push(file);
                assert(file_models(files@) =~= file_models(had).push(
                    file@,
                ));
            },
            _ => {},
        }
    }
    assert(all.take(all.len() as int) =~= all);
    files
}

// ---------------------------------------------------------------------------------------------
// The parts of a scan
// ---------------------------------------------------------------------------------------------

/// A part of the scan of a disk, as contracts speak of it.
pub enum DiskTaskModel {
    /// Waits for the master boot record.
    Mbr,
    /// Waits for the GPT header; the partitions of the master boot record are kept for the case
    /// that there is none.
    Header { mbr: Seq<PartitionModel> },
    /// Waits for the GPT entries.
    Entries { mbr: Seq<PartitionModel>, header: GptHeader },
    /// Waits for the boot sector of a partition.
    Boot { label: Seq<char>, offset: u64 },
    /// Waits for the first bytes of a partition, which may be an ext volume; `otherwise` is the line
    /// for the case that it is none.
    Super { otherwise: Seq<char>, offset: u64 },
    /// Scans a volume.
    Volume { kind: VolumeKind, task: VolumeTaskModel },
    /// Scans something inside a volume.
    Inside { task: VolumeTaskModel },
    /// Waits for nothing.
    Done,
}

/// A line as a piece.
pub open spec fn line(text: Seq<char>) -> Piece<DiskTaskModel, EventModel> {
    Piece::Emit(EventModel::Line(text))
}

/// Whether a type byte is that of an extended partition.
pub open spec fn extended_type(fs_type: u8) -> bool {
    fs_type == 0x0F || fs_type == 0x05 || fs_type == 0x85
}

/// The type byte of the partition that stands in a master boot record for a GPT.
pub const GPT_PROTECTIVE: u8 = 0xEE;

/// What is done about a partition: extended ones and the one that stands for a GPT are not scanned
/// when they come from a master boot record.
pub open spec fn partition_piece(part: PartitionModel, gpt: bool) -> Piece<
    DiskTaskModel,
    EventModel,
> {
    if !gpt && extended_type(part.fs_type_byte) {
        line("Skipping extended partition: "@ + part.label)
    } else if !gpt && part.fs_type_byte == GPT_PROTECTIVE {
        line("Skipping GPT protective MBR entry."@)
    } else {
        Piece::Enter(
            DiskTaskModel::Boot { label: part.label, offset: (part.start_lba * 512) as u64 },
        )
    }
}

/// The lines that list partitions.
pub open spec fn list_pieces(parts: Seq<PartitionModel>) -> Seq<Piece<DiskTaskModel, EventModel>> {
    Seq::new(parts.len(), |i: int| line("  "@ + parts[i].label))
}

/// What is done about partitions.
pub open spec fn scan_pieces(parts: Seq<PartitionModel>, gpt: bool) -> Seq<
    Piece<DiskTaskModel, EventModel>,
> {
    Seq::new(parts.len(), |i: int| partition_piece(parts[i], gpt))
}

/// What is done about the partitions of a disk: they are listed and then scanned one after
/// another.
pub open spec fn plan(parts: Seq<PartitionModel>, gpt: bool) -> Seq<
    Piece<DiskTaskModel, EventModel>,
> {
    if parts.len() == 0 {
        seq![line("No partitions found."@)]
    } else {
        let table = if gpt {
            "GPT"@
        } else {
            "MBR"@
        };
        seq![line("Found "@ + decimal(parts.len()) + " "@ + table + " partition(s):"@)]
            + list_pieces(parts) + seq![line(""@)] + scan_pieces(parts, gpt)
    }
}

/// Whether every partition that is scanned has an address.
pub open spec fn plan_fits(parts: Seq<PartitionModel>) -> bool {
    forall|i: int| 0 <= i < parts.len() ==> (#[trigger] parts[i]).start_lba * 512 <= u64::MAX
}

/// What is done where a GPT cannot be read: the master boot record has to do.
pub open spec fn fallback(mbr: Seq<PartitionModel>) -> Seq<Piece<DiskTaskModel, EventModel>> {
    seq![line("GPT parsing failed, falling back to MBR."@)] + plan(mbr, false)
}

/// The line that tells what a GPT header says.
pub open spec fn header_line(header: GptHeader) -> Seq<char> {
    "GPT: "@ + decimal(header.count as nat) + " partition entries at LBA "@ + decimal(
        header.entries_lba as nat,
    ) + ", entry size "@ + decimal(header.entry_size as nat)
}

/// The partitions of a GPT.
pub open spec fn gpt_parts(header: GptHeader, entries: Seq<u8>) -> Seq<PartitionModel> {
    gpt_partitions(entries, header.count as int, header.entry_size as int, 0)
}

/// Whether a master boot record stands for a GPT.
pub open spec fn protective(parts: Seq<PartitionModel>) -> bool {
    exists|i: int| 0 <= i < parts.len() && (#[trigger] parts[i]).fs_type_byte == GPT_PROTECTIVE
}

/// The volume by which a boot sector that bears a signature is recognized.
pub open spec fn signed_boot_volume(boot: Seq<u8>) -> Option<Volume> {
    if boot_signed(boot) {
        boot_volume(boot)
    } else {
        None
    }
}

/// The ext volume in the first bytes of a partition; the boot block before its superblock may hold
/// anything.
pub open spec fn super_volume(data: Seq<u8>) -> Option<Volume> {
    match ext_volume(data) {
        Some(info) => Some(Volume::Ext(info)),
        None => None,
    }
}

/// The line about a partition whose boot sector tells no volume and which is no ext volume either.
pub open spec fn unrecognized_line(label: Seq<char>, boot: Seq<u8>) -> Seq<char> {
    if boot_signed(boot) {
        "  Unrecognized filesystem"@
    } else {
        "  No boot signature for "@ + label
    }
}

impl DiskTaskModel {
    /// The scan of a volume that was recognized.
    pub open spec fn scan_of(volume: Volume, offset: u64) -> Self {
        DiskTaskModel::Volume {
            kind: VolumeKind::of(volume),
            task: VolumeTaskModel::open(volume.at(offset)),
        }
    }
}

/// The line that tells that a volume was recognized.
pub open spec fn detected_line(volume: Volume) -> Seq<char> {
    "  "@ + VolumeKind::of(volume).text() + " detected"@
}

/// What a volume's scan hands out.
pub open spec fn inner_pieces(pieces: Seq<Piece<VolumeTaskModel, FileModel>>) -> Seq<
    Piece<DiskTaskModel, EventModel>,
> {
    taken_as(
        pieces,
        |t: VolumeTaskModel| DiskTaskModel::Inside { task: t },
        |f: FileModel| EventModel::File(f),
    )
}

/// What the end of a volume's scan is worth telling: that it failed.
pub open spec fn end_pieces(kind: VolumeKind, task: VolumeTaskModel) -> Seq<
    Piece<DiskTaskModel, EventModel>,
> {
    match task.status() {
        Err(failure) => if task.wants() is None {
            seq![Piece::Emit(EventModel::Failed(kind, failure))]
        } else {
            seq![]
        },
        Ok(_) => seq![],
    }
}

impl TaskModel for DiskTaskModel {
    type Out = EventModel;

    open spec fn wants(self) -> Option<Request> {
        match self {
            DiskTaskModel::Mbr => Some(Request { offset: 0, len: 512 }),
            DiskTaskModel::Header { .. } => Some(Request { offset: 512, len: 512 }),
            DiskTaskModel::Entries { header, .. } => header.entries_request(),
            DiskTaskModel::Boot { offset, .. } => Some(Request { offset, len: 512 }),
            DiskTaskModel::Super { offset, .. } => Some(Request { offset, len: 2048 }),
            DiskTaskModel::Volume { task, .. } => task.wants(),
            DiskTaskModel::Inside { task } => task.wants(),
            DiskTaskModel::Done => None,
        }
    }

    open spec fn pieces(self, reply: Option<Seq<u8>>) -> Seq<Piece<Self, EventModel>> {
        match (self, reply) {
            (DiskTaskModel::Mbr, None) => seq![line("ERROR: Cannot read MBR"@)],
            (DiskTaskModel::Mbr, Some(mbr)) => if protective(mbr_partitions(mbr)) {
                seq![line("GPT protective MBR detected, parsing GPT table..."@)]
            } else {
                plan(mbr_partitions(mbr), false)
            },
            (DiskTaskModel::Header { mbr }, None) => seq![
                line("Cannot read GPT header at LBA 1"@),
            ] + fallback(mbr),
            (DiskTaskModel::Header { mbr }, Some(sector)) => match gpt_header(sector) {
                None => seq![line("No GPT signature found"@)] + fallback(mbr),
                Some(header) => match header.entries_request() {
                    None => seq![line(header_line(header))] + fallback(mbr),
                    Some(_) => seq![line(header_line(header))],
                },
            },
            (DiskTaskModel::Entries { mbr, .. }, None) => seq![
                line("Cannot read GPT partition entries"@),
            ] + fallback(mbr),
            (DiskTaskModel::Entries { mbr, header }, Some(entries)) => if gpt_parts(
                header,
                entries,
            ).len() == 0 {
                fallback(mbr)
            } else {
                plan(gpt_parts(header, entries), true)
            },
            (DiskTaskModel::Boot { label, .. }, None) => seq![
                line("  Cannot read boot sector for "@ + label),
            ],
            (DiskTaskModel::Boot { .. }, Some(boot)) => match signed_boot_volume(boot) {
                Some(volume) => seq![line(detected_line(volume))],
                None => seq![],
            },
            (DiskTaskModel::Super { otherwise, .. }, Some(data)) => match super_volume(data) {
                Some(volume) => seq![line(detected_line(volume))],
                None => seq![line(otherwise)],
            },
            (DiskTaskModel::Super { otherwise, .. }, None) => seq![line(otherwise)],
            (DiskTaskModel::Volume { kind, task }, _) => inner_pieces(task.pieces(reply))
                + end_pieces(kind, task.next(reply)),
            (DiskTaskModel::Inside { task }, _) => inner_pieces(task.pieces(reply)),
            (DiskTaskModel::Done, _) => seq![],
        }
    }

    open spec fn next(self, reply: Option<Seq<u8>>) -> Self {
        match (self, reply) {
            (DiskTaskModel::Mbr, Some(mbr)) => if protective(mbr_partitions(mbr)) {
                DiskTaskModel::Header { mbr: mbr_partitions(mbr) }
            } else {
                DiskTaskModel::Done
            },
            (DiskTaskModel::Header { mbr }, Some(sector)) => match gpt_header(sector) {
                Some(header) => if header.entries_request() is Some {
                    DiskTaskModel::Entries { mbr, header }
                } else {
                    DiskTaskModel::Done
                },
                None => DiskTaskModel::Done,
            },
            (DiskTaskModel::Boot { label, offset }, Some(boot)) => match signed_boot_volume(boot) {
                Some(volume) => DiskTaskModel::scan_of(volume, offset),
                None => DiskTaskModel::Super { otherwise: unrecognized_line(label, boot), offset },
            },
            (DiskTaskModel::Super { offset, .. }, Some(data)) => match super_volume(data) {
                Some(volume) => DiskTaskModel::scan_of(volume, offset),
                None => DiskTaskModel::Done,
            },
            (DiskTaskModel::Volume { kind, task }, _) => DiskTaskModel::Volume {
                kind,
                task: task.next(reply),
            },
            (DiskTaskModel::Inside { task }, _) => DiskTaskModel::Inside {
                task: task.next(reply),
            },
            _ => DiskTaskModel::Done,
        }
    }

    open spec fn status(self) -> Status {
        match self {
            DiskTaskModel::Volume { task, .. } => task.status(),
            DiskTaskModel::Inside { task } => task.status(),
            _ => Ok(()),
        }
    }

    open spec fn valid(self) -> bool {
        match self {
            DiskTaskModel::Header { mbr } => plan_fits(mbr),
            DiskTaskModel::Entries { mbr, header } => plan_fits(mbr) && header.addressable()
                && header.entry_size > 0,
            DiskTaskModel::Volume { task, .. } => task.valid(),
            DiskTaskModel::Inside { task } => task.valid(),
            _ => true,
        }
    }

    /// Answers that lead to nothing without an address and hold nothing that cannot be read.
    open spec fn accepts(self, reply: Option<Seq<u8>>) -> bool {
        match (self, reply) {
            (DiskTaskModel::Header { .. }, Some(sector)) => gpt_header(sector) matches Some(header)
                ==> header.addressable(),
            (DiskTaskModel::Entries { header, .. }, Some(entries)) => gpt_readable(
                entries,
                header.count as int,
                header.entry_size as int,
                0,
            ) && plan_fits(gpt_parts(header, entries)),
            (DiskTaskModel::Boot { offset, .. }, Some(boot)) => boot_signed(boot) ==> {
                &&& boot_layout_fits(boot)
                &&& boot_volume(boot) matches Some(volume) ==> volume.at(offset).scannable()
            },
            (DiskTaskModel::Super { offset, .. }, Some(data)) => {
                &&& ext_layout_fits(data)
                &&& super_volume(data) matches Some(volume) ==> volume.at(offset).scannable()
            },
            (DiskTaskModel::Volume { task, .. }, _) => task.accepts(reply),
            (DiskTaskModel::Inside { task }, _) => task.accepts(reply),
            _ => true,
        }
    }
}

/// A part of the scan of a disk.
pub enum DiskTask {
    /// Waits for the master boot record.
    Mbr,
    /// Waits for the GPT header.
    Header { mbr: Vec<Partition> },
    /// Waits for the GPT entries.
    Entries { mbr: Vec<Partition>, header: GptHeader },
    /// Waits for the boot sector of a partition.
    Boot { label: String, offset: u64 },
    /// Waits for the first bytes of a partition, which may be an ext volume; `otherwise` is the line
    /// for the case that it is none.
    Super { otherwise: String, offset: u64 },
    /// Scans a volume.
    Volume { kind: VolumeKind, task: VolumeTask },
    /// Scans something inside a volume.
    Inside { task: VolumeTask },
    /// Waits for nothing.
    Done,
}

impl Modelled for DiskTask {
    type Model = DiskTaskModel;

    type Output = Event;

    open spec fn model(self) -> DiskTaskModel {
        match self {
            DiskTask::Mbr => DiskTaskModel::Mbr,
            DiskTask::Header { mbr } => DiskTaskModel::Header { mbr: partition_models(mbr@) },
            DiskTask::Entries { mbr, header } => DiskTaskModel::Entries {
                mbr: partition_models(mbr@),
                header,
            },
            DiskTask::Boot { label, offset } => DiskTaskModel::Boot { label: label@, offset },
            DiskTask::Super { otherwise, offset } => DiskTaskModel::Super {
                otherwise: otherwise@,
                offset,
            },
            DiskTask::Volume { kind, task } => DiskTaskModel::Volume {
                kind,
                task: task.model(),
            },
            DiskTask::Inside { task } => DiskTaskModel::Inside { task: task.model() },
            DiskTask::Done => DiskTaskModel::Done,
        }
    }

    open spec fn output(out: Event) -> EventModel {
        out@
    }
}

/// The pieces that a scan hands out.
type Pieces = Vec<Piece<DiskTask, Event>>;

/// Adds a line to the pieces.
fn push_line(pieces: &mut Pieces, text: String)
    ensures
        piece_models::<DiskTask>(final(pieces)@) == piece_models::<DiskTask>(old(pieces)@).push(
            line(text@),
        ),
{
    let ghost had = pieces@;
    pieces.push(Piece::Emit(Event::Line(text)));
    assert(piece_models::<DiskTask>(pieces@) =~= piece_models::<DiskTask>(had).push(line(text@)));
}

/// The two texts, one after the other.
fn two(a: &str, b: &str) -> (text: String)
    ensures
        text@ == a@ + b@,
{
    let mut text = a.to_owned();
    text.append(b);
    text
}

/// Adds what is done about a partition.
fn push_partition(pieces: &mut Pieces, part: &Partition, gpt: bool)
    requires
        part.start_lba * 512 <= u64::MAX,
    ensures
        piece_models::<DiskTask>(final(pieces)@) == piece_models::<DiskTask>(old(pieces)@).push(
            partition_piece(part@, gpt),
        ),
{
    let fs_type: u8 = part.fs_type_byte;
    if !gpt && (fs_type == 0x0F || fs_type == 0x05 || fs_type == 0x85) {
        push_line(pieces, two("Skipping extended partition: ", part.label.as_str()));
    } else if !gpt && fs_type == GPT_PROTECTIVE {
        push_line(pieces, "Skipping GPT protective MBR entry.".to_owned());
    } else {
        let ghost had = pieces@;
        pieces.push(
            Piece::Enter(
                DiskTask::Boot { label: part.label.clone(), offset: part.start_lba * 512 },
            ),
        );
        assert(piece_models::<DiskTask>(pieces@) =~= piece_models::<DiskTask>(had).push(
            partition_piece(part@, gpt),
        ));
    }
}

/// Adds what is done about the partitions of a disk.
fn push_plan(pieces: &mut Pieces, parts: &Vec<Partition>, gpt: bool)
    requires
        plan_fits(partition_models(parts@)),
    ensures
        piece_models::<DiskTask>(final(pieces)@) == piece_models::<DiskTask>(old(pieces)@) + plan(
            partition_models(parts@),
            gpt,
        ),
{
    let ghost before = piece_models::<DiskTask>(pieces@);
    let ghost models = partition_models(parts@);
    let n: usize = parts.len();
    if n == 0 {
        push_line(pieces, "No partitions found.".to_owned());
        assert(piece_models::<DiskTask>(pieces@) =~= before + plan(models, gpt));
        return ;
    }
    let mut head = String::new();
    head.append("Found ");
    push_decimal(&mut head, n as u64);
    head.append(" ");
    head.append(
        if gpt {
            "GPT"
        } else {
            "MBR"
        },
    );
    head.append(" partition(s):");
    let ghost title = line(head@);
    push_line(pieces, head);
    let ghost start = piece_models::<DiskTask>(pieces@);
    let mut i: usize = 0;
    while i < n
        invariant
            n == parts@.len(),
            models == partition_models(parts@),
            i <= n,
            piece_models::<DiskTask>(pieces@) =~= start + list_pieces(models).take(i as int),
        decreases n - i,
    {
        push_line(pieces, two("  ", parts[i].label.as_str()));
        i = i + 1;
    }
    assert(list_pieces(models).take(n as int) =~= list_pieces(models));
    push_line(pieces, "".to_owned());
    let ghost listed = piece_models::<DiskTask>(pieces@);
    let mut k: usize = 0;
    while k < n
        invariant
            n == parts@.len(),
            models == partition_models(parts@),
            plan_fits(models),
            k <= n,
            piece_models::<DiskTask>(pieces@) =~= listed + scan_pieces(models, gpt).take(k as int),
        decreases n - k,
    {
        assert(models[k as int].start_lba * 512 <= u64::MAX);
        push_partition(pieces, &parts[k], gpt);
        k = k + 1;
    }
    assert(scan_pieces(models, gpt).take(n as int) =~= scan_pieces(models, gpt));
    assert(seq![title] + list_pieces(models) + seq![line(""@)] + scan_pieces(models, gpt) =~= plan(
        models,
        gpt,
    )) by {
        let table = if gpt {
            "GPT"@
        } else {
            "MBR"@
        };
        assert(head@ =~= "Found "@ + decimal(models.len()) + " "@ + table + " partition(s):"@);
    }
    assert(piece_models::<DiskTask>(pieces@) =~= before + plan(models, gpt));
}

/// Adds what is done where a GPT cannot be read.
fn push_fallback(pieces: &mut Pieces, mbr: &Vec<Partition>)
    requires
        plan_fits(partition_models(mbr@)),
    ensures
        piece_models::<DiskTask>(final(pieces)@) == piece_models::<DiskTask>(old(pieces)@)
            + fallback(partition_models(mbr@)),
{
    let ghost before = piece_models::<DiskTask>(pieces@);
    push_line(pieces, "GPT parsing failed, falling back to MBR.".to_owned());
    push_plan(pieces, mbr, false);
    assert(piece_models::<DiskTask>(pieces@) =~= before + fallback(partition_models(mbr@)));
}

fn is_protective(parts: &Vec<Partition>) -> (answer: bool)
    ensures
        answer == protective(partition_models(parts@)),
{
    let ghost models = partition_models(parts@);
    let mut i: usize = 0;
    while i < parts.len()
        invariant
            models == partition_models(parts@),
            i <= parts@.len(),
            forall|j: int| 0 <= j < i ==> (#[trigger] models[j]).fs_type_byte != GPT_PROTECTIVE,
        decreases parts@.len() - i,
    {
        if parts[i].fs_type_byte == GPT_PROTECTIVE {
            assert(models[i as int].fs_type_byte == GPT_PROTECTIVE);
            return true;
        }
        i = i + 1;
    }
    false
}

fn does_plan_fit(parts: &Vec<Partition>) -> (answer: bool)
    ensures
        answer == plan_fits(partition_models(parts@)),
{
    let ghost models = partition_models(parts@);
    let mut i: usize = 0;
    while i < parts.len()
        invariant
            models == partition_models(parts@),
            i <= parts@.len(),
            forall|j: int| 0 <= j < i ==> (#[trigger] models[j]).start_lba * 512 <= u64::MAX,
        decreases parts@.len() - i,
    {
        if parts[i].start_lba > u64::MAX / 512 {
            assert(models[i as int].start_lba * 512 > u64::MAX);
            return false;
        }
        i = i + 1;
    }
    true
}

/// The partitions of a master boot record have addresses.
proof fn lemma_mbr_fits(mbr: Seq<u8>, n: nat)
    ensures
        plan_fits(mbr_entries(mbr, n)),
    decreases n,
{
    if n > 0 {
        lemma_mbr_fits(mbr, (n - 1) as nat);
    }
}

fn is_signed(data: &[u8]) -> (answer: bool)
    requires
        data@.len() >= 512,
    ensures
        answer == boot_signed(data@),
{
    data[510] == 0x55 && data[511] == 0xAA
}

/// The ext volume in the first bytes of a partition.
fn probe_super(data: &[u8]) -> (volume: Option<Volume>)
    requires
        data@.len() == 2048,
        ext_layout_fits(data@),
    ensures
        volume == super_volume(data@),
{
    let buf: [u8; 2048] = array_of(data);
    match probe_from_buf(&buf) {
        Some(info) => Some(Volume::Ext(info)),
        None => None,
    }
}

impl Embeds<VolumeTask> for DiskTask {
    open spec fn task_as(task: VolumeTaskModel) -> DiskTaskModel {
        DiskTaskModel::Inside { task }
    }

    open spec fn out_as(out: FileModel) -> EventModel {
        EventModel::File(out)
    }

    fn take_task(task: VolumeTask) -> (taken: Self) {
        DiskTask::Inside { task }
    }

    fn take_out(out: DeletedFile) -> (taken: Event) {
        Event::File(out)
    }
}

/// Goes on with what a volume's scan hands out.
fn take_inner(pieces: Vec<Piece<VolumeTask, DeletedFile>>) -> (taken: Pieces)
    ensures
        piece_models::<DiskTask>(taken@) == inner_pieces(piece_models::<VolumeTask>(pieces@)),
{
    let taken = take_pieces::<VolumeTask, DiskTask>(pieces);
    assert(piece_models::<DiskTask>(taken@) =~= inner_pieces(
        piece_models::<VolumeTask>(pieces@),
    ));
    taken
}

/// Lines and results hold no tasks, and a partition waits for its boot sector.
proof fn lemma_plan_valid(parts: Seq<PartitionModel>, gpt: bool)
    ensures
        all_valid(plan(parts, gpt)),
        all_valid(fallback(parts)),
{
}

/// What a volume's scan hands out is valid if it was.
proof fn lemma_inner_valid(pieces: Seq<Piece<VolumeTaskModel, FileModel>>)
    requires
        all_valid(pieces),
    ensures
        all_valid(inner_pieces(pieces)),
{
    let taken = inner_pieces(pieces);
    assert forall|i: int| 0 <= i < taken.len() implies (#[trigger] taken[i] matches Piece::Enter(
        task,
    ) ==> task.valid()) by {
        assert(pieces[i] matches Piece::Enter(task) ==> task.valid());
    }
}

impl DiskTask {
    fn take_mbr(sector: &[u8]) -> (turn: (Pieces, DiskTask))
        requires
            sector@.len() == 512,
        ensures
            piece_models::<DiskTask>(turn.0@) == DiskTaskModel::Mbr.pieces(Some(sector@)),
            turn.1.model() == DiskTaskModel::Mbr.next(Some(sector@)),
            turn.1.model().valid(),
            all_valid(DiskTaskModel::Mbr.pieces(Some(sector@))),
    {
        let mut pieces: Pieces = Vec::new();
        assert(piece_models::<DiskTask>(pieces@) =~= seq![]);
        let buf: [u8; 512] = array_of(sector);
        let mbr = parse_mbr(&buf);
        proof {
            lemma_mbr_fits(sector@, 4);
            lemma_plan_valid(partition_models(mbr@), false);
        }
        if is_protective(&mbr) {
            push_line(
                &mut pieces,
                "GPT protective MBR detected, parsing GPT table...".to_owned(),
            );
            assert(piece_models::<DiskTask>(pieces@) =~= DiskTaskModel::Mbr.pieces(Some(sector@)));
            (pieces, DiskTask::Header { mbr })
        } else {
            push_plan(&mut pieces, &mbr, false);
            assert(piece_models::<DiskTask>(pieces@) =~= DiskTaskModel::Mbr.pieces(Some(sector@)));
            (pieces, DiskTask::Done)
        }
    }

    fn take_header(mbr: Vec<Partition>, sector: &[u8]) -> (turn: (Pieces, DiskTask))
        requires
            sector@.len() == 512,
            plan_fits(partition_models(mbr@)),
            gpt_header(sector@) matches Some(header) ==> header.addressable(),
        ensures
            ({
                let task = DiskTaskModel::Header { mbr: partition_models(mbr@) };
                &&& piece_models::<DiskTask>(turn.0@) == task.pieces(Some(sector@))
                &&& turn.1.model() == task.next(Some(sector@))
                &&& turn.1.model().valid()
                &&& all_valid(task.pieces(Some(sector@)))
            }),
    {
        let ghost task = DiskTaskModel::Header { mbr: partition_models(mbr@) };
        let mut pieces: Pieces = Vec::new();
        assert(piece_models::<DiskTask>(pieces@) =~= seq![]);
        proof {
            lemma_plan_valid(partition_models(mbr@), false);
        }
        match read_gpt_header(sector) {
            None => {
                push_line(&mut pieces, "No GPT signature found".to_owned());
                push_fallback(&mut pieces, &mbr);
                assert(piece_models::<DiskTask>(pieces@) =~= task.pieces(Some(sector@)));
                (pieces, DiskTask::Done)
            },
            Some(header) => {
                let mut text = String::new();
                text.append("GPT: ");
                push_decimal(&mut text, header.count as u64);
                text.append(" partition entries at LBA ");
                push_decimal(&mut text, header.entries_lba);
                text.append(", entry size ");
                push_decimal(&mut text, header.entry_size as u64);
                assert(text@ =~= header_line(header));
                push_line(&mut pieces, text);
                if header.request().is_some() {
                    assert(piece_models::<DiskTask>(pieces@) =~= task.pieces(Some(sector@)));
                    (pieces, DiskTask::Entries { mbr, header })
                } else {
                    push_fallback(&mut pieces, &mbr);
                    assert(piece_models::<DiskTask>(pieces@) =~= task.pieces(Some(sector@)));
                    (pieces, DiskTask::Done)
                }
            },
        }
    }

    fn take_entries(mbr: Vec<Partition>, header: GptHeader, entries: &[u8]) -> (turn: (
        Pieces,
        DiskTask,
    ))
        requires
            plan_fits(partition_models(mbr@)),
            header.entry_size > 0,
            gpt_readable(entries@, header.count as int, header.entry_size as int, 0),
            plan_fits(gpt_parts(header, entries@)),
        ensures
            ({
                let task = DiskTaskModel::Entries { mbr: partition_models(mbr@), header };
                &&& piece_models::<DiskTask>(turn.0@) == task.pieces(Some(entries@))
                &&& turn.1.model() == task.next(Some(entries@))
                &&& turn.1.model().valid()
                &&& all_valid(task.pieces(Some(entries@)))
            }),
    {
        let ghost task = DiskTaskModel::Entries { mbr: partition_models(mbr@), header };
        let mut pieces: Pieces = Vec::new();
        assert(piece_models::<DiskTask>(pieces@) =~= seq![]);
        let parts = parse_gpt(entries, &header);
        proof {
            lemma_plan_valid(partition_models(mbr@), false);
            lemma_plan_valid(gpt_parts(header, entries@), true);
        }
        if parts.len() == 0 {
            push_fallback(&mut pieces, &mbr);
        } else {
            push_plan(&mut pieces, &parts, true);
        }
        assert(piece_models::<DiskTask>(pieces@) =~= task.pieces(Some(entries@)));
        (pieces, DiskTask::Done)
    }

    /// Begins the scan of a volume that was recognized.
    fn begin(volume: Volume, offset: u64) -> (turn: (Pieces, DiskTask))
        requires
            volume.at(offset).scannable(),
        ensures
            piece_models::<DiskTask>(turn.0@) == seq![line(detected_line(volume))],
            turn.1.model() == DiskTaskModel::scan_of(volume, offset),
            turn.1.model().valid(),
    {
        let mut pieces: Pieces = Vec::new();
        assert(piece_models::<DiskTask>(pieces@) =~= seq![]);
        let kind = kind_of(&volume);
        let mut text = two("  ", kind.name());
        text.append(" detected");
        push_line(&mut pieces, text);
        assert(piece_models::<DiskTask>(pieces@) =~= seq![line(detected_line(volume))]);
        let task = VolumeTask::open(&volume.moved_to(offset));
        (pieces, DiskTask::Volume { kind, task })
    }

    fn take_boot(label: String, offset: u64, boot: &[u8]) -> (turn: (Pieces, DiskTask))
        requires
            boot@.len() == 512,
            (DiskTaskModel::Boot { label: label@, offset }).accepts(Some(boot@)),
        ensures
            ({
                let task = DiskTaskModel::Boot { label: label@, offset };
                &&& piece_models::<DiskTask>(turn.0@) == task.pieces(Some(boot@))
                &&& turn.1.model() == task.next(Some(boot@))
                &&& turn.1.model().valid()
                &&& all_valid(task.pieces(Some(boot@)))
            }),
    {
        let ghost task = DiskTaskModel::Boot { label: label@, offset };
        let mut pieces: Pieces = Vec::new();
        assert(piece_models::<DiskTask>(pieces@) =~= seq![]);
        if !is_signed(boot) {
            let otherwise = two("  No boot signature for ", label.as_str());
            return (pieces, DiskTask::Super { otherwise, offset });
        }
        let buf: [u8; 512] = array_of(boot);
        match probe_boot(&buf) {
            Some(volume) => DiskTask::begin(volume, offset),
            None => {
                let otherwise = "  Unrecognized filesystem".to_owned();
                (pieces, DiskTask::Super { otherwise, offset })
            },
        }
    }

    fn take_super(otherwise: String, offset: u64, data: &[u8]) -> (turn: (Pieces, DiskTask))
        requires
            data@.len() == 2048,
            (DiskTaskModel::Super { otherwise: otherwise@, offset }).accepts(Some(data@)),
        ensures
            ({
                let task = DiskTaskModel::Super { otherwise: otherwise@, offset };
                &&& piece_models::<DiskTask>(turn.0@) == task.pieces(Some(data@))
                &&& turn.1.model() == task.next(Some(data@))
                &&& turn.1.model().valid()
                &&& all_valid(task.pieces(Some(data@)))
            }),
    {
        match probe_super(data) {
            Some(volume) => DiskTask::begin(volume, offset),
            None => {
                let mut pieces: Pieces = Vec::new();
                assert(piece_models::<DiskTask>(pieces@) =~= seq![]);
                let ghost text = otherwise@;
                push_line(&mut pieces, otherwise);
                assert(piece_models::<DiskTask>(pieces@) =~= seq![line(text)]);
                (pieces, DiskTask::Done)
            },
        }
    }

    fn take_volume(kind: VolumeKind, task: VolumeTask, reply: Option<&[u8]>) -> (turn: (
        Pieces,
        DiskTask,
    ))
        requires
            task.model().valid(),
            task.model().wants() is Some,
            fits(task.model().wants()->0, answer(reply)),
            task.model().accepts(answer(reply)),
        ensures
            ({
                let before = DiskTaskModel::Volume { kind, task: task.model() };
                &&& piece_models::<DiskTask>(turn.0@) == before.pieces(answer(reply))
                &&& turn.1.model() == before.next(answer(reply))
                &&& turn.1.model().valid()
                &&& all_valid(before.pieces(answer(reply)))
            }),
    {
        let ghost before = DiskTaskModel::Volume { kind, task: task.model() };
        let ghost inner = task.model().pieces(answer(reply));
        let (handed, next) = task.resume(reply);
        let mut pieces = take_inner(handed);
        proof {
            lemma_inner_valid(inner);
        }
        let ghost had = piece_models::<DiskTask>(pieces@);
        match next.status() {
            Err(failure) => {
                if next.wants().is_none() {
                    pieces.push(Piece::Emit(Event::Failed(kind, failure)));
                }
            },
            Ok(_) => {},
        }
        assert(piece_models::<DiskTask>(pieces@) =~= had + end_pieces(kind, next.model()));
        (pieces, DiskTask::Volume { kind, task: next })
    }
}

impl Task for DiskTask {
    fn wants(&self) -> (request: Option<Request>) {
        match self {
            DiskTask::Mbr => Some(Request { offset: 0, len: 512 }),
            DiskTask::Header { .. } => Some(Request { offset: 512, len: 512 }),
            DiskTask::Entries { header, .. } => header.request(),
            DiskTask::Boot { offset, .. } => Some(Request { offset: *offset, len: 512 }),
            DiskTask::Super { offset, .. } => Some(Request { offset: *offset, len: 2048 }),
            DiskTask::Volume { task, .. } => task.wants(),
            DiskTask::Inside { task } => task.wants(),
            DiskTask::Done => None,
        }
    }

    fn status(&self) -> (status: Status) {
        match self {
            DiskTask::Volume { task, .. } => task.status(),
            DiskTask::Inside { task } => task.status(),
            _ => Ok(()),
        }
    }

    fn can_take(&self, reply: Option<&[u8]>) -> (takes: bool) {
        match (self, reply) {
            (DiskTask::Header { .. }, Some(sector)) => match read_gpt_header(sector) {
                Some(header) => header.is_addressable(),
                None => true,
            },
            (DiskTask::Entries { header, .. }, Some(entries)) => match try_parse_gpt(
                entries,
                header,
            ) {
                Some(parts) => does_plan_fit(&parts),
                None => false,
            },
            (DiskTask::Boot { offset, .. }, Some(boot)) => {
                if !is_signed(boot) {
                    return true;
                }
                let buf: [u8; 512] = array_of(boot);
                check_boot_layout(&buf) && match probe_boot(&buf) {
                    Some(volume) => volume.moved_to(*offset).is_scannable(),
                    None => true,
                }
            },
            (DiskTask::Super { offset, .. }, Some(data)) => {
                let buf: [u8; 2048] = array_of(data);
                check_ext_layout(&buf) && match probe_super(data) {
                    Some(volume) => volume.moved_to(*offset).is_scannable(),
                    None => true,
                }
            },
            (DiskTask::Volume { task, .. }, _) => task.can_take(reply),
            (DiskTask::Inside { task }, _) => task.can_take(reply),
            _ => true,
        }
    }

    fn resume(self, reply: Option<&[u8]>) -> (turn: (Vec<Piece<Self, Event>>, Self)) {
        let ghost model = self.model();
        let mut pieces: Pieces = Vec::new();
        assert(piece_models::<DiskTask>(pieces@) =~= seq![]);
        match (self, reply) {
            (DiskTask::Mbr, Some(sector)) => DiskTask::take_mbr(sector),
            (DiskTask::Header { mbr }, Some(sector)) => DiskTask::take_header(mbr, sector),
            (DiskTask::Entries { mbr, header }, Some(entries)) => DiskTask::take_entries(
                mbr,
                header,
                entries,
            ),
            (DiskTask::Boot { label, offset }, Some(boot)) => DiskTask::take_boot(
                label,
                offset,
                boot,
            ),
            (DiskTask::Super { otherwise, offset }, Some(data)) => DiskTask::take_super(
                otherwise,
                offset,
                data,
            ),
            (DiskTask::Volume { kind, task }, _) => DiskTask::take_volume(kind, task, reply),
            (DiskTask::Inside { task }, _) => {
                let ghost inner = task.model().pieces(answer(reply));
                let (handed, next) = task.resume(reply);
                proof {
                    lemma_inner_valid(inner);
                }
                (take_inner(handed), DiskTask::Inside { task: next })
            },
            (DiskTask::Mbr, None) => {
                push_line(&mut pieces, "ERROR: Cannot read MBR".to_owned());
                assert(piece_models::<DiskTask>(pieces@) =~= model.pieces(None));
                (pieces, DiskTask::Done)
            },
            (DiskTask::Header { mbr }, None) => {
                push_line(&mut pieces, "Cannot read GPT header at LBA 1".to_owned());
                push_fallback(&mut pieces, &mbr);
                proof {
                    lemma_plan_valid(partition_models(mbr@), false);
                }
                assert(piece_models::<DiskTask>(pieces@) =~= model.pieces(None));
                (pieces, DiskTask::Done)
            },
            (DiskTask::Entries { mbr, .. }, None) => {
                push_line(&mut pieces, "Cannot read GPT partition entries".to_owned());
                push_fallback(&mut pieces, &mbr);
                proof {
                    lemma_plan_valid(partition_models(mbr@), false);
                }
                assert(piece_models::<DiskTask>(pieces@) =~= model.pieces(None));
                (pieces, DiskTask::Done)
            },
            (DiskTask::Boot { label, .. }, None) => {
                push_line(&mut pieces, two("  Cannot read boot sector for ", label.as_str()));
                assert(piece_models::<DiskTask>(pieces@) =~= model.pieces(None));
                (pieces, DiskTask::Done)
            },
            (DiskTask::Super { otherwise, .. }, None) => {
                push_line(&mut pieces, otherwise);
                assert(piece_models::<DiskTask>(pieces@) =~= model.pieces(None));
                (pieces, DiskTask::Done)
            },
            (DiskTask::Done, _) => (pieces, DiskTask::Done),
        }
    }
}

/// Begins the scan of a disk.
pub fn scan_disk() -> (walk: Walk<DiskTask>)
    ensures
        walk.model() == WalkModel::start(DiskTaskModel::Mbr),
        walk.model().valid(),
{
    Walk::start(DiskTask::Mbr)
}

/// Begins the scan of a partition.
pub fn scan_partition(partition: &Partition) -> (walk: Walk<DiskTask>)
    requires
        partition.start_lba * 512 <= u64::MAX,
    ensures
        walk.model() == WalkModel::start(
            DiskTaskModel::Boot {
                label: partition.label@,
                offset: (partition.start_lba * 512) as u64,
            },
        ),
        walk.model().valid(),
{
    Walk::start(
        DiskTask::Boot { label: partition.label.clone(), offset: partition.start_lba * 512 },
    )
}

} // verus!
