//! What the scan of a disk finds: what the scans of the volumes in its partitions find.

use vstd::prelude::*;
use crate::disk::{mbr_partitions, PartitionModel};
use crate::disk_scan::{
    end_pieces, files_in, gpt_parts, inner_pieces, partition_piece, plan, protective, scan_pieces,
    signed_boot_volume, super_volume, unrecognized_line, DiskTaskModel, EventModel, VolumeKind,
};
use crate::embed::law_same_outcome;
use crate::gpt::gpt_header;
use crate::types::FileModel;
use crate::volume::{Volume, VolumeTaskModel};
use crate::walk::{visit, visit_pieces, Device, Outcome, Piece, Request, TaskModel};
use crate::walk_laws::{lemma_one_result, lemma_pieces_concat, lemma_pieces_fuel_is_monotone};

verus! {

proof fn lemma_files_concat(a: Seq<EventModel>, b: Seq<EventModel>)
    ensures
        files_in(a + b) == files_in(a) + files_in(b),
    decreases b.len(),
{
    if b.len() == 0 {
        assert(a + b =~= a);
        assert(files_in(a) + files_in(b) =~= files_in(a));
    } else {
        lemma_files_concat(a, b.drop_last());
        assert((a + b).drop_last() =~= a + b.drop_last());
        assert((a + b).last() == b.last());
        assert(files_in(a + b) =~= files_in(a) + files_in(b));
    }
}

proof fn lemma_no_file(event: EventModel)
    requires
        !(event is File),
    ensures
        files_in(seq![event]) == Seq::<FileModel>::empty(),
{
    assert(seq![event].drop_last() =~= seq![]);
    assert(files_in(Seq::<EventModel>::empty()) =~= seq![]);
}

proof fn lemma_files_only(files: Seq<FileModel>)
    ensures
        files_in(files.map_values(|f: FileModel| EventModel::File(f))) == files,
    decreases files.len(),
{
    let events = files.map_values(|f: FileModel| EventModel::File(f));
    if files.len() > 0 {
        lemma_files_only(files.drop_last());
        assert(events.drop_last() =~= files.drop_last().map_values(
            |f: FileModel| EventModel::File(f),
        ));
        assert(files =~= files.drop_last().push(files.last()));
    } else {
        assert(files_in(events) =~= files);
    }
}

/// The pieces of a volume's scan yield what they yield in the scan of the volume alone.
proof fn lemma_inner_pieces(
    pieces: Seq<Piece<VolumeTaskModel, FileModel>>,
    device: Device,
    fuel: nat,
)
    ensures
        visit_pieces(inner_pieces(pieces), device, fuel) == (match visit_pieces(
            pieces,
            device,
            fuel,
        ) {
            Some(files) => Some(files.map_values(|f: FileModel| EventModel::File(f))),
            None => None,
        }),
    decreases pieces.len(),
{
    let task = |t: VolumeTaskModel| DiskTaskModel::Inside { task: t };
    let out = |f: FileModel| EventModel::File(f);
    let taken = inner_pieces(pieces);
    if pieces.len() == 0 {
        assert(Seq::<FileModel>::empty().map_values(out) =~= seq![]);
    } else {
        let left = pieces.drop_first();
        assert(taken.drop_first() =~= inner_pieces(left));
        lemma_inner_pieces(left, device, fuel);
        match pieces[0] {
            Piece::Emit(file) => {
                match visit_pieces(left, device, fuel) {
                    Some(rest) => {
                        assert((seq![file] + rest).map_values(out) =~= seq![out(file)]
                            + rest.map_values(out));
                    },
                    None => {},
                }
            },
            Piece::Enter(t) => {
                law_same_outcome(task, out, t, device, fuel);
                match (visit(t, device, fuel), visit_pieces(left, device, fuel)) {
                    (Some(first), Some(rest)) => {
                        assert((first.yielded + rest).map_values(out)
                            =~= first.yielded.map_values(out) + rest.map_values(out));
                    },
                    _ => {},
                }
            },
        }
    }
}

/// The files of an outcome, where there is one.
pub open spec fn outcome_files(outcome: Option<Outcome<EventModel>>) -> Option<Seq<FileModel>> {
    match outcome {
        Some(o) => Some(files_in(o.yielded)),
        None => None,
    }
}

/// What a task yields, where it has an outcome.
pub open spec fn yielded_files(outcome: Option<Outcome<FileModel>>) -> Option<Seq<FileModel>> {
    match outcome {
        Some(o) => Some(o.yielded),
        None => None,
    }
}

/// Scanned as part of a disk, a volume yields the files that it yields when it is scanned alone.
pub proof fn law_volume_within_a_disk(
    kind: VolumeKind,
    task: VolumeTaskModel,
    device: Device,
    fuel: nat,
)
    ensures
        outcome_files(visit(DiskTaskModel::Volume { kind, task }, device, fuel)) == yielded_files(
            visit(task, device, fuel),
        ),
    decreases fuel,
{
    let outer = DiskTaskModel::Volume { kind, task };
    match task.wants() {
        None => {},
        Some(request) => {
            if fuel > 0 {
                let f = (fuel - 1) as nat;
                let reply = device(request);
                let pieces = task.pieces(reply);
                let end = end_pieces(kind, task.next(reply));
                law_volume_within_a_disk(kind, task.next(reply), device, f);
                lemma_inner_pieces(pieces, device, f);
                lemma_pieces_concat(inner_pieces(pieces), end, device, f);
                assert(outer.pieces(reply) == inner_pieces(pieces) + end);
                if end.len() > 0 {
                    lemma_one_result::<DiskTaskModel>(end[0]->Emit_0, device, f);
                    assert(end =~= seq![Piece::Emit(end[0]->Emit_0)]);
                }
                let last = visit_pieces(end, device, f)->0;
                assert(visit_pieces(end, device, f) is Some);
                if end.len() > 0 {
                    lemma_no_file(end[0]->Emit_0);
                }
                assert(files_in(last) =~= seq![]);
                match (visit_pieces(pieces, device, f), visit(task.next(reply), device, f)) {
                    (Some(first), Some(rest)) => {
                        let events = first.map_values(|x: FileModel| EventModel::File(x));
                        let tail = visit(outer.next(reply), device, f)->0.yielded;
                        lemma_files_only(first);
                        lemma_files_concat(events, last);
                        lemma_files_concat(events + last, tail);
                        assert(first + Seq::<FileModel>::empty() + rest.yielded =~= first
                            + rest.yielded);
                    },
                    _ => {},
                }
            }
        },
    }
}

/// The scan of a partition with a boot sector by which its volume is recognized finds what the
/// scan of that volume, where the partition begins, finds.
pub proof fn law_partition_scan_is_the_scan_of_its_volume(
    label: Seq<char>,
    offset: u64,
    volume: Volume,
    device: Device,
    fuel: nat,
)
    requires
        device(Request { offset, len: 512 }) is Some,
        signed_boot_volume(device(Request { offset, len: 512 })->0) == Some(volume),
    ensures
        outcome_files(visit(DiskTaskModel::Boot { label, offset }, device, fuel + 1))
            == yielded_files(visit(VolumeTaskModel::open(volume.at(offset)), device, fuel)),
{
    let task = DiskTaskModel::Boot { label, offset };
    let reply = device(Request { offset, len: 512 });
    assert(task.next(reply) == DiskTaskModel::scan_of(volume, offset));
    lemma_line_then(task, reply, device, fuel);
    law_volume_within_a_disk(
        VolumeKind::of(volume),
        VolumeTaskModel::open(volume.at(offset)),
        device,
        fuel,
    );
}

/// The scan of a partition whose boot sector tells no volume, whether it is signed or not, and whose
/// first bytes hold a superblock, finds what the scan of that ext volume finds.
pub proof fn law_ext_partition_scan_is_the_scan_of_its_volume(
    label: Seq<char>,
    offset: u64,
    volume: Volume,
    device: Device,
    fuel: nat,
)
    requires
        device(Request { offset, len: 512 }) is Some,
        signed_boot_volume(device(Request { offset, len: 512 })->0) is None,
        device(Request { offset, len: 2048 }) is Some,
        super_volume(device(Request { offset, len: 2048 })->0) == Some(volume),
    ensures
        outcome_files(visit(DiskTaskModel::Boot { label, offset }, device, fuel + 2))
            == yielded_files(visit(VolumeTaskModel::open(volume.at(offset)), device, fuel)),
{
    let first = DiskTaskModel::Boot { label, offset };
    let boot = device(Request { offset, len: 512 });
    let second = DiskTaskModel::Super { otherwise: unrecognized_line(label, boot->0), offset };
    let data = device(Request { offset, len: 2048 });
    assert(first.next(boot) == second);
    assert(second.next(data) == DiskTaskModel::scan_of(volume, offset));
    lemma_line_then(first, boot, device, fuel + 1);
    lemma_line_then(second, data, device, fuel);
    law_volume_within_a_disk(
        VolumeKind::of(volume),
        VolumeTaskModel::open(volume.at(offset)),
        device,
        fuel,
    );
}

/// The files that the scan of a partition finds.
pub open spec fn partition_files(
    part: PartitionModel,
    gpt: bool,
    device: Device,
    fuel: nat,
) -> Option<Seq<FileModel>> {
    match partition_piece(part, gpt) {
        Piece::Enter(task) => outcome_files(visit(task, device, fuel)),
        Piece::Emit(_) => Some(seq![]),
    }
}

/// The files that the scans of partitions find, one partition after another.
pub open spec fn partitions_files(
    parts: Seq<PartitionModel>,
    gpt: bool,
    device: Device,
    fuel: nat,
) -> Option<Seq<FileModel>>
    decreases parts.len(),
{
    if parts.len() == 0 {
        Some(seq![])
    } else {
        match (
            partition_files(parts[0], gpt, device, fuel),
            partitions_files(parts.drop_first(), gpt, device, fuel),
        ) {
            (Some(first), Some(rest)) => Some(first + rest),
            _ => None,
        }
    }
}

/// The files among what pieces yield.
spec fn pieces_files(
    pieces: Seq<Piece<DiskTaskModel, EventModel>>,
    device: Device,
    fuel: nat,
) -> Option<Seq<FileModel>> {
    match visit_pieces(pieces, device, fuel) {
        Some(events) => Some(files_in(events)),
        None => None,
    }
}

proof fn lemma_scan_files(parts: Seq<PartitionModel>, gpt: bool, device: Device, fuel: nat)
    ensures
        pieces_files(scan_pieces(parts, gpt), device, fuel) == partitions_files(
            parts,
            gpt,
            device,
            fuel,
        ),
    decreases parts.len(),
{
    let pieces = scan_pieces(parts, gpt);
    if parts.len() == 0 {
        assert(files_in(Seq::<EventModel>::empty()) =~= seq![]);
    } else {
        let left = parts.drop_first();
        assert(pieces.drop_first() =~= scan_pieces(left, gpt));
        lemma_scan_files(left, gpt, device, fuel);
        let rest = visit_pieces(pieces.drop_first(), device, fuel);
        match partition_piece(parts[0], gpt) {
            Piece::Enter(task) => {
                match (visit(task, device, fuel), rest) {
                    (Some(first), Some(events)) => {
                        lemma_files_concat(first.yielded, events);
                    },
                    _ => {},
                }
            },
            Piece::Emit(event) => {
                lemma_no_file(event);
                match rest {
                    Some(events) => {
                        lemma_files_concat(seq![event], events);
                    },
                    None => {},
                }
            },
        }
    }
}

proof fn lemma_lines_have_no_files(
    pieces: Seq<Piece<DiskTaskModel, EventModel>>,
    device: Device,
    fuel: nat,
)
    requires
        forall|i: int|
            0 <= i < pieces.len() ==> (#[trigger] pieces[i] matches Piece::Emit(e) && !(e is File)),
    ensures
        pieces_files(pieces, device, fuel) == Some(Seq::<FileModel>::empty()),
    decreases pieces.len(),
{
    if pieces.len() == 0 {
        assert(files_in(Seq::<EventModel>::empty()) =~= seq![]);
    } else {
        assert(pieces[0] is Emit);
        lemma_lines_have_no_files(pieces.drop_first(), device, fuel);
        lemma_no_file(pieces[0]->Emit_0);
        let rest = visit_pieces(pieces.drop_first(), device, fuel)->0;
        lemma_files_concat(seq![pieces[0]->Emit_0], rest);
        assert(Seq::<FileModel>::empty() + Seq::<FileModel>::empty() =~= seq![]);
    }
}

proof fn lemma_lines_before(
    lines: Seq<Piece<DiskTaskModel, EventModel>>,
    pieces: Seq<Piece<DiskTaskModel, EventModel>>,
    device: Device,
    fuel: nat,
)
    requires
        forall|i: int|
            0 <= i < lines.len() ==> (#[trigger] lines[i] matches Piece::Emit(e) && !(e is File)),
    ensures
        pieces_files(lines + pieces, device, fuel) == pieces_files(pieces, device, fuel),
{
    lemma_lines_have_no_files(lines, device, fuel);
    lemma_pieces_concat(lines, pieces, device, fuel);
    match visit_pieces(pieces, device, fuel) {
        Some(events) => {
            lemma_files_concat(visit_pieces(lines, device, fuel)->0, events);
            assert(Seq::<FileModel>::empty() + files_in(events) =~= files_in(events));
        },
        None => {},
    }
}

proof fn lemma_plan_files(parts: Seq<PartitionModel>, gpt: bool, device: Device, fuel: nat)
    ensures
        pieces_files(plan(parts, gpt), device, fuel) == partitions_files(parts, gpt, device, fuel),
{
    if parts.len() == 0 {
        lemma_lines_have_no_files(plan(parts, gpt), device, fuel);
    } else {
        let n = plan(parts, gpt).len() - parts.len();
        let lines = plan(parts, gpt).take(n);
        assert(plan(parts, gpt) =~= lines + scan_pieces(parts, gpt));
        lemma_lines_before(lines, scan_pieces(parts, gpt), device, fuel);
        lemma_scan_files(parts, gpt, device, fuel);
    }
}

/// The scan of a disk whose master boot record does not stand for a GPT finds what the scans of
/// the partitions in that record find, in the order of the record; extended partitions are passed
/// over.
pub proof fn law_mbr_disk_scan(mbr: Seq<u8>, device: Device, fuel: nat)
    requires
        device(Request { offset: 0, len: 512 }) == Some(mbr),
        !protective(mbr_partitions(mbr)),
    ensures
        outcome_files(visit(DiskTaskModel::Mbr, device, fuel + 1)) == partitions_files(
            mbr_partitions(mbr),
            false,
            device,
            fuel,
        ),
{
    let task = DiskTaskModel::Mbr;
    lemma_plan_files(mbr_partitions(mbr), false, device, fuel);
    assert(visit(task.next(Some(mbr)), device, fuel) == Some(
        (Outcome { yielded: Seq::<EventModel>::empty(), status: Ok(()) }),
    ));
    match visit_pieces(task.pieces(Some(mbr)), device, fuel) {
        Some(events) => {
            assert(events + Seq::<EventModel>::empty() =~= events);
        },
        None => {},
    }
}

/// The scan of a disk with a GPT finds what the scans of the partitions in the GPT find, in the
/// order of its entries.
pub proof fn law_gpt_disk_scan(
    mbr: Seq<u8>,
    sector: Seq<u8>,
    entries: Seq<u8>,
    device: Device,
    fuel: nat,
)
    requires
        device(Request { offset: 0, len: 512 }) == Some(mbr),
        protective(mbr_partitions(mbr)),
        device(Request { offset: 512, len: 512 }) == Some(sector),
        gpt_header(sector) is Some,
        gpt_header(sector)->0.entries_request() is Some,
        device(gpt_header(sector)->0.entries_request()->0) == Some(entries),
        gpt_parts(gpt_header(sector)->0, entries).len() > 0,
    ensures
        outcome_files(visit(DiskTaskModel::Mbr, device, fuel + 3)) == partitions_files(
            gpt_parts(gpt_header(sector)->0, entries),
            true,
            device,
            fuel,
        ),
{
    let header = gpt_header(sector)->0;
    let parts = gpt_parts(header, entries);
    let first = DiskTaskModel::Mbr;
    let second = first.next(Some(mbr));
    let third = second.next(Some(sector));
    let last = third.next(Some(entries));
    assert(second == DiskTaskModel::Header { mbr: mbr_partitions(mbr) });
    assert(third == DiskTaskModel::Entries { mbr: mbr_partitions(mbr), header });
    assert(last == DiskTaskModel::Done);
    lemma_plan_files(parts, true, device, fuel);
    assert(visit(last, device, fuel) == Some(
        (Outcome { yielded: Seq::<EventModel>::empty(), status: Ok(()) }),
    ));
    let found = visit_pieces(third.pieces(Some(entries)), device, fuel);
    match found {
        Some(events) => {
            assert(events + Seq::<EventModel>::empty() =~= events);
        },
        None => {},
    }
    assert(outcome_files(visit(third, device, fuel + 1)) == partitions_files(
        parts,
        true,
        device,
        fuel,
    ));
    lemma_line_then(second, Some(sector), device, fuel + 1);
    assert(outcome_files(visit(second, device, fuel + 2)) == outcome_files(
        visit(third, device, fuel + 1),
    ));
    lemma_line_then(first, Some(mbr), device, fuel + 2);
}

/// Whether a GPT with partitions can be read from a disk.
pub open spec fn gpt_usable(device: Device) -> bool {
    device(Request { offset: 512, len: 512 }) matches Some(sector) && gpt_header(
        sector,
    ) matches Some(header) && header.entries_request() matches Some(request) && device(
        request,
    ) matches Some(entries) && gpt_parts(header, entries).len() > 0
}

/// The scan of a disk that should have a GPT, but from which none with partitions can be read,
/// finds what the scans of the partitions in the master boot record find; the one that stands for
/// the GPT and extended ones are passed over.
pub proof fn law_unusable_gpt_disk_scan(mbr: Seq<u8>, device: Device, fuel: nat)
    requires
        device(Request { offset: 0, len: 512 }) == Some(mbr),
        protective(mbr_partitions(mbr)),
        !gpt_usable(device),
        partitions_files(mbr_partitions(mbr), false, device, fuel) is Some,
    ensures
        outcome_files(visit(DiskTaskModel::Mbr, device, fuel + 3)) == partitions_files(
            mbr_partitions(mbr),
            false,
            device,
            fuel,
        ),
{
    let parts = mbr_partitions(mbr);
    let first = DiskTaskModel::Mbr;
    let second = first.next(Some(mbr));
    assert(second == DiskTaskModel::Header { mbr: parts });
    lemma_line_then(first, Some(mbr), device, fuel + 2);
    let answered = device(Request { offset: 512, len: 512 });
    let third = second.next(answered);
    if third is Done {
        let lines = second.pieces(answered).take(2);
        assert(second.pieces(answered) =~= lines + plan(parts, false));
        lemma_plan_and_end(second, answered, lines, parts, device, fuel + 1);
        lemma_partitions_fuel(parts, false, device, fuel);
    } else {
        let header = gpt_header(answered->0)->0;
        let entries = device(header.entries_request()->0);
        assert(third == DiskTaskModel::Entries { mbr: parts, header });
        lemma_line_then(second, answered, device, fuel + 1);
        let handed = third.pieces(entries);
        let lines = handed.take(handed.len() - plan(parts, false).len());
        assert(third.pieces(entries) =~= lines + plan(parts, false));
        lemma_plan_and_end(third, entries, lines, parts, device, fuel);
    }
}

/// A task that hands out lines and then a plan, and ends, has the files of the plan.
proof fn lemma_plan_and_end(
    task: DiskTaskModel,
    reply: Option<Seq<u8>>,
    lines: Seq<Piece<DiskTaskModel, EventModel>>,
    parts: Seq<PartitionModel>,
    device: Device,
    fuel: nat,
)
    requires
        task.wants() is Some,
        device(task.wants()->0) == reply,
        task.next(reply) is Done,
        task.pieces(reply) == lines + plan(parts, false),
        forall|i: int|
            0 <= i < lines.len() ==> (#[trigger] lines[i] matches Piece::Emit(e) && !(e is File)),
    ensures
        outcome_files(visit(task, device, fuel + 1)) == partitions_files(
            parts,
            false,
            device,
            fuel,
        ),
{
    lemma_plan_files(parts, false, device, fuel);
    lemma_lines_before(lines, plan(parts, false), device, fuel);
    assert(visit(task.next(reply), device, fuel) == Some(
        (Outcome { yielded: Seq::<EventModel>::empty(), status: Ok(()) }),
    ));
    match visit_pieces(task.pieces(reply), device, fuel) {
        Some(events) => {
            assert(events + Seq::<EventModel>::empty() =~= events);
        },
        None => {},
    }
}

proof fn lemma_partitions_fuel(parts: Seq<PartitionModel>, gpt: bool, device: Device, fuel: nat)
    requires
        partitions_files(parts, gpt, device, fuel) is Some,
    ensures
        partitions_files(parts, gpt, device, fuel + 1) == partitions_files(
            parts,
            gpt,
            device,
            fuel,
        ),
{
    lemma_scan_files(parts, gpt, device, fuel);
    lemma_scan_files(parts, gpt, device, fuel + 1);
    lemma_pieces_fuel_is_monotone(scan_pieces(parts, gpt), device, fuel, fuel + 1);
}

/// A task that hands out lines only has the files of what it goes on to.
proof fn lemma_line_then(task: DiskTaskModel, reply: Option<Seq<u8>>, device: Device, fuel: nat)
    requires
        task.wants() is Some,
        device(task.wants()->0) == reply,
        forall|i: int|
            0 <= i < task.pieces(reply).len() ==> (
            #[trigger] task.pieces(reply)[i] matches Piece::Emit(e) && !(e is File)),
    ensures
        outcome_files(visit(task, device, fuel + 1)) == outcome_files(
            visit(task.next(reply), device, fuel),
        ),
{
    let pieces = task.pieces(reply);
    lemma_lines_have_no_files(pieces, device, fuel);
    let first = visit_pieces(pieces, device, fuel)->0;
    match visit(task.next(reply), device, fuel) {
        Some(rest) => {
            lemma_files_concat(first, rest.yielded);
            assert(Seq::<FileModel>::empty() + files_in(rest.yielded) =~= files_in(rest.yielded));
        },
        None => {},
    }
}

} // verus!
