//! What the directories of a volume hand out: the files of their deleted entries, all of them and
//! nothing else, under the names that they had, and the scans of their subdirectories.

use vstd::prelude::*;
use vstd::set_lib::*;
use crate::bytes::{le_u16, le_u32};
use crate::exfat_scan::{
    active_primary, active_secondaries, active_set, deleted_exfat_file, deleted_secondaries,
    deleted_set, entry_count, name_entry, name_entry_units, ExfatDirModel, EXFAT_DELETED,
};
use crate::ext_scan::{
    cleaned, deleted_ext_file, dots, entry_len, entry_name, entry_there, ExtDirModel,
    DIRECTORY_TYPE,
};
use crate::fat::{ExfatInfo, Fat32Info};
use crate::fat_entry::{
    active_short, deleted_short, entry_cluster, law_long_file_name_recovers, lemma_name_units,
    stored_parts,
};
use crate::fat_scan::{
    active_name, deleted_file, deleted_name, entries_from, entry_of, sub_path, ChainPhase,
    Fat32DirModel, PartsModel,
};
use crate::ntfs::{file_name, holds_value, units_at};
use crate::reach_laws::{hands_out, leads_to};
use crate::text::{law_utf16_recovers, utf16_encode};
use crate::types::{directory_bit, FileModel};
use crate::walk::{Device, Piece, TaskModel};

verus! {

// ---------------------------------------------------------------------------------------------
// FAT32
// ---------------------------------------------------------------------------------------------

/// Whether a FAT32 directory is about to read a cluster and the device holds `data` in it.
pub open spec fn fat32_reads(dir: Fat32DirModel, device: Device, data: Seq<u8>) -> bool {
    dir.phase is Contents && device(dir.wants()->0) == Some(data)
}

proof fn lemma_fat32_listing(dir: Fat32DirModel, data: Seq<u8>, n: nat, i: int)
    requires
        0 <= i < n,
    ensures
        forall|piece: Piece<Fat32DirModel, FileModel>| #[trigger]
            dir.entry_pieces(dir.parts.after_entries(data, i as nat), entry_of(data, i)).contains(
                piece,
            ) ==> dir.listing(data, n).contains(piece),
    decreases n,
{
    let before = dir.listing(data, (n - 1) as nat);
    let last = dir.entry_pieces(
        dir.parts.after_entries(data, (n - 1) as nat),
        entry_of(data, n - 1),
    );
    let all = dir.listing(data, n);
    assert(all == before + last);
    if i < n - 1 {
        lemma_fat32_listing(dir, data, (n - 1) as nat, i);
    }
    assert forall|piece: Piece<Fat32DirModel, FileModel>| #[trigger]
        dir.entry_pieces(dir.parts.after_entries(data, i as nat), entry_of(data, i)).contains(
            piece,
        ) implies all.contains(piece) by {
        if i < n - 1 {
            let k = choose|k: int| 0 <= k < before.len() && before[k] == piece;
            assert(all[k] == piece);
        } else {
            let k = choose|k: int| 0 <= k < last.len() && last[k] == piece;
            assert(all[before.len() + k] == piece);
        }
    }
}

proof fn lemma_fat32_listed(
    dir: Fat32DirModel,
    data: Seq<u8>,
    n: nat,
    piece: Piece<Fat32DirModel, FileModel>,
) -> (i: int)
    requires
        dir.listing(data, n).contains(piece),
    ensures
        0 <= i < n,
        dir.entry_pieces(dir.parts.after_entries(data, i as nat), entry_of(data, i)).contains(
            piece,
        ),
    decreases n,
{
    let all = dir.listing(data, n);
    let before = dir.listing(data, (n - 1) as nat);
    let last = dir.entry_pieces(
        dir.parts.after_entries(data, (n - 1) as nat),
        entry_of(data, n - 1),
    );
    let k = choose|k: int| 0 <= k < all.len() && all[k] == piece;
    if k < before.len() {
        assert(before[k] == piece);
        lemma_fat32_listed(dir, data, (n - 1) as nat, piece)
    } else {
        assert(last[k - before.len()] == piece);
        n - 1
    }
}

/// A FAT32 directory hands out the file of every deleted entry, under the long name in the entries
/// before it where there is one.
pub proof fn law_fat32_deleted_entry_is_handed_out(
    dir: Fat32DirModel,
    device: Device,
    data: Seq<u8>,
    i: int,
)
    requires
        fat32_reads(dir, device, data),
        0 <= i < entries_from(data, 0),
        deleted_short(entry_of(data, i)),
    ensures
        hands_out(
            dir,
            device,
            deleted_file(
                dir.info,
                dir.path,
                dir.parts.after_entries(data, i as nat),
                entry_of(data, i),
            ),
        ),
{
    let parts = dir.parts.after_entries(data, i as nat);
    let file = deleted_file(dir.info, dir.path, parts, entry_of(data, i));
    lemma_fat32_listing(dir, data, entries_from(data, 0), i);
    let pieces = dir.entry_pieces(parts, entry_of(data, i));
    assert(pieces[0] == Piece::<Fat32DirModel, FileModel>::Emit(file));
    assert(pieces.contains(Piece::Emit(file)));
}

/// A FAT32 directory hands out nothing but the files of deleted entries.
pub proof fn law_fat32_hands_out_deleted_entries_only(
    dir: Fat32DirModel,
    device: Device,
    file: FileModel,
)
    requires
        hands_out(dir, device, file),
    ensures
        exists|data: Seq<u8>, i: int|
            {
                &&& #[trigger] fat32_reads(dir, device, data)
                &&& 0 <= i < entries_from(data, 0)
                &&& deleted_short(#[trigger] entry_of(data, i))
                &&& file == deleted_file(
                    dir.info,
                    dir.path,
                    dir.parts.after_entries(data, i as nat),
                    entry_of(data, i),
                )
            },
{
    let data = device(dir.wants()->0)->0;
    let i = lemma_fat32_listed(dir, data, entries_from(data, 0), Piece::Emit(file));
    assert(fat32_reads(dir, device, data));
    assert(deleted_short(entry_of(data, i)));
}

/// A FAT32 directory leads to the scan of every subdirectory, under the path of its name.
pub proof fn law_fat32_subdirectory_is_entered(
    dir: Fat32DirModel,
    device: Device,
    data: Seq<u8>,
    i: int,
)
    requires
        fat32_reads(dir, device, data),
        0 <= i < entries_from(data, 0),
        active_short(entry_of(data, i)),
        directory_bit(entry_of(data, i)[11]),
        entry_cluster(entry_of(data, i)) != 0,
        entry_cluster(entry_of(data, i)) != dir.start,
    ensures
        leads_to(
            dir,
            device,
            Fat32DirModel::open(
                dir.info,
                entry_cluster(entry_of(data, i)),
                sub_path(
                    dir.path,
                    active_name(dir.parts.after_entries(data, i as nat), entry_of(data, i)),
                ),
            ),
        ),
{
    let parts = dir.parts.after_entries(data, i as nat);
    let entry = entry_of(data, i);
    let child = Fat32DirModel::open(
        dir.info,
        entry_cluster(entry),
        sub_path(dir.path, active_name(parts, entry)),
    );
    lemma_fat32_listing(dir, data, entries_from(data, 0), i);
    let pieces = dir.entry_pieces(parts, entry);
    assert(pieces[0] == Piece::<Fat32DirModel, FileModel>::Enter(child));
    assert(pieces.contains(Piece::Enter(child)));
}

// ---------------------------------------------------------------------------------------------
// exFAT
// ---------------------------------------------------------------------------------------------

/// Whether an exFAT directory is about to read a cluster and the device holds `data` in it.
pub open spec fn exfat_reads(dir: ExfatDirModel, device: Device, data: Seq<u8>) -> bool {
    dir.phase is Contents && device(dir.wants()->0) == Some(data)
}

/// Whether entry `k` of a cluster is come to as a primary entry, when entry `i` is: the secondary
/// entries of a set are passed over, and an empty entry ends the directory.
pub open spec fn primary_from(data: Seq<u8>, i: int, k: int) -> bool
    decreases
        (if i < entry_count(data) {
            entry_count(data) - i
        } else {
            0
        }),
{
    let entry = entry_of(data, i);
    if i >= entry_count(data) || entry[0] == 0 {
        false
    } else if i == k {
        true
    } else if entry[0] == EXFAT_DELETED {
        primary_from(data, i + 1 + deleted_secondaries(data, i), k)
    } else if active_primary(entry[0]) {
        primary_from(data, i + 1 + entry[1], k)
    } else {
        primary_from(data, i + 1, k)
    }
}

/// The file that the deleted set at entry `k` describes.
pub open spec fn exfat_file_at(dir: ExfatDirModel, data: Seq<u8>, k: int) -> FileModel {
    deleted_exfat_file(
        dir.info,
        dir.path,
        entry_of(data, k)[3],
        deleted_set(data, k + 1, deleted_secondaries(data, k)),
    )
}

proof fn lemma_exfat_listing(
    dir: ExfatDirModel,
    data: Seq<u8>,
    i: int,
    k: int,
    piece: Piece<ExfatDirModel, FileModel>,
)
    requires
        primary_from(data, i, k),
        dir.listing(data, k).len() > 0,
        dir.listing(data, k)[0] == piece,
    ensures
        dir.listing(data, i).contains(piece),
    decreases
            (if i < entry_count(data) {
                entry_count(data) - i
            } else {
                0
            }),
{
    let entry = entry_of(data, i);
    let all = dir.listing(data, i);
    if i == k {
        assert(all[0] == piece);
    } else if entry[0] == EXFAT_DELETED {
        let j = i + 1 + deleted_secondaries(data, i);
        lemma_exfat_listing(dir, data, j, k, piece);
        let rest = dir.listing(data, j);
        assert(all.skip(all.len() - rest.len()) =~= rest);
        lemma_contains_behind(all, rest, piece);
    } else if active_primary(entry[0]) {
        let j = i + 1 + entry[1];
        lemma_exfat_listing(dir, data, j, k, piece);
        let rest = dir.listing(data, j);
        assert(all.skip(all.len() - rest.len()) =~= rest);
        lemma_contains_behind(all, rest, piece);
    } else {
        lemma_exfat_listing(dir, data, i + 1, k, piece);
    }
}

proof fn lemma_contains_behind<A>(all: Seq<A>, rest: Seq<A>, item: A)
    requires
        rest.len() <= all.len(),
        all.skip(all.len() - rest.len()) == rest,
        rest.contains(item),
    ensures
        all.contains(item),
{
    let k = choose|k: int| 0 <= k < rest.len() && rest[k] == item;
    assert(all[all.len() - rest.len() + k] == item);
}

/// An exFAT directory hands out the file of every deleted set.
pub proof fn law_exfat_deleted_set_is_handed_out(
    dir: ExfatDirModel,
    device: Device,
    data: Seq<u8>,
    k: int,
)
    requires
        exfat_reads(dir, device, data),
        primary_from(data, 0, k),
        entry_of(data, k)[0] == EXFAT_DELETED,
    ensures
        hands_out(dir, device, exfat_file_at(dir, data, k)),
{
    let file = exfat_file_at(dir, data, k);
    lemma_primary_counted(data, 0, k);
    lemma_exfat_listing(dir, data, 0, k, Piece::Emit(file));
}

proof fn lemma_primary_counted(data: Seq<u8>, i: int, k: int)
    requires
        primary_from(data, i, k),
    ensures
        k < entry_count(data),
        entry_of(data, k)[0] != 0,
    decreases
            (if i < entry_count(data) {
                entry_count(data) - i
            } else {
                0
            }),
{
    let entry = entry_of(data, i);
    if i != k {
        if entry[0] == EXFAT_DELETED {
            lemma_primary_counted(data, i + 1 + deleted_secondaries(data, i), k);
        } else if active_primary(entry[0]) {
            lemma_primary_counted(data, i + 1 + entry[1], k);
        } else {
            lemma_primary_counted(data, i + 1, k);
        }
    }
}

/// An exFAT directory leads to the scan of every subdirectory that has a name and a cluster, under
/// the path of its name.
pub proof fn law_exfat_subdirectory_is_entered(
    dir: ExfatDirModel,
    device: Device,
    data: Seq<u8>,
    k: int,
)
    requires
        exfat_reads(dir, device, data),
        primary_from(data, 0, k),
        active_primary(entry_of(data, k)[0]),
        entry_of(data, k)[0] != EXFAT_DELETED,
        directory_bit(entry_of(data, k)[3]),
        active_set(data, k + 1, active_secondaries(data, k)).name.len() > 0,
        active_set(data, k + 1, active_secondaries(data, k)).cluster >= 2,
    ensures
        ({
            let set = active_set(data, k + 1, active_secondaries(data, k));
            leads_to(
                dir,
                device,
                ExfatDirModel::open(dir.info, set.cluster, sub_path(dir.path, set.name)),
            )
        }),
{
    let set = active_set(data, k + 1, active_secondaries(data, k));
    let child = ExfatDirModel::open(dir.info, set.cluster, sub_path(dir.path, set.name));
    lemma_primary_counted(data, 0, k);
    assert(dir.active_pieces(entry_of(data, k)[3], set)[0] == Piece::<
        ExfatDirModel,
        FileModel,
    >::Enter(child));
    lemma_exfat_listing(dir, data, 0, k, Piece::Enter(child));
}

proof fn lemma_exfat_listed(dir: ExfatDirModel, data: Seq<u8>, i: int, file: FileModel) -> (k: int)
    requires
        dir.listing(data, i).contains(Piece::Emit(file)),
    ensures
        primary_from(data, i, k),
        entry_of(data, k)[0] == EXFAT_DELETED,
        file == exfat_file_at(dir, data, k),
    decreases
            (if i < entry_count(data) {
                entry_count(data) - i
            } else {
                0
            }),
{
    let entry = entry_of(data, i);
    let all = dir.listing(data, i);
    let piece = Piece::<ExfatDirModel, FileModel>::Emit(file);
    let p = choose|p: int| 0 <= p < all.len() && all[p] == piece;
    if entry[0] == EXFAT_DELETED {
        if p == 0 {
            i
        } else {
            let j = i + 1 + deleted_secondaries(data, i);
            assert(dir.listing(data, j)[p - 1] == piece);
            let k = lemma_exfat_listed(dir, data, j, file);
            lemma_primary_not_before(data, j, k);
            k
        }
    } else if active_primary(entry[0]) {
        let set = active_set(data, i + 1, active_secondaries(data, i));
        let own = dir.active_pieces(entry[3], set);
        let j = i + 1 + entry[1];
        assert(dir.listing(data, j)[p - own.len()] == piece);
        let k = lemma_exfat_listed(dir, data, j, file);
        lemma_primary_not_before(data, j, k);
        k
    } else {
        let k = lemma_exfat_listed(dir, data, i + 1, file);
        lemma_primary_not_before(data, i + 1, k);
        k
    }
}

proof fn lemma_primary_not_before(data: Seq<u8>, i: int, k: int)
    requires
        primary_from(data, i, k),
    ensures
        i <= k,
    decreases
            (if i < entry_count(data) {
                entry_count(data) - i
            } else {
                0
            }),
{
    let entry = entry_of(data, i);
    if i != k {
        if entry[0] == EXFAT_DELETED {
            lemma_primary_not_before(data, i + 1 + deleted_secondaries(data, i), k);
        } else if active_primary(entry[0]) {
            lemma_primary_not_before(data, i + 1 + entry[1], k);
        } else {
            lemma_primary_not_before(data, i + 1, k);
        }
    }
}

/// An exFAT directory hands out nothing but the files of deleted sets.
pub proof fn law_exfat_hands_out_deleted_sets_only(
    dir: ExfatDirModel,
    device: Device,
    file: FileModel,
)
    requires
        hands_out(dir, device, file),
    ensures
        exists|data: Seq<u8>, k: int|
            {
                &&& #[trigger] exfat_reads(dir, device, data)
                &&& #[trigger] primary_from(data, 0, k)
                &&& entry_of(data, k)[0] == EXFAT_DELETED
                &&& file == exfat_file_at(dir, data, k)
            },
{
    let data = device(dir.wants()->0)->0;
    let k = lemma_exfat_listed(dir, data, 0, file);
    assert(exfat_reads(dir, device, data));
}

// ---------------------------------------------------------------------------------------------
// ext
// ---------------------------------------------------------------------------------------------

/// Whether an ext directory is about to read a block and the device holds `data` in it.
pub open spec fn ext_reads(dir: ExtDirModel, device: Device, data: Seq<u8>) -> bool {
    dir.step is Block && device(dir.wants()->0) == Some(data)
}

/// Whether an entry begins at `k`, when one begins at `pos`: each entry is followed by the next.
pub open spec fn entry_from(data: Seq<u8>, pos: int, k: int) -> bool
    decreases data.len() - pos,
{
    entry_there(data, pos) && (pos == k || entry_from(data, pos + entry_len(data, pos), k))
}

proof fn lemma_ext_listing(
    dir: ExtDirModel,
    data: Seq<u8>,
    pos: int,
    k: int,
    piece: Piece<ExtDirModel, FileModel>,
)
    requires
        entry_from(data, pos, k),
        dir.entry_pieces(data, k).contains(piece),
    ensures
        dir.listing(data, pos).contains(piece),
    decreases data.len() - pos,
{
    let own = dir.entry_pieces(data, pos);
    let rest = dir.listing(data, pos + entry_len(data, pos));
    let all = dir.listing(data, pos);
    assert(all == own + rest);
    if pos == k {
        let j = choose|j: int| 0 <= j < own.len() && own[j] == piece;
        assert(all[j] == piece);
    } else {
        lemma_ext_listing(dir, data, pos + entry_len(data, pos), k, piece);
        let j = choose|j: int| 0 <= j < rest.len() && rest[j] == piece;
        assert(all[own.len() + j] == piece);
    }
}

proof fn lemma_ext_listed(
    dir: ExtDirModel,
    data: Seq<u8>,
    pos: int,
    piece: Piece<ExtDirModel, FileModel>,
) -> (k: int)
    requires
        dir.listing(data, pos).contains(piece),
    ensures
        entry_from(data, pos, k),
        dir.entry_pieces(data, k).contains(piece),
    decreases data.len() - pos,
{
    let own = dir.entry_pieces(data, pos);
    let all = dir.listing(data, pos);
    let j = choose|j: int| 0 <= j < all.len() && all[j] == piece;
    assert(entry_there(data, pos));
    if j < own.len() {
        assert(own[j] == piece);
        pos
    } else {
        let rest = dir.listing(data, pos + entry_len(data, pos));
        assert(rest[j - own.len()] == piece);
        lemma_ext_listed(dir, data, pos + entry_len(data, pos), piece)
    }
}

/// Whether the entry at `k` is that of a deleted file of which the name `name` is left.
pub open spec fn ext_deleted_entry(data: Seq<u8>, k: int, name: Seq<char>) -> bool {
    &&& le_u32(data, k) == 0
    &&& entry_name(data, k) is Some
    &&& name == cleaned(entry_name(data, k)->0)
    &&& name.len() > 0
    &&& !dots(name)
}

/// An ext directory hands out the file of every deleted entry of which a name is left.
pub proof fn law_ext_deleted_entry_is_handed_out(
    dir: ExtDirModel,
    device: Device,
    data: Seq<u8>,
    k: int,
    name: Seq<char>,
)
    requires
        ext_reads(dir, device, data),
        entry_from(data, 0, k),
        ext_deleted_entry(data, k, name),
    ensures
        hands_out(dir, device, deleted_ext_file(dir.path, name)),
{
    let piece = Piece::<ExtDirModel, FileModel>::Emit(deleted_ext_file(dir.path, name));
    assert(dir.entry_pieces(data, k)[0] == piece);
    lemma_ext_listing(dir, data, 0, k, piece);
}

/// An ext directory hands out nothing but the files of deleted entries.
pub proof fn law_ext_hands_out_deleted_entries_only(
    dir: ExtDirModel,
    device: Device,
    file: FileModel,
)
    requires
        hands_out(dir, device, file),
    ensures
        exists|data: Seq<u8>, k: int, name: Seq<char>|
            {
                &&& #[trigger] ext_reads(dir, device, data)
                &&& entry_from(data, 0, k)
                &&& #[trigger] ext_deleted_entry(data, k, name)
                &&& file == deleted_ext_file(dir.path, name)
            },
{
    let data = device(dir.wants()->0)->0;
    let k = lemma_ext_listed(dir, data, 0, Piece::Emit(file));
    assert(ext_reads(dir, device, data));
    assert(ext_deleted_entry(data, k, cleaned(entry_name(data, k)->0)));
}

/// An ext directory leads to the scan of every subdirectory, under the path of its name.
pub proof fn law_ext_subdirectory_is_entered(
    dir: ExtDirModel,
    device: Device,
    data: Seq<u8>,
    k: int,
)
    requires
        ext_reads(dir, device, data),
        entry_from(data, 0, k),
        le_u32(data, k) != 0,
        entry_name(data, k) is Some,
        !dots(entry_name(data, k)->0),
        data[k + 7] == DIRECTORY_TYPE,
    ensures
        leads_to(
            dir,
            device,
            ExtDirModel::open(
                dir.info,
                le_u32(data, k) as u32,
                sub_path(dir.path, entry_name(data, k)->0),
                false,
            ),
        ),
{
    let child = ExtDirModel::open(
        dir.info,
        le_u32(data, k) as u32,
        sub_path(dir.path, entry_name(data, k)->0),
        false,
    );
    let piece = Piece::<ExtDirModel, FileModel>::Enter(child);
    assert(dir.entry_pieces(data, k)[0] == piece);
    lemma_ext_listing(dir, data, 0, k, piece);
}

// ---------------------------------------------------------------------------------------------
// Names
// ---------------------------------------------------------------------------------------------

/// Whether a unit can be part of a name: it neither ends nor pads one.
pub open spec fn name_unit(unit: u16) -> bool {
    unit != 0x0000 && unit != 0xFFFF
}

/// A deleted FAT32 file has the name that it had: where its long-name entries are still there, the
/// long name is read back from them.
pub proof fn law_fat32_name_recovers(parts: PartsModel, entry: Seq<u8>, text: Seq<char>)
    requires
        text.len() > 0,
        forall|i: int|
            0 <= i < utf16_encode(text).len() ==> name_unit(#[trigger] utf16_encode(text)[i]),
        parts.deleted == stored_parts(utf16_encode(text)),
    ensures
        deleted_name(parts, entry) == text,
{
    let units = utf16_encode(text);
    assert forall|i: int| 0 <= i < units.len() implies units[i] != 0x0000 && units[i] != 0xFFFF by {
        assert(name_unit(units[i]));
    }
    law_long_file_name_recovers(text);
}

/// Whether a file name entry of an exFAT set holds this part of a name, with a unit behind it that
/// ends or pads the name where it is shorter than there is room for.
pub open spec fn holds_part(entry: Seq<u8>, part: Seq<char>) -> bool {
    let units = utf16_encode(part);
    &&& name_entry(entry)
    &&& units.len() <= 14
    &&& forall|i: int|
        0 <= i < units.len() ==> name_entry_units(entry)[i] == #[trigger] units[i] && name_unit(
            units[i],
        )
    &&& units.len() < 14 ==> !name_unit(name_entry_units(entry)[units.len() as int])
}

/// A deleted exFAT file has the name that it had: the parts of the name in the file name entries of
/// its set are read back one after another.
pub proof fn law_exfat_name_recovers(data: Seq<u8>, from: int, parts: Seq<Seq<char>>)
    requires
        forall|k: int|
            0 <= k < parts.len() ==> holds_part(#[trigger] entry_of(data, from + k), parts[k]),
    ensures
        deleted_set(data, from, parts.len()).name == parts.flatten(),
    decreases parts.len(),
{
    if parts.len() == 0 {
        assert(parts.flatten() =~= seq![]);
    } else {
        let n = parts.len();
        let before = parts.drop_last();
        let entry = entry_of(data, from + n - 1);
        let part = parts.last();
        assert forall|k: int| 0 <= k < before.len() implies holds_part(
            #[trigger] entry_of(data, from + k),
            before[k],
        ) by {
            assert(holds_part(entry_of(data, from + k), parts[k]));
        }
        law_exfat_name_recovers(data, from, before);
        assert(entry_of(data, from + (n - 1)) == entry);
        assert(holds_part(entry, part));
        let units = utf16_encode(part);
        let stored = name_entry_units(entry);
        assert forall|i: int| 0 <= i < units.len() implies stored[i] != 0x0000 && stored[i]
            != 0xFFFF by {
            assert(name_unit(units[i]));
        }
        lemma_name_units(stored, units.len() as int);
        assert(stored.take(units.len() as int) =~= units);
        law_utf16_recovers(part);
        assert(parts =~= before.push(part));
        lemma_flatten_push(before, part);
    }
}

proof fn lemma_flatten_push(parts: Seq<Seq<char>>, last: Seq<char>)
    ensures
        parts.push(last).flatten() == parts.flatten() + last,
    decreases parts.len(),
{
    let all = parts.push(last);
    if parts.len() == 0 {
        assert(all =~= seq![last]);
        seq![last].lemma_flatten_one_element();
        assert(parts.flatten() + last =~= last);
    } else {
        lemma_flatten_push(parts.drop_first(), last);
        assert(all.drop_first() =~= parts.drop_first().push(last));
        assert(all.flatten() =~= parts.flatten() + last);
    }
}

/// A deleted NTFS file has the name that it had: the name that its attribute holds in UTF-16.
pub proof fn law_ntfs_name_recovers(attr: Seq<u8>, name: Seq<char>)
    requires
        holds_value(attr),
        0 < utf16_encode(name).len() <= 255,
        attr[le_u16(attr, 0x14) + 0x38] == utf16_encode(name).len(),
        le_u16(attr, 0x14) + 0x3A + 2 * utf16_encode(name).len() <= attr.len(),
        units_at(attr, le_u16(attr, 0x14) + 0x3A, utf16_encode(name).len()) == utf16_encode(name),
    ensures
        file_name(attr) is Some,
        file_name(attr)->0.name == name,
{
    law_utf16_recovers(name);
}

// ---------------------------------------------------------------------------------------------
// Chains
// ---------------------------------------------------------------------------------------------

/// A task after `n` answers, or after its end where that comes first.
pub open spec fn after_answers<M: TaskModel>(task: M, device: Device, n: nat) -> M
    decreases n,
{
    match task.wants() {
        Some(request) => if n == 0 {
            task
        } else {
            after_answers(task.next(device(request)), device, (n - 1) as nat)
        },
        None => task,
    }
}

/// There are no more clusters than numbers of 32 bits.
proof fn lemma_clusters_bounded(clusters: Set<u32>)
    requires
        clusters.finite(),
    ensures
        clusters.len() <= 0x1_0000_0000,
{
    let numbers = clusters.map(|c: u32| c as int);
    let range = set_int_range(0, 0x1_0000_0000);
    lemma_int_range(0, 0x1_0000_0000);
    lemma_map_size(clusters, numbers, |c: u32| c as int);
    assert(numbers.subset_of(range));
    lemma_len_subset(numbers, range);
}

/// How many answers the directory can still take, at most.
spec fn answers_left(visited: nat, phase: ChainPhase) -> int {
    match phase {
        ChainPhase::Contents => 2 * (0x1_0000_0000 - visited) + 2,
        ChainPhase::TableEntry => 2 * (0x1_0000_0000 - visited) + 1,
        ChainPhase::Ended(_) => 0,
    }
}

proof fn lemma_fat32_chain_ends(dir: Fat32DirModel, device: Device, n: nat)
    requires
        dir.visited.finite(),
        answers_left(dir.visited.len(), dir.phase) <= n,
    ensures
        after_answers(dir, device, n).wants() is None,
    decreases n,
{
    lemma_clusters_bounded(dir.visited);
    match dir.wants() {
        Some(request) => {
            let next = dir.next(device(request));
            lemma_clusters_bounded(next.visited);
            lemma_fat32_chain_ends(next, device, (n - 1) as nat);
        },
        None => {},
    }
}

/// A FAT32 directory reads no cluster twice, so its scan ends even where its chain is a circle.
pub proof fn law_fat32_directory_ends(
    info: Fat32Info,
    start: u32,
    path: Seq<char>,
    device: Device,
)
    ensures
        after_answers(
            Fat32DirModel::open(info, start, path),
            device,
            2 * 0x1_0000_0000,
        ).wants() is None,
{
    let dir = Fat32DirModel::open(info, start, path);
    if dir.phase is Contents {
        assert(dir.visited =~= Set::empty().insert(start));
    }
    lemma_fat32_chain_ends(dir, device, 2 * 0x1_0000_0000);
}

proof fn lemma_exfat_chain_ends(dir: ExfatDirModel, device: Device, n: nat)
    requires
        dir.visited.finite(),
        answers_left(dir.visited.len(), dir.phase) <= n,
    ensures
        after_answers(dir, device, n).wants() is None,
    decreases n,
{
    lemma_clusters_bounded(dir.visited);
    match dir.wants() {
        Some(request) => {
            let next = dir.next(device(request));
            lemma_clusters_bounded(next.visited);
            lemma_exfat_chain_ends(next, device, (n - 1) as nat);
        },
        None => {},
    }
}

/// An exFAT directory reads no cluster twice, so its scan ends even where its chain is a circle.
pub proof fn law_exfat_directory_ends(
    info: ExfatInfo,
    start: u32,
    path: Seq<char>,
    device: Device,
)
    ensures
        after_answers(
            ExfatDirModel::open(info, start, path),
            device,
            2 * 0x1_0000_0000,
        ).wants() is None,
{
    let dir = ExfatDirModel::open(info, start, path);
    if dir.phase is Contents {
        assert(dir.visited =~= Set::empty().insert(start));
    }
    lemma_exfat_chain_ends(dir, device, 2 * 0x1_0000_0000);
}

} // verus!
