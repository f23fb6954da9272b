//! What the bytes of a FAT32 directory say: which entries are deleted files, under which names, of
//! which sizes, and where they were; and where the directory goes on.

use vstd::prelude::*;
use vstd::arithmetic::div_mod::lemma_fundamental_div_mod_converse;
use crate::fat::Fat32Info;
use crate::fat_entry::{
    active_lfn, active_short, deleted_lfn, deleted_short, end_of_dir, entry_cluster, entry_size,
    lfn_position, lfn_units, long_units, short_name, shown_byte, shown_bytes, shown_first,
    stored_parts, stored_unit, units_text,
};
use crate::fat_restore::{
    law_fat32_file_is_recovered, law_table_value_is_read_back, linked, restore_plan, states,
    ChainRestore, ChainVolume, RestoreError,
};
use crate::fat_scan::{
    active_name, deleted_file, deleted_name, entries_from, entry_of, sub_path, Fat32DirModel,
    PartsModel,
};
use crate::reach_laws::{hands_out, leads_to};
use crate::scan_laws::{
    fat32_reads, law_fat32_deleted_entry_is_handed_out, law_fat32_name_recovers,
    law_fat32_subdirectory_is_entered, name_unit,
};
use crate::stored::{
    law_stored_u16_is_read_back, law_stored_u32_is_read_back, stores_u16, stores_u32,
};
use crate::text::{hex, utf16_encode};
use crate::types::{directory_bit, FileModel};
use crate::walk::{visit, Device, Failure, Request, TaskModel};

verus! {

// ---------------------------------------------------------------------------------------------
// One entry
// ---------------------------------------------------------------------------------------------

/// What an entry is, is told by its first byte and its attributes: E5 marks a deleted entry, zero
/// the end of the directory, a dot the directory itself and its parent, and the attributes 0F a part
/// of a long name.
pub proof fn law_entry_marks(entry: Seq<u8>)
    ensures
        end_of_dir(entry) <==> entry[0] == 0,
        deleted_lfn(entry) <==> entry[0] == 0xE5 && entry[11] == 0x0F,
        deleted_short(entry) <==> entry[0] == 0xE5 && entry[11] != 0x0F,
        active_lfn(entry) <==> entry[0] != 0xE5 && entry[0] != 0 && entry[11] == 0x0F,
        active_short(entry) <==> entry[0] != 0xE5 && entry[0] != 0 && entry[0] != 0x2E && entry[11]
            != 0x0F,
{
}

/// An attribute byte has the bit of directories exactly where it is 16 to 31, counted modulo 32.
pub proof fn law_directory_bit(attr: u8)
    ensures
        directory_bit(attr) <==> attr as int % 32 >= 16,
{
}

/// Whether an entry of 32 bytes stores a first cluster, in two halves, and a size.
pub open spec fn stores_place(entry: Seq<u8>, cluster: int, size: int) -> bool {
    &&& 0 <= cluster < 0x1_0000_0000
    &&& stores_u16(entry, 26, cluster % 0x1_0000)
    &&& stores_u16(entry, 20, cluster / 0x1_0000)
    &&& stores_u32(entry, 28, size)
}

/// The first cluster and the size that an entry stores are read back.
pub proof fn law_entry_place_is_read_back(entry: Seq<u8>, cluster: int, size: int)
    requires
        stores_place(entry, cluster, size),
    ensures
        entry_cluster(entry) == cluster,
        entry_size(entry) == size,
{
    law_stored_u16_is_read_back(entry, 26, cluster % 0x1_0000);
    law_stored_u16_is_read_back(entry, 20, cluster / 0x1_0000);
    law_stored_u32_is_read_back(entry, 28, size);
}

/// The deleted file of an entry has the size that the entry stores, the address of the cluster that
/// it stores, or none where that is no cluster, and the path of the directory.
pub proof fn law_deleted_file_is_what_the_entry_stores(
    info: Fat32Info,
    path: Seq<char>,
    parts: PartsModel,
    entry: Seq<u8>,
    cluster: int,
    size: int,
)
    requires
        stores_place(entry, cluster, size),
        info.addressable(),
    ensures
        ({
            let file = deleted_file(info, path, parts, entry);
            &&& file.size == size
            &&& cluster >= 2 ==> file.start_address == info.cluster_at(cluster)
            &&& cluster < 2 ==> file.start_address == 0
            &&& file.path == path
            &&& file.is_directory <==> entry[11] as int % 32 >= 16
            &&& file.fs_type == "FAT32"@
            &&& file.resident_data is None
            &&& file.data_runs.len() == 0
        }),
{
    law_entry_place_is_read_back(entry, cluster, size);
    if cluster >= 2 {
        info.lemma_addressable(cluster as u32);
    }
}

/// Whether a character is one that a short name shows as it is.
pub open spec fn plain_char(c: char) -> bool {
    0x20 < c as u32 && (c as u32) < 0x7F
}

/// Whether so many bytes at `off` store a text, with a blank or a zero behind it where there is room
/// for one. What stands behind that does not matter.
pub open spec fn stores_padded(s: Seq<u8>, off: int, room: int, text: Seq<char>) -> bool {
    &&& text.len() <= room
    &&& forall|i: int| 0 <= i < text.len() ==> s[off + i] == #[trigger] text[i] as u32
    &&& text.len() < room ==> s[off + text.len()] == 0x20 || s[off + text.len()] == 0x00
}

proof fn lemma_shown_bytes(s: Seq<u8>, text: Seq<char>)
    requires
        stores_padded(s, 0, s.len() as int, text),
        forall|i: int| 0 <= i < text.len() ==> plain_char(#[trigger] text[i]),
    ensures
        shown_bytes(s) == text,
    decreases s.len(),
{
    if text.len() == 0 {
        assert(shown_bytes(s) =~= text);
    } else {
        let rest = text.skip(1);
        let tail = s.skip(1);
        let c = text[0];
        assert(plain_char(c));
        assert(s[0] == c as u32);
        assert forall|i: int| 0 <= i < rest.len() implies tail[0 + i] == #[trigger] rest[i] as u32 by {
            assert(s[0 + (i + 1)] == text[i + 1] as u32);
        }
        assert forall|i: int| 0 <= i < rest.len() implies plain_char(#[trigger] rest[i]) by {
            assert(plain_char(text[i + 1]));
        }
        lemma_shown_bytes(tail, rest);
        vstd::utf8::char_u32_cast(c, s[0] as u32);
        assert(shown_byte(s[0]) =~= seq![c]);
        assert(seq![c] + rest =~= text);
    }
}

/// The bytes of a name are shown one behind another up to the first blank or zero.
pub proof fn law_bytes_are_shown_one_by_one(c: u8, rest: Seq<u8>)
    ensures
        c == 0x20 || c == 0x00 ==> shown_bytes(seq![c] + rest).len() == 0,
        c != 0x20 && c != 0x00 ==> shown_bytes(seq![c] + rest) == shown_byte(c) + shown_bytes(rest),
        shown_bytes(seq![]).len() == 0,
{
    assert((seq![c] + rest).skip(1) =~= rest);
}

/// The short name of a deleted entry is the one that it had, but for its first character, which is
/// lost: `base` is the rest of the name, up to seven characters, and `ext` the extension, up to
/// three. There is a dot exactly where there is an extension.
pub proof fn law_deleted_short_name_recovers(entry: Seq<u8>, base: Seq<char>, ext: Seq<char>)
    requires
        entry.len() == 32,
        entry[0] == 0xE5,
        stores_padded(entry, 1, 7, base),
        stores_padded(entry, 8, 3, ext),
        forall|i: int| 0 <= i < base.len() ==> plain_char(#[trigger] base[i]),
        forall|i: int| 0 <= i < ext.len() ==> plain_char(#[trigger] ext[i]),
    ensures
        short_name(entry) == seq!['?'] + base + (if ext.len() > 0 {
            seq!['.'] + ext
        } else {
            seq![]
        }),
{
    lemma_short_tail(entry, base, ext);
    reveal_strlit(".");
    assert(short_name(entry) =~= seq!['?'] + base + (if ext.len() > 0 {
        seq!['.'] + ext
    } else {
        seq![]
    }));
}

proof fn lemma_short_tail(entry: Seq<u8>, base: Seq<char>, ext: Seq<char>)
    requires
        entry.len() == 32,
        stores_padded(entry, 1, 7, base),
        stores_padded(entry, 8, 3, ext),
        forall|i: int| 0 <= i < base.len() ==> plain_char(#[trigger] base[i]),
        forall|i: int| 0 <= i < ext.len() ==> plain_char(#[trigger] ext[i]),
    ensures
        shown_bytes(entry.subrange(1, 8)) == base,
        shown_bytes(entry.subrange(8, 11)) == ext,
{
    let a = entry.subrange(1, 8);
    let b = entry.subrange(8, 11);
    assert forall|i: int| 0 <= i < base.len() implies a[0 + i] == #[trigger] base[i] as u32 by {
        assert(a[i] == entry[1 + i]);
    }
    assert forall|i: int| 0 <= i < ext.len() implies b[0 + i] == #[trigger] ext[i] as u32 by {
        assert(b[i] == entry[8 + i]);
    }
    lemma_shown_bytes(a, base);
    lemma_shown_bytes(b, ext);
}

/// The short name of an entry that is there is read back whole: `first` is its first character.
pub proof fn law_active_short_name_recovers(
    entry: Seq<u8>,
    first: char,
    base: Seq<char>,
    ext: Seq<char>,
)
    requires
        entry.len() == 32,
        plain_char(first),
        first != '.',
        entry[0] == first as u8,
        stores_padded(entry, 1, 7, base),
        stores_padded(entry, 8, 3, ext),
        forall|i: int| 0 <= i < base.len() ==> plain_char(#[trigger] base[i]),
        forall|i: int| 0 <= i < ext.len() ==> plain_char(#[trigger] ext[i]),
    ensures
        short_name(entry) == seq![first] + base + (if ext.len() > 0 {
            seq!['.'] + ext
        } else {
            seq![]
        }),
{
    lemma_short_tail(entry, base, ext);
    reveal_strlit(".");
    assert(short_name(entry) =~= seq![first] + base + (if ext.len() > 0 {
        seq!['.'] + ext
    } else {
        seq![]
    }));
}

/// A byte of a short name that is no plain character is shown as its two hexadecimal digits, and a
/// first byte that stands for another as that other.
pub proof fn law_odd_bytes_are_shown(c: u8, high: int, low: int)
    requires
        c == 16 * high + low,
        0 <= low < 16,
    ensures
        c <= 0x20 || c >= 0x7F ==> shown_byte(c) == "[0x"@ + seq![
            hex_digit(high),
            hex_digit(low),
        ] + "]"@,
        shown_first(0x05) == seq!['\u{E5}'],
        shown_first(0xE5) == seq!['?'],
        shown_first(0x20) == seq![' '],
        c != 0x05 && c != 0xE5 && c != 0x20 ==> shown_first(c) == shown_byte(c),
{
    reveal_with_fuel(hex, 3);
    reveal_strlit("0123456789ABCDEF");
    assert(hex(c as nat, 2) =~= seq![hex_digit(high), hex_digit(low)]);
}

/// The hexadecimal digit of a number.
pub open spec fn hex_digit(d: int) -> char {
    "0123456789ABCDEF"@[d]
}

/// Whether an entry stores thirteen units of a long name: five, six and two of them, in the three
/// gaps between its other fields.
pub open spec fn stores_units(entry: Seq<u8>, units: Seq<u16>) -> bool {
    &&& units.len() == 13
    &&& forall|i: int| 0 <= i < 5 ==> stores_u16(entry, 1 + 2 * i, #[trigger] units[i] as int)
    &&& forall|i: int| 5 <= i < 11 ==> stores_u16(entry, 4 + 2 * i, #[trigger] units[i] as int)
    &&& forall|i: int| 11 <= i < 13 ==> stores_u16(entry, 6 + 2 * i, #[trigger] units[i] as int)
}

/// The units that an entry stores are read back.
pub proof fn law_long_name_units_are_read_back(entry: Seq<u8>, units: Seq<u16>)
    requires
        stores_units(entry, units),
    ensures
        lfn_units(entry) == units,
{
    assert forall|i: int| 0 <= i < 13 implies #[trigger] lfn_units(entry)[i] == units[i] by {
        law_stored_u16_is_read_back(entry, lfn_position(i), units[i] as int);
    }
    assert(lfn_units(entry) =~= units);
}

// ---------------------------------------------------------------------------------------------
// The entries of a cluster
// ---------------------------------------------------------------------------------------------

/// Byte `k` of entry `i` of a cluster.
pub open spec fn entry_byte(data: Seq<u8>, i: int, k: int) -> u8 {
    data[32 * i + k]
}

/// Whether entry `i` of a cluster is a deleted part of a long name.
pub open spec fn deleted_part_at(data: Seq<u8>, i: int) -> bool {
    entry_byte(data, i, 0) == 0xE5 && entry_byte(data, i, 11) == 0x0F
}

/// Whether entry `i` of a cluster is a part of a long name that is there.
pub open spec fn active_part_at(data: Seq<u8>, i: int) -> bool {
    entry_byte(data, i, 0) != 0xE5 && entry_byte(data, i, 11) == 0x0F
}

/// Whether a cluster holds entries up to `i` at least: it is long enough, and none of them ends the
/// directory.
pub open spec fn entries_up_to(data: Seq<u8>, i: int) -> bool {
    &&& 0 <= i
    &&& 32 * i + 32 <= data.len()
    &&& forall|j: int| 0 <= j <= i ==> #[trigger] entry_byte(data, j, 0) != 0
}

/// The bytes of entry `i`.
pub open spec fn entry_bytes(data: Seq<u8>, i: int) -> Seq<u8> {
    Seq::new(32, |k: int| entry_byte(data, i, k))
}

proof fn lemma_entry_of(data: Seq<u8>, i: int)
    requires
        0 <= i,
        32 * i + 32 <= data.len(),
    ensures
        entry_of(data, i) == entry_bytes(data, i),
{
    assert(entry_of(data, i) =~= entry_bytes(data, i));
}

proof fn lemma_entries_from(data: Seq<u8>, i: int, k: int)
    requires
        0 <= i <= k,
        entries_up_to(data, k),
    ensures
        k < i + entries_from(data, i),
    decreases k - i,
{
    lemma_entry_of(data, i);
    assert(entry_byte(data, i, 0) != 0);
    if i < k {
        lemma_entries_from(data, i + 1, k);
    }
}

/// The entries of a cluster are read up to the first that ends the directory, or to the end of the
/// cluster: all of those, and none behind.
pub proof fn law_entries_end_at_the_mark(data: Seq<u8>, n: nat)
    requires
        32 * n <= data.len(),
        forall|j: int| 0 <= j < n ==> #[trigger] entry_byte(data, j, 0) != 0,
        32 * n + 32 > data.len() || entry_byte(data, n as int, 0) == 0,
    ensures
        entries_from(data, 0) == n,
{
    lemma_entries_counted(data, 0, n);
}

proof fn lemma_entries_counted(data: Seq<u8>, i: int, n: nat)
    requires
        0 <= i <= n,
        32 * n <= data.len(),
        forall|j: int| 0 <= j < n ==> #[trigger] entry_byte(data, j, 0) != 0,
        32 * n + 32 > data.len() || entry_byte(data, n as int, 0) == 0,
    ensures
        entries_from(data, i) == n - i,
    decreases n - i,
{
    if i < n {
        lemma_entry_of(data, i);
        assert(entry_byte(data, i, 0) != 0);
        lemma_entries_counted(data, i + 1, n);
    } else if 32 * n + 32 <= data.len() {
        lemma_entry_of(data, i);
    }
}

/// Behind an entry that is no deleted part of a long name, no such part is pending.
proof fn lemma_no_parts_pending(parts: PartsModel, data: Seq<u8>, i: int)
    requires
        0 <= i,
        32 * i <= data.len(),
        i == 0 ==> parts.deleted.len() == 0,
        i > 0 ==> !deleted_part_at(data, i - 1),
    ensures
        parts.after_entries(data, i as nat).deleted == Seq::<Seq<u16>>::empty(),
{
    if i > 0 {
        lemma_entry_of(data, i - 1);
        let before = parts.after_entries(data, (i - 1) as nat);
        assert(parts.after_entries(data, i as nat) == before.after_entry(entry_of(data, i - 1)));
    }
    assert(parts.after_entries(data, i as nat).deleted =~= seq![]);
}

/// What a deleted file is called, how large it is and where it was, as the scan reports it.
pub open spec fn reported(
    dir: Fat32DirModel,
    device: Device,
    name: Seq<char>,
    cluster: int,
    size: int,
    attr: u8,
) -> bool {
    hands_out(
        dir,
        device,
        FileModel {
            name,
            size: size as u64,
            start_address: if cluster >= 2 {
                dir.info.cluster_at(cluster) as u64
            } else {
                0
            },
            fs_type: "FAT32"@,
            path: dir.path,
            is_directory: attr as int % 32 >= 16,
            resident_data: None,
            data_runs: seq![],
        },
    )
}

proof fn lemma_reported(
    dir: Fat32DirModel,
    device: Device,
    data: Seq<u8>,
    i: int,
    name: Seq<char>,
    cluster: int,
    size: int,
)
    requires
        fat32_reads(dir, device, data),
        entries_up_to(data, i),
        entry_byte(data, i, 0) == 0xE5,
        entry_byte(data, i, 11) != 0x0F,
        stores_place(entry_bytes(data, i), cluster, size),
        deleted_name(dir.parts.after_entries(data, i as nat), entry_bytes(data, i)) == name,
    ensures
        reported(dir, device, name, cluster, size, entry_byte(data, i, 11)),
{
    let entry = entry_bytes(data, i);
    let parts = dir.parts.after_entries(data, i as nat);
    lemma_entry_of(data, i);
    lemma_entries_from(data, 0, i);
    law_entry_place_is_read_back(entry, cluster, size);
    law_fat32_deleted_entry_is_handed_out(dir, device, data, i);
    let file = deleted_file(dir.info, dir.path, parts, entry);
    assert(file.data_runs =~= seq![]);
}

/// A deleted entry with no deleted part of a long name right before it is handed out under its short
/// name: a long name belongs to the one entry that follows it, and to no other.
pub proof fn law_deleted_entry_has_its_short_name(
    dir: Fat32DirModel,
    device: Device,
    data: Seq<u8>,
    i: int,
    base: Seq<char>,
    ext: Seq<char>,
    cluster: int,
    size: int,
)
    requires
        fat32_reads(dir, device, data),
        entries_up_to(data, i),
        entry_byte(data, i, 0) == 0xE5,
        entry_byte(data, i, 11) != 0x0F,
        i == 0 ==> dir.parts.deleted.len() == 0,
        i > 0 ==> !deleted_part_at(data, i - 1),
        stores_padded(entry_bytes(data, i), 1, 7, base),
        stores_padded(entry_bytes(data, i), 8, 3, ext),
        forall|k: int| 0 <= k < base.len() ==> plain_char(#[trigger] base[k]),
        forall|k: int| 0 <= k < ext.len() ==> plain_char(#[trigger] ext[k]),
        stores_place(entry_bytes(data, i), cluster, size),
    ensures
        reported(
            dir,
            device,
            seq!['?'] + base + (if ext.len() > 0 {
                seq!['.'] + ext
            } else {
                seq![]
            }),
            cluster,
            size,
            entry_byte(data, i, 11),
        ),
{
    let entry = entry_bytes(data, i);
    let parts = dir.parts.after_entries(data, i as nat);
    lemma_no_parts_pending(dir.parts, data, i);
    law_deleted_short_name_recovers(entry, base, ext);
    assert(units_text(long_units(parts.deleted)) =~= seq![]);
    lemma_reported(dir, device, data, i, short_name(entry), cluster, size);
}

/// Whether entries `from` on store a long name in `count` deleted parts, the last part first, with a
/// zero behind the name and padding behind that.
pub open spec fn stores_deleted_name(
    data: Seq<u8>,
    from: int,
    count: int,
    name: Seq<u16>,
) -> bool {
    &&& 13 * (count - 1) < name.len() <= 13 * count
    &&& forall|k: int|
        0 <= k < count ==> #[trigger] deleted_part_at(data, from + k) && stores_units(
            entry_bytes(data, from + k),
            Seq::new(13, |i: int| stored_unit(name, 13 * (count - 1 - k) + i)),
        )
}

proof fn lemma_deleted_parts(parts: PartsModel, data: Seq<u8>, from: int, name: Seq<u16>, n: int)
    requires
        0 <= from,
        0 <= n <= (name.len() + 12) / 13,
        32 * (from + n) <= data.len(),
        stores_deleted_name(data, from, (name.len() + 12) as int / 13, name),
        parts.after_entries(data, from as nat).deleted == Seq::<Seq<u16>>::empty(),
    ensures
        parts.after_entries(data, (from + n) as nat).deleted == stored_parts(name).take(n),
    decreases n,
{
    let all = stored_parts(name);
    if n > 0 {
        let count = (name.len() + 12) / 13;
        lemma_deleted_parts(parts, data, from, name, n - 1);
        let k = n - 1;
        let before = parts.after_entries(data, (from + k) as nat);
        let entry = entry_of(data, from + k);
        lemma_entry_of(data, from + k);
        assert(deleted_part_at(data, from + k));
        let units = Seq::new(13, |i: int| stored_unit(name, 13 * (count - 1 - k) + i));
        law_long_name_units_are_read_back(entry, units);
        assert(all[k] =~= units);
        assert((from + n - 1) as nat == (from + k) as nat);
        assert(parts.after_entries(data, (from + n) as nat) == before.after_entry(entry));
        assert(all.take(n) =~= all.take(k).push(units));
    } else {
        assert(all.take(0) =~= seq![]);
    }
}

/// A deleted entry right behind the deleted parts that store a long name, which stand behind an
/// entry that is no such part, is handed out under that name, whole.
pub proof fn law_deleted_entry_has_its_long_name(
    dir: Fat32DirModel,
    device: Device,
    data: Seq<u8>,
    from: int,
    i: int,
    text: Seq<char>,
    cluster: int,
    size: int,
)
    requires
        fat32_reads(dir, device, data),
        entries_up_to(data, i),
        entry_byte(data, i, 0) == 0xE5,
        entry_byte(data, i, 11) != 0x0F,
        0 <= from < i,
        from == 0 ==> dir.parts.deleted.len() == 0,
        from > 0 ==> !deleted_part_at(data, from - 1),
        stores_deleted_name(data, from, i - from, utf16_encode(text)),
        forall|k: int|
            0 <= k < utf16_encode(text).len() ==> name_unit(#[trigger] utf16_encode(text)[k]),
        stores_place(entry_bytes(data, i), cluster, size),
    ensures
        reported(dir, device, text, cluster, size, entry_byte(data, i, 11)),
{
    let name = utf16_encode(text);
    let n = i - from;
    assert(n == (name.len() + 12) / 13);
    lemma_no_parts_pending(dir.parts, data, from);
    lemma_deleted_parts(dir.parts, data, from, name, n);
    assert(stored_parts(name).take(n) =~= stored_parts(name));
    let parts = dir.parts.after_entries(data, i as nat);
    assert(text.len() > 0);
    law_fat32_name_recovers(parts, entry_bytes(data, i), text);
    lemma_reported(dir, device, data, i, text, cluster, size);
}

/// Parts of a long name that hold no text give a deleted entry its short name; an entry that is there
/// has the text of its parts, whatever it is, as long as there are any.
pub proof fn law_parts_without_text(parts: PartsModel, entry: Seq<u8>)
    ensures
        units_text(long_units(parts.deleted)).len() == 0 ==> deleted_name(parts, entry)
            == short_name(entry),
        units_text(long_units(parts.deleted)).len() > 0 ==> deleted_name(parts, entry)
            == units_text(long_units(parts.deleted)),
        parts.active.len() > 0 ==> active_name(parts, entry) == units_text(
            long_units(parts.active),
        ),
        parts.active.len() == 0 ==> active_name(parts, entry) == short_name(entry),
{
}

/// Entries change what is pending of long names: a part that is deleted is added to the deleted ones;
/// one that is there is added to those that are there, and clears the deleted ones; a deleted entry
/// clears the deleted ones; and every other entry clears both.
pub proof fn law_pending_parts(parts: PartsModel, entry: Seq<u8>, units: Seq<u16>)
    requires
        entry[0] != 0,
    ensures
        ({
            let after = parts.after_entry(entry);
            let part = entry[11] == 0x0F;
            &&& entry[0] == 0xE5 && part && stores_units(entry, units) ==> after.deleted
                == parts.deleted.push(units) && after.active == parts.active
            &&& entry[0] == 0xE5 && !part ==> after.deleted.len() == 0 && after.active
                == parts.active
            &&& entry[0] != 0xE5 && part && stores_units(entry, units) ==> after.deleted.len() == 0
                && after.active == parts.active.push(units)
            &&& entry[0] != 0xE5 && !part ==> after.deleted.len() == 0 && after.active.len() == 0
        }),
{
    if stores_units(entry, units) {
        law_long_name_units_are_read_back(entry, units);
    }
}

/// A directory hands out one piece for each deleted entry and for each subdirectory, in the order of
/// the entries, and none for other entries.
pub proof fn law_one_piece_for_an_entry(dir: Fat32DirModel, data: Seq<u8>, n: nat, size: int)
    requires
        32 * n + 32 <= data.len(),
    ensures
        ({
            let before = dir.listing(data, n);
            let all = dir.listing(data, n + 1);
            let (first, attr) = (entry_byte(data, n as int, 0), entry_byte(data, n as int, 11));
            &&& all.take(before.len() as int) == before
            &&& first == 0xE5 && attr != 0x0F ==> all.len() == before.len() + 1 && all.last() is Emit
            &&& first == 0xE5 && attr == 0x0F ==> all.len() == before.len()
            &&& attr as int % 32 < 16 && first != 0xE5 ==> all.len() == before.len()
            &&& first == 0x2E ==> all.len() == before.len()
            &&& first != 0xE5 && (stores_place(entry_bytes(data, n as int), 0, size)
                || stores_place(entry_bytes(data, n as int), dir.start as int, size)) ==> all.len()
                == before.len()
            &&& all.len() <= before.len() + 1
            &&& first != 0xE5 && all.len() > before.len() ==> all.last() is Enter
        }),
{
    lemma_entry_of(data, n as int);
    let before = dir.listing(data, n);
    let last = dir.entry_pieces(
        dir.parts.after_entries(data, n),
        entry_of(data, n as int),
    );
    let all = dir.listing(data, n + 1);
    assert(all == before + last);
    assert(all.take(before.len() as int) =~= before);
    let entry = entry_bytes(data, n as int);
    if stores_place(entry, 0, size) {
        law_entry_place_is_read_back(entry, 0, size);
    }
    if stores_place(entry, dir.start as int, size) {
        law_entry_place_is_read_back(entry, dir.start as int, size);
    }
}

// ---------------------------------------------------------------------------------------------
// Subdirectories
// ---------------------------------------------------------------------------------------------

/// The path of what is in a directory: its name alone in the root, and otherwise behind the path of
/// the directory and a slash.
pub proof fn law_sub_path(path: Seq<char>, name: Seq<char>)
    ensures
        path.len() == 0 ==> sub_path(path, name) == name,
        path.len() > 0 ==> sub_path(path, name) == path + seq!['/'] + name,
{
    reveal_strlit("/");
    assert("/"@ =~= seq!['/']);
}

/// The scan of a directory begins with its first cluster, with nothing visited but that and no part
/// of a name pending; where its number is no cluster's, it ends at once.
pub proof fn law_directory_begins(info: Fat32Info, start: u32, path: Seq<char>)
    ensures
        ({
            let dir = Fat32DirModel::open(info, start, path);
            &&& dir.info == info && dir.path == path && dir.start == start
            &&& dir.parts.deleted.len() == 0 && dir.parts.active.len() == 0
            &&& 2 <= start < 0x0FFF_FFF8 ==> dir.phase is Contents && dir.cluster == start
                && dir.visited == set![start]
            &&& start < 2 || start >= 0x0FFF_FFF8 ==> dir.wants() is None && dir.status()
                == Ok::<(), Failure>(())
        }),
{
    assert(Set::<u32>::empty().insert(start) =~= set![start]);
}

/// A directory reads the whole of its cluster, and then the table entry of it.
pub proof fn law_directory_reads(dir: Fat32DirModel)
    requires
        dir.info.addressable(),
        dir.cluster >= 2,
    ensures
        dir.phase is Contents ==> dir.wants() is Some && dir.wants()->0.offset
            == dir.info.cluster_at(dir.cluster as int) && dir.wants()->0.len
            == dir.info.sectors_per_cluster * dir.info.bytes_per_sector,
        dir.phase is TableEntry ==> dir.wants() is Some && dir.wants()->0.offset
            == dir.info.entry_at(dir.cluster as int) && dir.wants()->0.len == 4,
{
    dir.info.lemma_addressable(dir.cluster);
    let (a, b) = (dir.info.bytes_per_sector as int, dir.info.sectors_per_cluster as int);
    assert(0 <= a * b < 0x100_0000 && a * b == b * a) by (nonlinear_arith)
        requires
            0 <= a <= 0xFFFF,
            0 <= b <= 0xFF,
    ;
}

/// Behind a cluster the directory goes on where the table entry leads: at the cluster that it
/// states, unless that was visited before, and it ends where the entry is free, states the end or
/// states no cluster. Parts of names that are pending stay pending.
pub proof fn law_directory_goes_where_the_entry_leads(
    dir: Fat32DirModel,
    entry: Seq<u8>,
    value: int,
)
    requires
        dir.phase is TableEntry,
        0 <= value < 0x1000_0000,
        states(entry, value),
    ensures
        ({
            let next = dir.next(Some(entry));
            &&& next.parts == dir.parts && next.path == dir.path && next.info == dir.info
                && next.start == dir.start
            &&& 2 <= value < 0x0FFF_FFF8 && !dir.visited.contains(value as u32) ==> next.phase
                is Contents && next.cluster == value && next.visited == dir.visited.insert(
                value as u32,
            )
            &&& value < 2 || value >= 0x0FFF_FFF8 || dir.visited.contains(value as u32)
                ==> next.wants() is None && next.status() == Ok::<(), Failure>(())
            &&& dir.pieces(Some(entry)).len() == 0
        }),
{
    law_table_value_is_read_back(entry, value);
}

/// A directory of which a cluster or a table entry cannot be read fails there.
pub proof fn law_directory_fails_where_nothing_is_read(dir: Fat32DirModel)
    requires
        dir.wants() is Some,
    ensures
        dir.next(None).wants() is None,
        dir.next(None).status() == Err::<(), Failure>(
            Failure::Unreadable { offset: dir.wants()->0.offset },
        ),
        dir.pieces(None).len() == 0,
{
}

/// A long name may go on in the next cluster of a directory: the entries of that cluster are taken
/// as if they stood behind those of the cluster before.
pub proof fn law_names_go_on_in_the_next_cluster(
    dir: Fat32DirModel,
    data: Seq<u8>,
    entry: Seq<u8>,
    more: Seq<u8>,
    n: nat,
    k: nat,
)
    requires
        dir.phase is Contents,
        data.len() == 32 * n,
        n > 0,
        entries_up_to(data, n - 1),
        32 * k <= more.len(),
    ensures
        dir.next(Some(data)).phase is TableEntry,
        dir.next(Some(data)).cluster == dir.cluster,
        dir.next(Some(data)).visited == dir.visited,
        dir.next(Some(data)).path == dir.path,
        dir.next(Some(data)).next(Some(entry)).parts.after_entries(more, k)
            == dir.parts.after_entries(data + more, n + k),
{
    law_entries_end_at_the_mark(data, n);
    lemma_after_same(dir.parts, data, data + more, n);
    lemma_after_more(dir.parts, data, more, n, k);
}

proof fn lemma_after_same(parts: PartsModel, a: Seq<u8>, b: Seq<u8>, n: nat)
    requires
        32 * n <= a.len() <= b.len(),
        forall|i: int| 0 <= i < a.len() ==> a[i] == b[i],
    ensures
        parts.after_entries(a, n) == parts.after_entries(b, n),
    decreases n,
{
    if n > 0 {
        lemma_after_same(parts, a, b, (n - 1) as nat);
        assert(entry_of(a, n - 1) =~= entry_of(b, n - 1));
    }
}

proof fn lemma_after_more(parts: PartsModel, data: Seq<u8>, more: Seq<u8>, n: nat, k: nat)
    requires
        data.len() == 32 * n,
        32 * k <= more.len(),
    ensures
        parts.after_entries(data + more, n).after_entries(more, k) == parts.after_entries(
            data + more,
            n + k,
        ),
    decreases k,
{
    if k > 0 {
        lemma_after_more(parts, data, more, n, (k - 1) as nat);
        assert(entry_of(more, k - 1) =~= entry_of(data + more, n + k - 1));
        assert((n + k - 1) as nat == n + (k - 1) as nat);
    }
}

/// Behind an entry that is there and no part of a long name, no part of one is pending.
proof fn lemma_no_active_parts(parts: PartsModel, data: Seq<u8>, i: int)
    requires
        0 <= i,
        32 * i <= data.len(),
        i == 0 ==> parts.active.len() == 0,
        i > 0 ==> entry_byte(data, i - 1, 0) != 0xE5 && entry_byte(data, i - 1, 11) != 0x0F,
    ensures
        parts.after_entries(data, i as nat).active == Seq::<Seq<u16>>::empty(),
{
    if i > 0 {
        lemma_entry_of(data, i - 1);
        let before = parts.after_entries(data, (i - 1) as nat);
        assert(parts.after_entries(data, i as nat) == before.after_entry(entry_of(data, i - 1)));
    }
    assert(parts.after_entries(data, i as nat).active =~= seq![]);
}

/// Whether entries `from` on store a long name in `count` parts that are there, the last part first.
pub open spec fn stores_active_name(data: Seq<u8>, from: int, count: int, name: Seq<u16>) -> bool {
    &&& 13 * (count - 1) < name.len() <= 13 * count
    &&& forall|k: int|
        0 <= k < count ==> #[trigger] active_part_at(data, from + k) && stores_units(
            entry_bytes(data, from + k),
            Seq::new(13, |i: int| stored_unit(name, 13 * (count - 1 - k) + i)),
        )
}

proof fn lemma_active_parts(parts: PartsModel, data: Seq<u8>, from: int, name: Seq<u16>, n: int)
    requires
        0 <= from,
        0 <= n <= (name.len() + 12) / 13,
        32 * (from + n) <= data.len(),
        forall|j: int| 0 <= j < from + n ==> #[trigger] entry_byte(data, j, 0) != 0,
        stores_active_name(data, from, (name.len() + 12) as int / 13, name),
        parts.after_entries(data, from as nat).active == Seq::<Seq<u16>>::empty(),
    ensures
        parts.after_entries(data, (from + n) as nat).active == stored_parts(name).take(n),
    decreases n,
{
    let all = stored_parts(name);
    if n > 0 {
        let count = (name.len() + 12) / 13;
        lemma_active_parts(parts, data, from, name, n - 1);
        let k = n - 1;
        let before = parts.after_entries(data, (from + k) as nat);
        let entry = entry_of(data, from + k);
        lemma_entry_of(data, from + k);
        assert(active_part_at(data, from + k));
        assert(entry_byte(data, from + k, 0) != 0);
        let units = Seq::new(13, |i: int| stored_unit(name, 13 * (count - 1 - k) + i));
        law_long_name_units_are_read_back(entry, units);
        assert(all[k] =~= units);
        assert((from + n - 1) as nat == (from + k) as nat);
        assert(parts.after_entries(data, (from + n) as nat) == before.after_entry(entry));
        assert(all.take(n) =~= all.take(k).push(units));
    } else {
        assert(all.take(0) =~= seq![]);
    }
}

/// Whether a directory leads to the scan of a subdirectory that begins with a cluster, under the
/// name of it.
pub open spec fn enters(dir: Fat32DirModel, device: Device, cluster: int, name: Seq<char>) -> bool {
    leads_to(
        dir,
        device,
        Fat32DirModel::open(
            dir.info,
            cluster as u32,
            if dir.path.len() == 0 {
                name
            } else {
                dir.path + seq!['/'] + name
            },
        ),
    )
}

/// Whether entry `i` is that of a subdirectory which is there, with its first cluster: not the
/// directory itself.
pub open spec fn subdirectory_at(
    dir: Fat32DirModel,
    data: Seq<u8>,
    i: int,
    cluster: int,
    size: int,
) -> bool {
    &&& entries_up_to(data, i)
    &&& entry_byte(data, i, 0) != 0xE5
    &&& entry_byte(data, i, 0) != 0x2E
    &&& entry_byte(data, i, 11) != 0x0F
    &&& entry_byte(data, i, 11) as int % 32 >= 16
    &&& stores_place(entry_bytes(data, i), cluster, size)
    &&& cluster != 0
    &&& cluster != dir.start
}

/// A subdirectory right behind the parts that store its long name, which stand behind an entry that
/// is there and no such part, is scanned under that name.
pub proof fn law_subdirectory_has_its_long_name(
    dir: Fat32DirModel,
    device: Device,
    data: Seq<u8>,
    from: int,
    i: int,
    text: Seq<char>,
    cluster: int,
    size: int,
)
    requires
        fat32_reads(dir, device, data),
        subdirectory_at(dir, data, i, cluster, size),
        0 <= from < i,
        from == 0 ==> dir.parts.active.len() == 0,
        from > 0 ==> entry_byte(data, from - 1, 0) != 0xE5 && entry_byte(data, from - 1, 11)
            != 0x0F,
        stores_active_name(data, from, i - from, utf16_encode(text)),
        forall|k: int|
            0 <= k < utf16_encode(text).len() ==> name_unit(#[trigger] utf16_encode(text)[k]),
    ensures
        enters(dir, device, cluster, text),
{
    let name = utf16_encode(text);
    let n = i - from;
    assert(n == (name.len() + 12) / 13);
    lemma_no_active_parts(dir.parts, data, from);
    lemma_active_parts(dir.parts, data, from, name, n);
    assert(stored_parts(name).take(n) =~= stored_parts(name));
    assert forall|k: int| 0 <= k < name.len() implies name[k] != 0x0000 && name[k] != 0xFFFF by {
        assert(name_unit(name[k]));
    }
    crate::fat_entry::law_long_file_name_recovers(text);
    lemma_enters(dir, device, data, i, text, cluster, size);
}

/// A subdirectory without a long name, right behind an entry that is there and no part of one, is
/// scanned under its short name.
pub proof fn law_subdirectory_has_its_short_name(
    dir: Fat32DirModel,
    device: Device,
    data: Seq<u8>,
    i: int,
    first: char,
    base: Seq<char>,
    ext: Seq<char>,
    cluster: int,
    size: int,
)
    requires
        fat32_reads(dir, device, data),
        subdirectory_at(dir, data, i, cluster, size),
        i == 0 ==> dir.parts.active.len() == 0,
        i > 0 ==> entry_byte(data, i - 1, 0) != 0xE5 && entry_byte(data, i - 1, 11) != 0x0F,
        plain_char(first),
        entry_byte(data, i, 0) == first as u8,
        stores_padded(entry_bytes(data, i), 1, 7, base),
        stores_padded(entry_bytes(data, i), 8, 3, ext),
        forall|k: int| 0 <= k < base.len() ==> plain_char(#[trigger] base[k]),
        forall|k: int| 0 <= k < ext.len() ==> plain_char(#[trigger] ext[k]),
    ensures
        enters(
            dir,
            device,
            cluster,
            seq![first] + base + (if ext.len() > 0 {
                seq!['.'] + ext
            } else {
                seq![]
            }),
        ),
{
    lemma_no_active_parts(dir.parts, data, i);
    law_active_short_name_recovers(entry_bytes(data, i), first, base, ext);
    lemma_enters(dir, device, data, i, short_name(entry_bytes(data, i)), cluster, size);
}

proof fn lemma_enters(
    dir: Fat32DirModel,
    device: Device,
    data: Seq<u8>,
    i: int,
    name: Seq<char>,
    cluster: int,
    size: int,
)
    requires
        fat32_reads(dir, device, data),
        subdirectory_at(dir, data, i, cluster, size),
        active_name(dir.parts.after_entries(data, i as nat), entry_bytes(data, i)) == name,
    ensures
        enters(dir, device, cluster, name),
{
    lemma_entry_of(data, i);
    lemma_entries_from(data, 0, i);
    assert(entry_byte(data, i, 0) != 0);
    law_entry_place_is_read_back(entry_bytes(data, i), cluster, size);
    law_sub_path(dir.path, name);
    law_fat32_subdirectory_is_entered(dir, device, data, i);
}

// ---------------------------------------------------------------------------------------------
// Restoring
// ---------------------------------------------------------------------------------------------

/// A deleted file is recovered from the bytes of the volume: where its entry stores the first
/// cluster and the size, the table entries lead from each cluster of the chain to the next, and the
/// clusters still hold the contents, a restore of what the scan reports writes those contents up to
/// the size.
pub proof fn law_fat32_stored_file_is_recovered(
    info: Fat32Info,
    path: Seq<char>,
    parts: PartsModel,
    entry: Seq<u8>,
    cluster: int,
    size: int,
    device: Device,
    chain: Seq<u32>,
    contents: Seq<Seq<u8>>,
)
    requires
        info.addressable(),
        info.cluster_len() > 0,
        stores_place(entry, cluster, size),
        cluster >= 2,
        chain.len() > 0,
        chain[0] == cluster,
        contents.len() == chain.len(),
        forall|i: int|
            0 <= i < chain.len() ==> (#[trigger] contents[i]).len() == info.cluster_len() && device(
                Request {
                    offset: info.cluster_at(chain[i] as int) as u64,
                    len: info.cluster_len() as usize,
                },
            ) == Some(contents[i]),
        forall|i: int| 0 <= i < chain.len() - 1 ==> #[trigger] fat32_linked(info, device, chain, i),
        forall|i: int| 0 < i < chain.len() ==> 2 <= #[trigger] chain[i] < 0x0FFF_FFF8,
        (chain.len() - 1) * info.cluster_len() < size <= chain.len() * info.cluster_len(),
    ensures
        ({
            let file = deleted_file(info, path, parts, entry);
            let plan = restore_plan(info.chain_volume(), file.start_address, file.size);
            let outcome = visit(plan->Ok_0, device, 2 * chain.len());
            &&& plan is Ok
            &&& outcome is Some
            &&& outcome->0.status == Ok::<(), Failure>(())
            &&& outcome->0.yielded.flatten() == contents.flatten().take(size)
        }),
{
    law_entry_place_is_read_back(entry, cluster, size);
    info.law_chain_volume();
    let volume = info.chain_volume();
    assert forall|i: int| 0 <= i < chain.len() implies device(
        volume.contents_request(#[trigger] chain[i]),
    ) == Some(contents[i]) && contents[i].len() == volume.cluster_len by {
        assert(contents[i].len() == info.cluster_len());
        assert(volume.cluster_at(chain[i] as int) == info.cluster_at(chain[i] as int));
    }
    assert forall|i: int| 0 <= i < chain.len() - 1 implies #[trigger] linked(
        volume,
        device,
        chain,
        i,
    ) by {
        assert(fat32_linked(info, device, chain, i));
        assert(volume.entry_at(chain[i] as int) == info.entry_at(chain[i] as int));
    }
    law_fat32_file_is_recovered(info, path, parts, entry, device, chain, contents);
}

/// Whether the table entry of cluster `i` of a chain on a FAT32 volume states the next.
pub open spec fn fat32_linked(
    info: Fat32Info,
    device: Device,
    chain: Seq<u32>,
    i: int,
) -> bool {
    let reply = device(Request { offset: info.entry_at(chain[i] as int) as u64, len: 4 });
    reply is Some && states(reply->0, chain[i + 1] as int)
}

/// A file whose address is that of a cluster, or within it, is restored from that cluster on.
pub proof fn law_restore_begins_at_the_address(
    volume: ChainVolume,
    cluster: u32,
    within: int,
    address: u64,
    size: u64,
)
    requires
        cluster >= 2,
        0 <= within < volume.cluster_len,
        address == volume.data_at + (cluster - 2) * volume.cluster_len + within,
    ensures
        restore_plan(volume, address, size) is Ok,
        restore_plan(volume, address, size)->Ok_0.cluster == cluster,
        restore_plan(volume, address, size)->Ok_0.remaining == size,
        restore_plan(volume, address, size)->Ok_0.volume == volume,
        !restore_plan(volume, address, size)->Ok_0.cut_off,
        size > 0 ==> restore_plan(volume, address, size)->Ok_0.phase is Contents,
        size == 0 ==> restore_plan(volume, address, size)->Ok_0.wants() is None,
{
    let n = volume.cluster_len as int;
    let q = cluster - 2;
    assert(q * n == n * q && 0 <= q * n) by (nonlinear_arith)
        requires
            0 <= q,
            0 < n,
    ;
    lemma_fundamental_div_mod_converse(address - volume.data_at, n, q, within);
}

/// A file whose address lies before the first cluster is not restored.
pub proof fn law_no_restore_from_before_the_data(volume: ChainVolume, address: u64, size: u64)
    requires
        address < volume.data_at,
    ensures
        restore_plan(volume, address, size) == Err::<ChainRestore, RestoreError>(
            RestoreError::BeforeData { address },
        ),
{
}

} // verus!
