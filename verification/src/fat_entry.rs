//! The 32-byte directory entries of FAT32: what kind an entry is of and what it says.

use vstd::prelude::*;
use crate::bytes::{le_u16, le_u32, read_u16_le, read_u32_le};
use crate::text::{decode_utf16_lossy, hex, push_hex, utf16_encode, utf16_lossy};

verus! {

/// The number of bytes in a directory entry.
pub const DIR_ENTRY_SIZE: usize = 32;

/// The attribute byte of an entry that holds part of a long name.
pub const LFN_ATTR: u8 = 0x0F;

/// The first byte of a deleted entry.
pub const DIR_DELETED: u8 = 0xE5;

/// The first byte of the entry that ends a directory.
pub const DIR_END: u8 = 0x00;

/// The first byte of the entries `.` and `..`.
pub const DIR_DOT: u8 = 0x2E;

// ---------------------------------------------------------------------------------------------
// Kinds of entries
// ---------------------------------------------------------------------------------------------

/// Part of the long name of a deleted file.
pub open spec fn deleted_lfn(entry: Seq<u8>) -> bool {
    entry[0] == DIR_DELETED && entry[11] == LFN_ATTR
}

/// A deleted file or directory.
pub open spec fn deleted_short(entry: Seq<u8>) -> bool {
    entry[0] == DIR_DELETED && entry[11] != LFN_ATTR
}

/// Part of the long name of a file that is there.
pub open spec fn active_lfn(entry: Seq<u8>) -> bool {
    entry[0] != DIR_DELETED && entry[0] != DIR_END && entry[11] == LFN_ATTR
}

/// A file or directory that is there, other than `.` and `..`.
pub open spec fn active_short(entry: Seq<u8>) -> bool {
    entry[0] != DIR_DELETED && entry[0] != DIR_END && entry[0] != DIR_DOT && entry[11] != LFN_ATTR
}

/// The entry that ends a directory.
pub open spec fn end_of_dir(entry: Seq<u8>) -> bool {
    entry[0] == DIR_END
}

/// The first cluster of an entry's contents.
pub open spec fn entry_cluster(entry: Seq<u8>) -> u32 {
    (le_u16(entry, 26) + 0x1_0000 * le_u16(entry, 20)) as u32
}

/// The size that an entry states.
pub open spec fn entry_size(entry: Seq<u8>) -> u32 {
    le_u32(entry, 28) as u32
}

/// Tells whether an entry is part of the long name of a deleted file.
pub fn is_deleted_lfn_entry(entry: &[u8]) -> (answer: bool)
    requires
        entry@.len() == 32,
    ensures
        answer == deleted_lfn(entry@),
{
    entry[0] == DIR_DELETED && entry[11] == LFN_ATTR
}

/// Tells whether an entry is a deleted file or directory.
pub fn is_deleted_short_entry(entry: &[u8]) -> (answer: bool)
    requires
        entry@.len() == 32,
    ensures
        answer == deleted_short(entry@),
{
    entry[0] == DIR_DELETED && entry[11] != LFN_ATTR
}

/// Tells whether an entry is part of the long name of a file that is there.
pub fn is_active_lfn_entry(entry: &[u8]) -> (answer: bool)
    requires
        entry@.len() == 32,
    ensures
        answer == active_lfn(entry@),
{
    entry[0] != DIR_DELETED && entry[0] != DIR_END && entry[11] == LFN_ATTR
}

/// Tells whether an entry is a file or directory that is there, other than `.` and `..`.
pub fn is_active_short_entry(entry: &[u8]) -> (answer: bool)
    requires
        entry@.len() == 32,
    ensures
        answer == active_short(entry@),
{
    entry[0] != DIR_DELETED && entry[0] != DIR_END && entry[0] != DIR_DOT && entry[11] != LFN_ATTR
}

/// Tells whether an entry ends its directory.
pub fn is_end_of_dir(entry: &[u8]) -> (answer: bool)
    requires
        entry@.len() == 32,
    ensures
        answer == end_of_dir(entry@),
{
    entry[0] == DIR_END
}

/// The first cluster of an entry's contents.
pub fn get_cluster(entry: &[u8]) -> (cluster: u32)
    requires
        entry@.len() == 32,
    ensures
        cluster == entry_cluster(entry@),
{
    let low: u16 = read_u16_le(entry, 26);
    let high: u16 = read_u16_le(entry, 20);
    high as u32 * 0x1_0000 + low as u32
}

/// The size that an entry states.
pub fn get_file_size(entry: &[u8]) -> (size: u32)
    requires
        entry@.len() == 32,
    ensures
        size == entry_size(entry@),
{
    read_u32_le(entry, 28)
}

/// Exactly one thing holds of an entry that does not end its directory: it is of one of the four
/// kinds, or it is `.` or `..`.
pub proof fn law_entry_kinds(entry: Seq<u8>)
    requires
        entry.len() == 32,
        !end_of_dir(entry),
    ensures
        (if deleted_lfn(entry) { 1int } else { 0 }) + (if deleted_short(entry) { 1int } else { 0 })
            + (if active_lfn(entry) { 1int } else { 0 }) + (if active_short(entry) { 1int } else {
            0
        }) + (if entry[0] == DIR_DOT && entry[11] != LFN_ATTR { 1int } else { 0 }) == 1,
{
}

// ---------------------------------------------------------------------------------------------
// Short names
// ---------------------------------------------------------------------------------------------

/// A byte of a short name: itself where it is printable, in hexadecimal otherwise.
pub open spec fn shown_byte(c: u8) -> Seq<char> {
    if 0x20 < c < 0x7F {
        seq![c as char]
    } else {
        "[0x"@ + hex(c as nat, 2) + "]"@
    }
}

/// The bytes of a short name up to the first blank or zero.
pub open spec fn shown_bytes(s: Seq<u8>) -> Seq<char>
    decreases s.len(),
{
    if s.len() == 0 || s[0] == 0x20 || s[0] == 0x00 {
        seq![]
    } else {
        shown_byte(s[0]) + shown_bytes(s.skip(1))
    }
}

/// The first byte of a short name. 0x05 stands for the character 0xE5, and the mark of a deleted
/// entry has taken the place of a character that is lost.
pub open spec fn shown_first(c: u8) -> Seq<char> {
    if c == 0x05 {
        seq!['\u{E5}']
    } else if c == DIR_DELETED {
        seq!['?']
    } else if c == 0x20 {
        seq![' ']
    } else {
        shown_byte(c)
    }
}

/// The name and extension of an entry, with a dot between them where there is an extension; empty
/// for `.` and `..`.
pub open spec fn short_name(entry: Seq<u8>) -> Seq<char> {
    if entry[0] == DIR_DOT {
        seq![]
    } else {
        let base = shown_first(entry[0]) + shown_bytes(entry.subrange(1, 8));
        let ext = shown_bytes(entry.subrange(8, 11));
        if ext.len() > 0 {
            base + "."@ + ext
        } else {
            base
        }
    }
}

fn push_shown_byte(out: &mut String, c: u8)
    ensures
        final(out)@ == old(out)@ + shown_byte(c),
{
    if c > 0x20 && c < 0x7F {
        out.push(c as char);
        assert(out@ =~= old(out)@ + shown_byte(c));
    } else {
        out.append("[0x");
        push_hex(out, c as u64, 2);
        out.append("]");
        assert(out@ =~= old(out)@ + shown_byte(c));
    }
}

fn push_shown_bytes(out: &mut String, entry: &[u8], from: usize, to: usize)
    requires
        from <= to <= entry@.len(),
    ensures
        final(out)@ == old(out)@ + shown_bytes(entry@.subrange(from as int, to as int)),
{
    let ghost before = out@;
    let ghost all = entry@.subrange(from as int, to as int);
    let mut i: usize = from;
    while i < to && entry[i] != 0x20 && entry[i] != 0x00
        invariant
            from <= i <= to <= entry@.len(),
            all == entry@.subrange(from as int, to as int),
            out@ + shown_bytes(entry@.subrange(i as int, to as int)) =~= before + shown_bytes(all),
        decreases to - i,
    {
        let ghost rest = entry@.subrange(i as int, to as int);
        assert(rest.skip(1) =~= entry@.subrange(i + 1, to as int));
        push_shown_byte(out, entry[i]);
        i = i + 1;
    }
    assert(shown_bytes(entry@.subrange(i as int, to as int)) =~= seq![]);
    assert(out@ =~= before + shown_bytes(all));
}

/// The name of an entry in the form of eight characters and an extension of three.
pub fn extract_83_name(entry: &[u8]) -> (name: String)
    requires
        entry@.len() == 32,
    ensures
        name@ == short_name(entry@),
{
    let mut name = String::new();
    let first: u8 = entry[0];
    if first == DIR_DOT {
        return name;
    }
    if first == 0x05 {
        name.push('\u{E5}');
    } else if first == DIR_DELETED {
        name.push('?');
    } else if first == 0x20 {
        name.push(' ');
    } else {
        push_shown_byte(&mut name, first);
    }
    assert(name@ =~= shown_first(first));
    push_shown_bytes(&mut name, entry, 1, 8);
    let mut ext = String::new();
    push_shown_bytes(&mut ext, entry, 8, 11);
    assert(ext@ =~= shown_bytes(entry@.subrange(8, 11)));
    if !ext.as_str().is_empty() {
        name.append(".");
        name.append(ext.as_str());
    }
    name
}

// ---------------------------------------------------------------------------------------------
// Long names
// ---------------------------------------------------------------------------------------------

/// Where unit `i` of the thirteen UTF-16 units in a long-name entry stands.
pub open spec fn lfn_position(i: int) -> int {
    if i < 5 {
        1 + 2 * i
    } else if i < 11 {
        14 + 2 * (i - 5)
    } else {
        28 + 2 * (i - 11)
    }
}

/// The thirteen UTF-16 units in a long-name entry.
pub open spec fn lfn_units(entry: Seq<u8>) -> Seq<u16> {
    Seq::new(13, |i: int| le_u16(entry, lfn_position(i)) as u16)
}

/// The thirteen UTF-16 units in a long-name entry.
pub fn extract_lfn_utf16(entry: &[u8]) -> (units: Vec<u16>)
    requires
        entry@.len() == 32,
    ensures
        units@ == lfn_units(entry@),
{
    let mut units: Vec<u16> = Vec::with_capacity(13);
    let mut i: usize = 0;
    while i < 13
        invariant
            entry@.len() == 32,
            i <= 13,
            units@.len() == i,
            forall|j: int| 0 <= j < i ==> units@[j] == le_u16(entry@, lfn_position(j)),
        decreases 13 - i,
    {
        let at: usize = if i < 5 {
            1 + 2 * i
        } else if i < 11 {
            14 + 2 * (i - 5)
        } else {
            28 + 2 * (i - 11)
        };
        units.push(read_u16_le(entry, at));
        i = i + 1;
    }
    assert(units@ =~= lfn_units(entry@));
    units
}

/// UTF-16 units up to the first that ends or pads a name.
pub open spec fn name_units(units: Seq<u16>) -> Seq<u16>
    decreases units.len(),
{
    if units.len() == 0 || units[0] == 0x0000 || units[0] == 0xFFFF {
        seq![]
    } else {
        seq![units[0]] + name_units(units.skip(1))
    }
}

/// The text of the units up to the first that ends or pads a name.
pub open spec fn units_text(units: Seq<u16>) -> Seq<char> {
    utf16_lossy(name_units(units))
}

/// UTF-16 units up to the first that ends or pads a name.
pub(crate) fn take_name_units(units: &[u16]) -> (taken: Vec<u16>)
    ensures
        taken@ == name_units(units@),
{
    let n: usize = units.len();
    let mut taken: Vec<u16> = Vec::new();
    let mut i: usize = 0;
    assert(units@.skip(0) =~= units@);
    while i < n && units[i] != 0x0000 && units[i] != 0xFFFF
        invariant
            n == units@.len(),
            i <= n,
            taken@ + name_units(units@.skip(i as int)) =~= name_units(units@),
        decreases n - i,
    {
        assert(units@.skip(i as int).skip(1) =~= units@.skip(i + 1));
        taken.push(units[i]);
        i = i + 1;
    }
    assert(name_units(units@.skip(i as int)) =~= seq![]);
    taken
}

/// The text of UTF-16 units up to the first that ends or pads a name.
pub fn utf16_to_string(chars: &[u16]) -> (text: String)
    ensures
        text@ == units_text(chars@),
{
    let taken = take_name_units(chars);
    decode_utf16_lossy(taken.as_slice())
}

/// The units of a long name from the entries that hold it. The entries are stored last part first.
pub open spec fn long_units(parts: Seq<Seq<u16>>) -> Seq<u16>
    decreases parts.len(),
{
    if parts.len() == 0 {
        seq![]
    } else {
        parts.last() + long_units(parts.drop_last())
    }
}

/// Unit `i` of a name as long-name entries store it: the name, a zero, then padding.
pub open spec fn stored_unit(name: Seq<u16>, i: int) -> u16 {
    if i < name.len() {
        name[i]
    } else if i == name.len() {
        0x0000
    } else {
        0xFFFF
    }
}

/// The entries that store a name, last part first, as its thirteen units each.
pub open spec fn stored_parts(name: Seq<u16>) -> Seq<Seq<u16>> {
    let count = (name.len() + 12) / 13;
    Seq::new(
        count as nat,
        |k: int| Seq::new(13, |i: int| stored_unit(name, 13 * (count - 1 - k) + i)),
    )
}

/// The units of the last `n` of the stored entries.
proof fn lemma_long_units(parts: Seq<Seq<u16>>, i: int)
    requires
        forall|k: int| 0 <= k < parts.len() ==> (#[trigger] parts[k]).len() == 13,
    ensures
        long_units(parts).len() == 13 * parts.len(),
        0 <= i < 13 * parts.len() ==> long_units(parts)[i] == parts[parts.len() - 1 - i / 13][i
            % 13],
    decreases parts.len(),
{
    if parts.len() > 0 {
        lemma_long_units(parts.drop_last(), i - 13);
    }
}

/// Units up to the first that ends or pads a name are a name with such a unit behind it.
pub proof fn lemma_name_units(units: Seq<u16>, n: int)
    requires
        0 <= n <= units.len(),
        forall|i: int| 0 <= i < n ==> units[i] != 0x0000 && units[i] != 0xFFFF,
        n < units.len() ==> units[n] == 0x0000 || units[n] == 0xFFFF,
    ensures
        name_units(units) == units.take(n),
    decreases n,
{
    if n > 0 {
        lemma_name_units(units.skip(1), n - 1);
        assert(units.take(n) =~= seq![units[0]] + units.skip(1).take(n - 1));
    } else {
        assert(units.take(0) =~= seq![]);
    }
}

/// Reading back the entries that store a long name gives the name, whatever its length, as long as
/// it holds neither of the two units that end and pad a name.
pub proof fn law_long_name_recovers(name: Seq<u16>)
    requires
        forall|i: int| 0 <= i < name.len() ==> name[i] != 0x0000 && name[i] != 0xFFFF,
    ensures
        name_units(long_units(stored_parts(name))) == name,
{
    let parts = stored_parts(name);
    let units = long_units(parts);
    let count = (name.len() + 12) / 13;
    lemma_long_units(parts, 0);
    assert forall|i: int| 0 <= i < units.len() implies units[i] == stored_unit(name, i) by {
        lemma_long_units(parts, i);
        let k = parts.len() - 1 - i / 13;
        assert(0 <= k < count);
        assert(13 * (count - 1 - k) + i % 13 == i);
    }
    lemma_name_units(units, name.len() as int);
    assert(units.take(name.len() as int) =~= name);
}

/// Reading back the entries that store a long file name as UTF-16 gives the file name.
pub proof fn law_long_file_name_recovers(text: Seq<char>)
    requires
        forall|i: int|
            0 <= i < utf16_encode(text).len() ==> utf16_encode(text)[i] != 0x0000 && utf16_encode(
                text,
            )[i] != 0xFFFF,
    ensures
        units_text(long_units(stored_parts(utf16_encode(text)))) == text,
{
    law_long_name_recovers(utf16_encode(text));
    crate::text::law_utf16_recovers(text);
}

} // verus!
