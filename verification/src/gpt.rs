//! GPT: the header and the entries of a GUID partition table.

use vstd::prelude::*;
use vstd::utf8::*;
use crate::bytes::{has_tag, le_u16, le_u32, le_u64, read_u16_le, read_u32_le, read_u64_le, tag_at};
use crate::disk::{partition_models, Partition, PartitionModel};
use crate::text::{
    ascii_uppercase, decimal, decode_utf16_lossy, hex, push_decimal, push_hex, same_text,
    to_uppercase, uppercase, utf16_encode, utf16_lossy,
};
use crate::walk::Request;

verus! {

// ---------------------------------------------------------------------------------------------
// The header
// ---------------------------------------------------------------------------------------------

/// What the header of a GPT says of the entries.
#[derive(Debug, Clone, Copy)]
pub struct GptHeader {
    /// The first sector of the entries.
    pub entries_lba: u64,
    pub count: u32,
    /// The number of bytes in an entry.
    pub entry_size: u32,
}

/// The most bytes of entries that are read.
pub const MAX_ENTRY_BYTES: u64 = 65536;

/// The header that a sector holds. An entry size of zero stands for 128.
pub open spec fn gpt_header(sector: Seq<u8>) -> Option<GptHeader> {
    if has_tag(sector, 0, "EFI PART"@) {
        Some(
            GptHeader {
                entries_lba: le_u64(sector, 72) as u64,
                count: le_u32(sector, 80) as u32,
                entry_size: if le_u32(sector, 84) == 0 {
                    128
                } else {
                    le_u32(sector, 84) as u32
                },
            },
        )
    } else {
        None
    }
}

/// Reads the header of a GPT.
pub fn read_gpt_header(sector: &[u8]) -> (header: Option<GptHeader>)
    requires
        sector@.len() == 512,
    ensures
        header == gpt_header(sector@),
{
    proof {
        reveal_strlit("EFI PART");
    }
    if !tag_at(sector, 0, "EFI PART") {
        return None;
    }
    let size: u32 = read_u32_le(sector, 84);
    Some(
        GptHeader {
            entries_lba: read_u64_le(sector, 72),
            count: read_u32_le(sector, 80),
            entry_size: if size == 0 {
                128
            } else {
                size
            },
        },
    )
}

impl GptHeader {
    /// The number of bytes in all entries, as far as they are read.
    pub open spec fn entry_bytes(self) -> int {
        if self.count * self.entry_size < MAX_ENTRY_BYTES {
            self.count * self.entry_size
        } else {
            MAX_ENTRY_BYTES as int
        }
    }

    /// The read of the entries, in whole sectors; none where there are no entries.
    pub open spec fn entries_request(self) -> Option<Request> {
        if self.entry_bytes() == 0 {
            None
        } else {
            Some(
                Request {
                    offset: (self.entries_lba * 512) as u64,
                    len: ((self.entry_bytes() + 511) / 512 * 512) as usize,
                },
            )
        }
    }

    /// Whether the entries, where there are any, have an address.
    pub open spec fn addressable(self) -> bool {
        self.entry_bytes() > 0 ==> self.entries_lba * 512 <= u64::MAX
    }

    fn bytes(&self) -> (n: u64)
        ensures
            n == self.entry_bytes(),
            n <= MAX_ENTRY_BYTES,
    {
        let (a, b): (u64, u64) = (self.count as u64, self.entry_size as u64);
        assert(0 <= a * b <= 0xFFFF_FFFF * 0xFFFF_FFFF) by (nonlinear_arith)
            requires
                0 <= a <= 0xFFFF_FFFF,
                0 <= b <= 0xFFFF_FFFF,
        ;
        let all: u64 = a * b;
        if all < MAX_ENTRY_BYTES {
            all
        } else {
            MAX_ENTRY_BYTES
        }
    }

    /// Tells whether the entries, where there are any, have an address.
    pub fn is_addressable(&self) -> (answer: bool)
        ensures
            answer == self.addressable(),
    {
        self.bytes() == 0 || self.entries_lba <= u64::MAX / 512
    }

    /// The read of the entries.
    pub fn request(&self) -> (request: Option<Request>)
        requires
            self.addressable(),
        ensures
            request == self.entries_request(),
    {
        let n: u64 = self.bytes();
        if n == 0 {
            None
        } else {
            Some(
                Request {
                    offset: self.entries_lba * 512,
                    len: ((n + 511) / 512 * 512) as usize,
                },
            )
        }
    }
}

// ---------------------------------------------------------------------------------------------
// GUIDs
// ---------------------------------------------------------------------------------------------

/// The text of the GUID at `off`: the first three groups are little-endian numbers, the others
/// single bytes.
pub open spec fn guid_text(buf: Seq<u8>, off: int) -> Seq<char> {
    hex(le_u32(buf, off) as nat, 8) + "-"@ + hex(le_u16(buf, off + 4) as nat, 4) + "-"@ + hex(
        le_u16(buf, off + 6) as nat,
        4,
    ) + "-"@ + hex(buf[off + 8] as nat, 2) + hex(buf[off + 9] as nat, 2) + "-"@ + hex(
        buf[off + 10] as nat,
        2,
    ) + hex(buf[off + 11] as nat, 2) + hex(buf[off + 12] as nat, 2) + hex(buf[off + 13] as nat, 2)
        + hex(buf[off + 14] as nat, 2) + hex(buf[off + 15] as nat, 2)
}

/// The text of the GUID at `off`; empty where it does not lie within the buffer.
pub fn guid_to_string(buf: &[u8], off: usize) -> (text: String)
    ensures
        off + 16 <= buf@.len() ==> text@ == guid_text(buf@, off as int),
        off + 16 > buf@.len() ==> text@.len() == 0,
{
    let mut text = String::new();
    if buf.len() < 16 || off > buf.len() - 16 {
        return text;
    }
    assert(off + 16 <= buf.len());
    push_hex(&mut text, read_u32_le(buf, off) as u64, 8);
    text.append("-");
    push_hex(&mut text, read_u16_le(buf, off + 4) as u64, 4);
    text.append("-");
    push_hex(&mut text, read_u16_le(buf, off + 6) as u64, 4);
    text.append("-");
    push_hex(&mut text, buf[off + 8] as u64, 2);
    push_hex(&mut text, buf[off + 9] as u64, 2);
    text.append("-");
    push_hex(&mut text, buf[off + 10] as u64, 2);
    push_hex(&mut text, buf[off + 11] as u64, 2);
    push_hex(&mut text, buf[off + 12] as u64, 2);
    push_hex(&mut text, buf[off + 13] as u64, 2);
    push_hex(&mut text, buf[off + 14] as u64, 2);
    push_hex(&mut text, buf[off + 15] as u64, 2);
    assert(text@ =~= guid_text(buf@, off as int));
    text
}

/// What a partition type GUID, in upper case, stands for.
pub open spec fn gpt_type_name(guid: Seq<char>) -> Seq<char> {
    if guid == "EBD0A0A2-B9E5-4433-87C0-68B6B72699C7"@ {
        "Microsoft Basic Data (FAT32/NTFS/exFAT)"@
    } else if guid == "C12A7328-F81F-11D2-BA4B-00A0C93EC93B"@ {
        "EFI System (FAT32)"@
    } else if guid == "0FC63DAF-8483-4772-8E79-3D69D8477DE4"@ {
        "Linux filesystem"@
    } else if guid == "0657FD6D-A4AB-43C4-84E5-0933C84B4F4F"@ {
        "Linux swap"@
    } else if guid == "E6D6D379-F507-44C2-A23C-238F2A3DF928"@ {
        "Linux LVM"@
    } else if guid == "A19D880F-05FC-4D3B-A006-743F0F84911E"@ {
        "Linux RAID"@
    } else if guid == "BFC0C1A0-604D-46C1-99EA-097E43B8F539"@ {
        "Linux /boot (ext)"@
    } else if guid == "933AC7E1-2EB4-4F13-B844-0E14E2AEF915"@ {
        "Linux /home (ext)"@
    } else if guid == "3B8F8425-20E0-4F3B-907F-1A25A76F98E8"@ {
        "Linux /root (ext)"@
    } else if guid == "D3BFE2DE-3DAF-11DF-BA40-E3A556D89593"@ {
        "Intel Rapid Start"@
    } else if guid == "DE94BBA4-06D1-4D40-A16A-BFD50179D6AC"@ {
        "Windows Recovery"@
    } else {
        "Unknown"@
    }
}

/// What a partition type GUID, in upper case, stands for.
pub fn gpt_type_text(guid: &str) -> (name: &'static str)
    ensures
        name@ == gpt_type_name(guid@),
{
    if same_text(guid, "EBD0A0A2-B9E5-4433-87C0-68B6B72699C7") {
        "Microsoft Basic Data (FAT32/NTFS/exFAT)"
    } else if same_text(guid, "C12A7328-F81F-11D2-BA4B-00A0C93EC93B") {
        "EFI System (FAT32)"
    } else if same_text(guid, "0FC63DAF-8483-4772-8E79-3D69D8477DE4") {
        "Linux filesystem"
    } else if same_text(guid, "0657FD6D-A4AB-43C4-84E5-0933C84B4F4F") {
        "Linux swap"
    } else if same_text(guid, "E6D6D379-F507-44C2-A23C-238F2A3DF928") {
        "Linux LVM"
    } else if same_text(guid, "A19D880F-05FC-4D3B-A006-743F0F84911E") {
        "Linux RAID"
    } else if same_text(guid, "BFC0C1A0-604D-46C1-99EA-097E43B8F539") {
        "Linux /boot (ext)"
    } else if same_text(guid, "933AC7E1-2EB4-4F13-B844-0E14E2AEF915") {
        "Linux /home (ext)"
    } else if same_text(guid, "3B8F8425-20E0-4F3B-907F-1A25A76F98E8") {
        "Linux /root (ext)"
    } else if same_text(guid, "D3BFE2DE-3DAF-11DF-BA40-E3A556D89593") {
        "Intel Rapid Start"
    } else if same_text(guid, "DE94BBA4-06D1-4D40-A16A-BFD50179D6AC") {
        "Windows Recovery"
    } else {
        "Unknown"
    }
}

/// What a partition type GUID, in upper or lower case, stands for.
pub fn fs_type_from_gpt_guid(guid: &str) -> (name: &'static str)
    ensures
        name@ == gpt_type_name(uppercase(guid@)),
        is_ascii_chars(guid@) ==> name@ == gpt_type_name(ascii_uppercase(guid@)),
{
    let upper = to_uppercase(guid);
    gpt_type_text(upper.as_str())
}

/// Whether a character is one that `hex` writes, or a hyphen.
spec fn guid_char(c: char) -> bool {
    '0' <= c <= '9' || 'A' <= c <= 'F' || c == '-'
}

spec fn guid_chars(s: Seq<char>) -> bool {
    forall|i: int| 0 <= i < s.len() ==> guid_char(#[trigger] s[i])
}

proof fn lemma_hex_chars(n: nat, width: nat)
    ensures
        guid_chars(hex(n, width)),
    decreases n + width,
{
    if !(n < 16 && width <= 1) {
        lemma_hex_chars(n / 16, if width == 0 { 0 } else { (width - 1) as nat });
    }
}

/// The text of a GUID is ASCII and already in upper case.
pub proof fn law_guid_text_is_upper_case(buf: Seq<u8>, off: int)
    ensures
        is_ascii_chars(guid_text(buf, off)),
        ascii_uppercase(guid_text(buf, off)) == guid_text(buf, off),
{
    reveal_strlit("-");
    lemma_hex_chars(le_u32(buf, off) as nat, 8);
    lemma_hex_chars(le_u16(buf, off + 4) as nat, 4);
    lemma_hex_chars(le_u16(buf, off + 6) as nat, 4);
    lemma_hex_chars(buf[off + 8] as nat, 2);
    lemma_hex_chars(buf[off + 9] as nat, 2);
    lemma_hex_chars(buf[off + 10] as nat, 2);
    lemma_hex_chars(buf[off + 11] as nat, 2);
    lemma_hex_chars(buf[off + 12] as nat, 2);
    lemma_hex_chars(buf[off + 13] as nat, 2);
    lemma_hex_chars(buf[off + 14] as nat, 2);
    lemma_hex_chars(buf[off + 15] as nat, 2);
    let text = guid_text(buf, off);
    assert(guid_chars(text));
    assert(ascii_uppercase(text) =~= text);
}

// ---------------------------------------------------------------------------------------------
// Names
// ---------------------------------------------------------------------------------------------

/// The most UTF-16 units in the name of a partition.
pub const MAX_NAME_UNITS: usize = 36;

/// The units of the name at `at`, from unit `k` on, up to the first that is zero.
pub open spec fn gpt_units(buf: Seq<u8>, at: int, k: int) -> Seq<u16>
    decreases MAX_NAME_UNITS - k,
{
    let unit = le_u16(buf, at + 2 * k);
    if k >= MAX_NAME_UNITS || unit == 0 {
        seq![]
    } else {
        seq![unit as u16] + gpt_units(buf, at, k + 1)
    }
}

/// The name at `at`.
pub open spec fn gpt_name(buf: Seq<u8>, at: int) -> Seq<char> {
    utf16_lossy(gpt_units(buf, at, 0))
}

/// Whether the units of the name at `at`, from unit `k` up to the first that is zero, lie within
/// the buffer.
pub open spec fn gpt_name_readable(buf: Seq<u8>, at: int, k: int) -> bool
    decreases MAX_NAME_UNITS - k,
{
    k >= MAX_NAME_UNITS || {
        &&& at + 2 * k + 2 <= buf.len()
        &&& le_u16(buf, at + 2 * k) != 0 ==> gpt_name_readable(buf, at, k + 1)
    }
}

/// Reads the name at `off`, where it lies within the buffer.
fn try_gpt_name(buf: &[u8], off: usize) -> (name: Option<String>)
    requires
        off <= buf@.len(),
    ensures
        name is Some <==> gpt_name_readable(buf@, off as int, 0),
        name matches Some(n) ==> n@ == gpt_name(buf@, off as int),
{
    let size: usize = buf.len();
    let mut units: Vec<u16> = Vec::new();
    let mut k: usize = 0;
    let mut go_on: bool = true;
    while go_on && k < MAX_NAME_UNITS
        invariant
            size == buf@.len(),
            off <= size,
            k <= MAX_NAME_UNITS,
            go_on ==> units@ + gpt_units(buf@, off as int, k as int) =~= gpt_units(
                buf@,
                off as int,
                0,
            ),
            go_on ==> gpt_name_readable(buf@, off as int, 0) == gpt_name_readable(
                buf@,
                off as int,
                k as int,
            ),
            !go_on ==> units@ =~= gpt_units(buf@, off as int, 0) && gpt_name_readable(
                buf@,
                off as int,
                0,
            ),
        decreases MAX_NAME_UNITS - k + (if go_on { 1int } else { 0 }),
    {
        if size - off < 2 * k + 2 {
            return None;
        }
        let unit: u16 = read_u16_le(buf, off + 2 * k);
        if unit == 0 {
            go_on = false;
        } else {
            units.push(unit);
            k = k + 1;
        }
    }
    assert(go_on ==> gpt_units(buf@, off as int, k as int) =~= seq![]);
    Some(decode_utf16_lossy(units.as_slice()))
}

/// Reads the name at `off`.
pub fn read_gpt_partition_name(buf: &[u8], off: usize) -> (name: String)
    requires
        off <= buf@.len(),
        gpt_name_readable(buf@, off as int, 0),
    ensures
        name@ == gpt_name(buf@, off as int),
{
    match try_gpt_name(buf, off) {
        Some(name) => name,
        None => {
            assert(false);
            String::new()
        },
    }
}

/// A name of at most 36 units and without a zero character is read back as it was stored, with a
/// zero behind it where it is shorter.
pub proof fn law_gpt_name_recovers(buf: Seq<u8>, at: int, name: Seq<char>)
    requires
        utf16_encode(name).len() <= 36,
        forall|k: int|
            0 <= k < utf16_encode(name).len() ==> {
                let unit = #[trigger] utf16_encode(name)[k];
                le_u16(buf, at + 2 * k) == unit && unit != 0
            },
        utf16_encode(name).len() < 36 ==> le_u16(buf, at + 2 * utf16_encode(name).len()) == 0,
    ensures
        gpt_name(buf, at) == name,
{
    lemma_gpt_units(buf, at, utf16_encode(name), 0);
    assert(utf16_encode(name).skip(0) =~= utf16_encode(name));
    crate::text::law_utf16_recovers(name);
}

proof fn lemma_gpt_units(buf: Seq<u8>, at: int, units: Seq<u16>, k: int)
    requires
        0 <= k <= units.len() <= MAX_NAME_UNITS,
        forall|j: int|
            0 <= j < units.len() ==> le_u16(buf, at + 2 * j) == #[trigger] units[j] && units[j]
                != 0,
        units.len() < MAX_NAME_UNITS ==> le_u16(buf, at + 2 * units.len()) == 0,
    ensures
        gpt_units(buf, at, k) == units.skip(k),
    decreases units.len() - k,
{
    if k < units.len() {
        lemma_gpt_units(buf, at, units, k + 1);
        assert(units[k] != 0);
        assert(units.skip(k) =~= seq![units[k]] + units.skip(k + 1));
    } else {
        assert(units.skip(k) =~= seq![]);
    }
}

// ---------------------------------------------------------------------------------------------
// Entries
// ---------------------------------------------------------------------------------------------

/// Whether the entry at `off` is not in use: its type GUID is all zero.
pub open spec fn gpt_entry_unused(buf: Seq<u8>, off: int) -> bool {
    forall|k: int| off <= k < off + 16 ==> buf[k] == 0
}

/// The number of sectors from `start` to `end`, both counted in; one where `end` lies before.
pub open spec fn sectors_between(start: int, end: int) -> int {
    if end >= start {
        end - start + 1
    } else {
        1
    }
}

/// The partition that entry `i`, at `off`, describes.
#[verifier::opaque]
pub open spec fn gpt_entry(buf: Seq<u8>, i: int, off: int) -> PartitionModel {
    let start = le_u64(buf, off + 32);
    let end = le_u64(buf, off + 40);
    let count = sectors_between(start, end);
    let kind = gpt_type_name(guid_text(buf, off));
    let name = gpt_name(buf, off + 56);
    let what = if name.len() == 0 {
        kind
    } else {
        "\""@ + name + "\" - "@ + kind
    };
    PartitionModel {
        start_lba: start as u64,
        num_sectors: count as u64,
        fs_type_byte: 0,
        label: "Partition "@ + decimal((i + 1) as nat) + ": "@ + what + " (LBA "@ + decimal(
            start as nat,
        ) + ".."@ + decimal(end as nat) + ", "@ + decimal(count as nat) + " sectors)"@,
    }
}

/// The partitions of the entries from `i` on, out of `count` entries of `size` bytes.
pub open spec fn gpt_partitions(buf: Seq<u8>, count: int, size: int, i: int) -> Seq<PartitionModel>
    decreases count - i,
{
    if i >= count || i * size + 16 > buf.len() {
        seq![]
    } else if gpt_entry_unused(buf, i * size) {
        gpt_partitions(buf, count, size, i + 1)
    } else {
        seq![gpt_entry(buf, i, i * size)] + gpt_partitions(buf, count, size, i + 1)
    }
}

/// Every partition of a GPT has a sector, and none has a type byte.
pub proof fn law_gpt_partitions(buf: Seq<u8>, count: int, size: int, i: int)
    requires
        gpt_readable(buf, count, size, i),
    ensures
        forall|k: int|
            0 <= k < gpt_partitions(buf, count, size, i).len() ==> {
                let part = #[trigger] gpt_partitions(buf, count, size, i)[k];
                part.fs_type_byte == 0 && part.num_sectors >= 1
            },
    decreases count - i,
{
    reveal(gpt_entry);
    if i < count && i * size + 16 <= buf.len() {
        law_gpt_partitions(buf, count, size, i + 1);
        let all = gpt_partitions(buf, count, size, i);
        let rest = gpt_partitions(buf, count, size, i + 1);
        assert forall|k: int| 0 <= k < all.len() implies {
            let part = #[trigger] all[k];
            part.fs_type_byte == 0 && part.num_sectors >= 1
        } by {
            if gpt_entry_unused(buf, i * size) {
                assert(all[k] == rest[k]);
            } else if k > 0 {
                assert(all[k] == rest[k - 1]);
            }
        }
    }
}

/// Every entry of a GPT that is in use and is come to is among the partitions.
pub proof fn law_used_gpt_entry_is_listed(buf: Seq<u8>, count: int, size: int, i: int, k: int)
    requires
        0 <= i <= k < count,
        size >= 0,
        k * size + 16 <= buf.len(),
        !gpt_entry_unused(buf, k * size),
    ensures
        gpt_partitions(buf, count, size, i).contains(gpt_entry(buf, k, k * size)),
    decreases k - i,
{
    let all = gpt_partitions(buf, count, size, i);
    let entry = gpt_entry(buf, k, k * size);
    assert(i * size <= k * size) by (nonlinear_arith)
        requires
            i <= k,
            size >= 0,
    ;
    if i == k {
        assert(all[0] == entry);
    } else {
        law_used_gpt_entry_is_listed(buf, count, size, i + 1, k);
        let rest = gpt_partitions(buf, count, size, i + 1);
        let j = choose|j: int| 0 <= j < rest.len() && rest[j] == entry;
        if gpt_entry_unused(buf, i * size) {
            assert(all[j] == entry);
        } else {
            assert(all[j + 1] == entry);
        }
    }
}

/// Whether the entry at `off` can be read: what is read of it lies within the buffer, and the
/// number of its sectors is within 64 bits.
pub open spec fn gpt_entry_readable(buf: Seq<u8>, off: int) -> bool {
    &&& off + 48 <= buf.len()
    &&& gpt_name_readable(buf, off + 56, 0)
    &&& sectors_between(le_u64(buf, off + 32), le_u64(buf, off + 40)) <= u64::MAX
}

/// Whether the entries from `i` on that are in use can be read.
pub open spec fn gpt_readable(buf: Seq<u8>, count: int, size: int, i: int) -> bool
    decreases count - i,
{
    i < count && i * size + 16 <= buf.len() ==> {
        &&& gpt_entry_unused(buf, i * size) || gpt_entry_readable(buf, i * size)
        &&& gpt_readable(buf, count, size, i + 1)
    }
}

fn is_entry_unused(buf: &[u8], off: usize) -> (answer: bool)
    requires
        off + 16 <= buf@.len(),
    ensures
        answer == gpt_entry_unused(buf@, off as int),
{
    let size: usize = buf.len();
    let mut k: usize = 0;
    while k < 16
        invariant
            size == buf@.len(),
            off + 16 <= size,
            k <= 16,
            forall|j: int| off <= j < off + k ==> buf@[j] == 0,
        decreases 16 - k,
    {
        if buf[off + k] != 0 {
            assert(buf@[off + k] != 0);
            return false;
        }
        k = k + 1;
    }
    true
}

/// Reads the partition that entry `i`, at `off`, describes, where it can be read.
fn read_gpt_entry(buf: &[u8], i: u32, off: usize) -> (part: Option<Partition>)
    requires
        off + 16 <= buf@.len(),
    ensures
        part is Some <==> gpt_entry_readable(buf@, off as int),
        part matches Some(p) ==> p@ == gpt_entry(buf@, i as int, off as int),
{
    let size: usize = buf.len();
    if size - off < 48 {
        return None;
    }
    let start: u64 = read_u64_le(buf, off + 32);
    let end: u64 = read_u64_le(buf, off + 40);
    let span: u64 = if end >= start {
        end - start
    } else {
        0
    };
    if span == u64::MAX {
        return None;
    }
    let count: u64 = span + 1;
    if size - off < 56 {
        assert(!gpt_name_readable(buf@, off + 56, 0));
        return None;
    }
    let name = match try_gpt_name(buf, off + 56) {
        Some(name) => name,
        None => {
            return None;
        },
    };
    let guid = guid_to_string(buf, off);
    proof {
        law_guid_text_is_upper_case(buf@, off as int);
    }
    let kind = fs_type_from_gpt_guid(guid.as_str());
    let mut label = String::new();
    label.append("Partition ");
    push_decimal(&mut label, i as u64 + 1);
    label.append(": ");
    if !name.as_str().is_empty() {
        label.append("\"");
        label.append(name.as_str());
        label.append("\" - ");
    }
    label.append(kind);
    label.append(" (LBA ");
    push_decimal(&mut label, start);
    label.append("..");
    push_decimal(&mut label, end);
    label.append(", ");
    push_decimal(&mut label, count);
    label.append(" sectors)");
    proof {
        reveal(gpt_entry);
    }
    assert(label@ =~= gpt_entry(buf@, i as int, off as int).label);
    Some(Partition { start_lba: start, num_sectors: count, fs_type_byte: 0, label })
}

/// Reads the partitions that the entries describe, where the entries can be read.
pub fn try_parse_gpt(buf: &[u8], header: &GptHeader) -> (parts: Option<Vec<Partition>>)
    requires
        header.entry_size > 0,
    ensures
        parts is Some <==> gpt_readable(buf@, header.count as int, header.entry_size as int, 0),
        parts matches Some(p) ==> partition_models(p@) == gpt_partitions(
            buf@,
            header.count as int,
            header.entry_size as int,
            0,
        ),
{
    let size: usize = buf.len();
    let ghost (n, m) = (header.count as int, header.entry_size as int);
    let mut parts: Vec<Partition> = Vec::new();
    let mut i: u32 = 0;
    let mut off: usize = 0;
    let mut go_on: bool = true;
    assert(partition_models(parts@) =~= seq![]);
    while go_on && i < header.count && size >= 16 && off <= size - 16
        invariant
            size == buf@.len(),
            n == header.count,
            m == header.entry_size,
            m > 0,
            i <= header.count,
            go_on ==> off == i * m,
            go_on ==> partition_models(parts@) + gpt_partitions(buf@, n, m, i as int)
                =~= gpt_partitions(buf@, n, m, 0),
            go_on ==> gpt_readable(buf@, n, m, 0) == gpt_readable(buf@, n, m, i as int),
            !go_on ==> partition_models(parts@) =~= gpt_partitions(buf@, n, m, 0) && gpt_readable(
                buf@,
                n,
                m,
                0,
            ),
        decreases header.count - i + (if go_on { 1int } else { 0 }),
    {
        if !is_entry_unused(buf, off) {
            match read_gpt_entry(buf, i, off) {
                Some(part) => {
                    let ghost had = parts@;
                    parts.push(part);
                    assert(partition_models(parts@) =~= partition_models(had).push(part@));
                },
                None => {
                    return None;
                },
            }
        }
        assert((i + 1) * m == i * m + m) by (nonlinear_arith);
        i = i + 1;
        if header.entry_size as usize > size - off {
            assert(i * m + 16 > size);
            assert(gpt_partitions(buf@, n, m, i as int) =~= seq![]);
            assert(gpt_readable(buf@, n, m, i as int));
            go_on = false;
        } else {
            off = off + header.entry_size as usize;
        }
    }
    assert(go_on ==> gpt_partitions(buf@, n, m, i as int) =~= seq![]);
    assert(go_on ==> gpt_readable(buf@, n, m, i as int));
    Some(parts)
}

/// Reads the partitions that the entries describe.
pub fn parse_gpt(buf: &[u8], header: &GptHeader) -> (parts: Vec<Partition>)
    requires
        header.entry_size > 0,
        gpt_readable(buf@, header.count as int, header.entry_size as int, 0),
    ensures
        partition_models(parts@) == gpt_partitions(
            buf@,
            header.count as int,
            header.entry_size as int,
            0,
        ),
{
    match try_parse_gpt(buf, header) {
        Some(parts) => parts,
        None => {
            assert(false);
            Vec::new()
        },
    }
}

} // verus!
