//! What partition tables store and what is made of it: which partitions there are, where they begin,
//! and which of them are scanned, as which volumes.

use vstd::prelude::*;
use crate::bytes::le_u64;
use crate::disk::{mbr_entries, mbr_entry, mbr_entry_used, mbr_partitions, mbr_type_name};
use crate::disk::PartitionModel;
use crate::disk_scan::{
    detected_line, end_pieces, files_in, gpt_parts, line, partition_piece, plan, protective,
    DiskTaskModel, EventModel, VolumeKind,
};
use crate::ext::ext_volume;
use crate::ext_scan::ExtDirModel;
use crate::exfat_scan::ExfatDirModel;
use crate::fat::{exfat_volume, fat32_volume};
use crate::fat_scan::Fat32DirModel;
use crate::gpt::{
    gpt_entry, gpt_entry_unused, gpt_header, gpt_name, gpt_name_readable, gpt_partitions,
    gpt_readable, gpt_type_name, guid_text, GptHeader,
};
use crate::ntfs::ntfs_volume;
use crate::ntfs_scan::NtfsScanModel;
use crate::stored::{
    law_stored_u32_is_read_back, law_stored_u64_is_read_back, law_tag_is_recognized, stores_bytes,
    stores_u32, stores_u64,
};
use crate::text::{decimal, hex};
use crate::text_laws::{digit_char, law_hex_digits};
use crate::volume::{
    boot_volume, law_detection_order, recognized, Detection, Volume, VolumeTaskModel,
};
use crate::walk::{visit, Device, Piece, Request, TaskModel};

verus! {

// ---------------------------------------------------------------------------------------------
// Master boot records
// ---------------------------------------------------------------------------------------------

/// Whether entry `i` of a master boot record stores a partition: its type, its first sector and the
/// number of its sectors, in the sixteen bytes of the entry.
pub open spec fn stores_mbr_entry(mbr: Seq<u8>, i: int, kind: u8, start: int, count: int) -> bool {
    &&& mbr[446 + 16 * i + 4] == kind
    &&& stores_u32(mbr, 446 + 16 * i + 8, start)
    &&& stores_u32(mbr, 446 + 16 * i + 12, count)
}

/// The partition that an entry stores is read back. The entry is used unless its type or the number
/// of its sectors is zero.
pub proof fn law_mbr_entry_is_read_back(mbr: Seq<u8>, i: int, kind: u8, start: int, count: int)
    requires
        stores_mbr_entry(mbr, i, kind, start, count),
    ensures
        mbr_entry_used(mbr, i) <==> kind != 0 && count != 0,
        mbr_entry(mbr, i).start_lba == start,
        mbr_entry(mbr, i).num_sectors == count,
        mbr_entry(mbr, i).fs_type_byte == kind,
        mbr_entry(mbr, i).label == "Partition "@ + decimal((i + 1) as nat) + ": "@ + mbr_type_name(
            kind,
        ) + " (LBA "@ + decimal(start as nat) + ", "@ + decimal(count as nat)
            + " sectors, type 0x"@ + hex(kind as nat, 2) + ")"@,
{
    law_stored_u32_is_read_back(mbr, 446 + 16 * i + 8, start);
    law_stored_u32_is_read_back(mbr, 446 + 16 * i + 12, count);
}

/// The partitions of a master boot record are those of its four entries that are used, in their
/// order; a record without the signature has none.
pub proof fn law_mbr_has_four_entries(mbr: Seq<u8>)
    ensures
        mbr[510] == 0x55 && mbr[511] == 0xAA ==> mbr_partitions(mbr) == entry_list(mbr, 0)
            + entry_list(mbr, 1) + entry_list(mbr, 2) + entry_list(mbr, 3),
        mbr[510] != 0x55 || mbr[511] != 0xAA ==> mbr_partitions(mbr).len() == 0,
{
    reveal_with_fuel(mbr_entries, 5);
    if mbr[510] == 0x55 && mbr[511] == 0xAA {
        assert(mbr_entries(mbr, 4) =~= entry_list(mbr, 0) + entry_list(mbr, 1) + entry_list(mbr, 2)
            + entry_list(mbr, 3));
    }
}

/// The partition of entry `i`, or none where it is not used.
pub open spec fn entry_list(mbr: Seq<u8>, i: int) -> Seq<PartitionModel> {
    if mbr_entry_used(mbr, i) {
        seq![mbr_entry(mbr, i)]
    } else {
        seq![]
    }
}

/// The name of a partition says what its type stands for.
pub proof fn law_types_have_names(kind: u8)
    ensures
        kind == 0x01 ==> mbr_type_name(kind) == "FAT12"@,
        kind == 0x04 ==> mbr_type_name(kind) == "FAT16"@,
        kind == 0x06 ==> mbr_type_name(kind) == "FAT16B"@,
        kind == 0x07 ==> mbr_type_name(kind) == "NTFS/exFAT"@,
        kind == 0x0B ==> mbr_type_name(kind) == "FAT32"@,
        kind == 0x0C ==> mbr_type_name(kind) == "FAT32 (LBA)"@,
        kind == 0x0E ==> mbr_type_name(kind) == "FAT16B (LBA)"@,
        kind == 0x0F ==> mbr_type_name(kind) == "Extended (LBA)"@,
        kind == 0x82 ==> mbr_type_name(kind) == "Linux swap"@,
        kind == 0x83 ==> mbr_type_name(kind) == "Linux ext"@,
        kind == 0x8E ==> mbr_type_name(kind) == "Linux LVM"@,
        kind == 0xEE ==> mbr_type_name(kind) == "GPT protective"@,
{
}

/// A type that is none of those with a name is called unknown.
pub proof fn law_other_types_are_unknown(kind: u8)
    requires
        !seq![
            0x01u8,
            0x04,
            0x06,
            0x07,
            0x0B,
            0x0C,
            0x0E,
            0x0F,
            0x82,
            0x83,
            0x8E,
            0xEE,
        ].contains(kind),
    ensures
        mbr_type_name(kind) == "Unknown"@,
{
    let named = seq![
        0x01u8,
        0x04,
        0x06,
        0x07,
        0x0B,
        0x0C,
        0x0E,
        0x0F,
        0x82,
        0x83,
        0x8E,
        0xEE,
    ];
    assert(named[0] == 0x01 && named[1] == 0x04 && named[2] == 0x06 && named[3] == 0x07);
    assert(named[4] == 0x0B && named[5] == 0x0C && named[6] == 0x0E && named[7] == 0x0F);
    assert(named[8] == 0x82 && named[9] == 0x83 && named[10] == 0x8E && named[11] == 0xEE);
}

// ---------------------------------------------------------------------------------------------
// GUID partition tables
// ---------------------------------------------------------------------------------------------

/// A header that bears the signature is read back as it is stored: the first sector of the entries,
/// their number and their size, where a size of zero stands for 128. Any other sector is no header.
pub proof fn law_gpt_header_is_read_back(sector: Seq<u8>, lba: int, count: int, size: int)
    requires
        stores_u64(sector, 72, lba),
        stores_u32(sector, 80, count),
        stores_u32(sector, 84, size),
    ensures
        gpt_header(sector) is Some <==> stores_bytes(
            sector,
            0,
            seq![0x45u8, 0x46, 0x49, 0x20, 0x50, 0x41, 0x52, 0x54],
        ),
        gpt_header(sector) matches Some(header) ==> {
            &&& header.entries_lba == lba
            &&& header.count == count
            &&& header.entry_size == if size == 0 {
                128
            } else {
                size
            }
        },
{
    law_stored_u64_is_read_back(sector, 72, lba);
    law_stored_u32_is_read_back(sector, 80, count);
    law_stored_u32_is_read_back(sector, 84, size);
    reveal_strlit("EFI PART");
    law_tag_is_recognized(sector, 0, "EFI PART"@);
    assert("EFI PART"@.map_values(|c: char| c as u8) =~= seq![
        0x45u8,
        0x46,
        0x49,
        0x20,
        0x50,
        0x41,
        0x52,
        0x54,
    ]);
}

/// The entries are read from the sector that the header states, in whole sectors: just those that
/// hold all entries, but not more than 65536 bytes. Without entries nothing is read.
pub proof fn law_gpt_entries_are_read(header: GptHeader)
    requires
        header.addressable(),
    ensures
        header.count == 0 || header.entry_size == 0 ==> header.entries_request() is None,
        header.count > 0 && header.entry_size > 0 ==> header.entries_request() is Some,
        header.entries_request() matches Some(request) ==> {
            &&& request.offset == header.entries_lba * 512
            &&& request.len as int % 512 == 0
            &&& request.len <= 65536
            &&& request.len - 512 < header.count * header.entry_size
            &&& header.count * header.entry_size <= 65536 ==> request.len >= header.count
                * header.entry_size
            &&& header.count * header.entry_size > 65536 ==> request.len == 65536
        },
{
    let (c, s) = (header.count as int, header.entry_size as int);
    assert(c == 0 || s == 0 ==> c * s == 0) by (nonlinear_arith);
    assert(c > 0 && s > 0 ==> c * s > 0) by (nonlinear_arith);
    assert(c >= 0 && s >= 0 ==> c * s >= 0) by (nonlinear_arith);
}

/// The entries have addresses where the first sector of them lies in the first 64-bit range of bytes,
/// or where there are none.
pub proof fn law_gpt_entries_have_addresses(header: GptHeader)
    ensures
        header.entries_lba <= 0x007F_FFFF_FFFF_FFFF || header.count == 0 || header.entry_size == 0
            ==> header.addressable(),
{
    let (c, s) = (header.count as int, header.entry_size as int);
    assert(c == 0 || s == 0 ==> c * s == 0) by (nonlinear_arith);
}

/// Entries of 128 bytes that were all read can be read as partitions, unless one of those that are
/// used reaches over the whole 64-bit range.
pub proof fn law_whole_gpt_entries_can_be_read(buf: Seq<u8>, count: int, i: int)
    requires
        0 <= i,
        128 * count <= buf.len(),
        forall|k: int|
            i <= k < count ==> #[trigger] gpt_entry_unused(buf, k * 128) || le_u64(
                buf,
                k * 128 + 40,
            ) - le_u64(buf, k * 128 + 32) < u64::MAX,
    ensures
        gpt_readable(buf, count, 128, i),
    decreases count - i,
{
    if i < count && i * 128 + 16 <= buf.len() {
        law_whole_gpt_entries_can_be_read(buf, count, i + 1);
        assert(gpt_entry_unused(buf, i * 128) || le_u64(buf, i * 128 + 40) - le_u64(
            buf,
            i * 128 + 32,
        ) < u64::MAX);
        lemma_gpt_name_readable(buf, i * 128 + 56, 0);
    }
}

proof fn lemma_gpt_name_readable(buf: Seq<u8>, at: int, k: int)
    requires
        0 <= k,
        at + 72 <= buf.len(),
    ensures
        gpt_name_readable(buf, at, k),
    decreases 36 - k,
{
    if k < 36 {
        lemma_gpt_name_readable(buf, at, k + 1);
    }
}

/// Two hexadecimal digits of a byte.
pub open spec fn two_digits(b: u8) -> Seq<char> {
    seq![digit_char(b as int / 16), digit_char(b as int % 16)]
}

proof fn lemma_two_digits(n: nat, b: u8, width: nat)
    requires
        width > 0,
    ensures
        hex((0x100 * n + b) as nat, width + 2) == hex(n, width) + two_digits(b),
        hex(b as nat, 2) == two_digits(b),
{
    let (high, low) = (b as int / 16, b as int % 16);
    law_hex_digits((16 * n + high) as nat, low, width + 1);
    law_hex_digits(n, high, width);
    assert(16 * (16 * n + high) + low == 0x100 * n + b);
    assert(hex((0x100 * n + b) as nat, width + 2) =~= hex(n, width) + two_digits(b));
    law_hex_digits(high as nat, low, 1);
    law_hex_digits(0, high, 0);
    assert(16 * high + low == b);
    assert(hex(b as nat, 2) =~= two_digits(b));
}

/// A GUID is written as its bytes in hexadecimal: the first four, the next two and the two behind
/// them each from the last to the first, and the others in their order, with dashes between.
pub proof fn law_guid_is_written(buf: Seq<u8>, off: int)
    ensures
        guid_text(buf, off) == two_digits(buf[off + 3]) + two_digits(buf[off + 2]) + two_digits(
            buf[off + 1],
        ) + two_digits(buf[off]) + seq!['-'] + two_digits(buf[off + 5]) + two_digits(buf[off + 4])
            + seq!['-'] + two_digits(buf[off + 7]) + two_digits(buf[off + 6]) + seq!['-']
            + two_digits(buf[off + 8]) + two_digits(buf[off + 9]) + seq!['-'] + two_digits(
            buf[off + 10],
        ) + two_digits(buf[off + 11]) + two_digits(buf[off + 12]) + two_digits(buf[off + 13])
            + two_digits(buf[off + 14]) + two_digits(buf[off + 15]),
{
    reveal_strlit("-");
    let (b0, b1, b2, b3) = (buf[off], buf[off + 1], buf[off + 2], buf[off + 3]);
    lemma_two_digits(b3 as nat, b2, 2);
    lemma_two_digits((0x100 * b3 + b2) as nat, b1, 4);
    lemma_two_digits((0x1_0000 * b3 + 0x100 * b2 + b1) as nat, b0, 6);
    lemma_two_digits(0, b3, 1);
    lemma_two_digits(buf[off + 5] as nat, buf[off + 4], 2);
    lemma_two_digits(buf[off + 7] as nat, buf[off + 6], 2);
    lemma_two_digits(0, buf[off + 5], 1);
    lemma_two_digits(0, buf[off + 7], 1);
    lemma_two_digits(0, buf[off + 8], 1);
    lemma_two_digits(0, buf[off + 9], 1);
    lemma_two_digits(0, buf[off + 10], 1);
    lemma_two_digits(0, buf[off + 11], 1);
    lemma_two_digits(0, buf[off + 12], 1);
    lemma_two_digits(0, buf[off + 13], 1);
    lemma_two_digits(0, buf[off + 14], 1);
    lemma_two_digits(0, buf[off + 15], 1);
    assert(0x100 * (0x1_0000 * b3 + 0x100 * b2 + b1) + b0 == b0 + 0x100 * b1 + 0x1_0000 * b2
        + 0x100_0000 * b3);
    assert("-"@ =~= seq!['-']);
}

/// The name of a partition of a GPT says what its type stands for. A type that is none of those with
/// a name is called unknown.
pub proof fn law_gpt_types_have_names(guid: Seq<char>)
    ensures
        guid == "EBD0A0A2-B9E5-4433-87C0-68B6B72699C7"@ ==> gpt_type_name(guid)
            == "Microsoft Basic Data (FAT32/NTFS/exFAT)"@,
        guid == "C12A7328-F81F-11D2-BA4B-00A0C93EC93B"@ ==> gpt_type_name(guid)
            == "EFI System (FAT32)"@,
        guid == "0FC63DAF-8483-4772-8E79-3D69D8477DE4"@ ==> gpt_type_name(guid)
            == "Linux filesystem"@,
        guid == "0657FD6D-A4AB-43C4-84E5-0933C84B4F4F"@ ==> gpt_type_name(guid) == "Linux swap"@,
        guid == "E6D6D379-F507-44C2-A23C-238F2A3DF928"@ ==> gpt_type_name(guid) == "Linux LVM"@,
        guid == "A19D880F-05FC-4D3B-A006-743F0F84911E"@ ==> gpt_type_name(guid) == "Linux RAID"@,
        guid == "BFC0C1A0-604D-46C1-99EA-097E43B8F539"@ ==> gpt_type_name(guid)
            == "Linux /boot (ext)"@,
        guid == "933AC7E1-2EB4-4F13-B844-0E14E2AEF915"@ ==> gpt_type_name(guid)
            == "Linux /home (ext)"@,
        guid == "3B8F8425-20E0-4F3B-907F-1A25A76F98E8"@ ==> gpt_type_name(guid)
            == "Linux /root (ext)"@,
        guid == "D3BFE2DE-3DAF-11DF-BA40-E3A556D89593"@ ==> gpt_type_name(guid)
            == "Intel Rapid Start"@,
        guid == "DE94BBA4-06D1-4D40-A16A-BFD50179D6AC"@ ==> gpt_type_name(guid)
            == "Windows Recovery"@,
        !seq![
            "EBD0A0A2-B9E5-4433-87C0-68B6B72699C7"@,
            "C12A7328-F81F-11D2-BA4B-00A0C93EC93B"@,
            "0FC63DAF-8483-4772-8E79-3D69D8477DE4"@,
            "0657FD6D-A4AB-43C4-84E5-0933C84B4F4F"@,
            "E6D6D379-F507-44C2-A23C-238F2A3DF928"@,
            "A19D880F-05FC-4D3B-A006-743F0F84911E"@,
            "BFC0C1A0-604D-46C1-99EA-097E43B8F539"@,
            "933AC7E1-2EB4-4F13-B844-0E14E2AEF915"@,
            "3B8F8425-20E0-4F3B-907F-1A25A76F98E8"@,
            "D3BFE2DE-3DAF-11DF-BA40-E3A556D89593"@,
            "DE94BBA4-06D1-4D40-A16A-BFD50179D6AC"@,
        ].contains(guid) ==> gpt_type_name(guid) == "Unknown"@,
{
    let named = seq![
        "EBD0A0A2-B9E5-4433-87C0-68B6B72699C7"@,
        "C12A7328-F81F-11D2-BA4B-00A0C93EC93B"@,
        "0FC63DAF-8483-4772-8E79-3D69D8477DE4"@,
        "0657FD6D-A4AB-43C4-84E5-0933C84B4F4F"@,
        "E6D6D379-F507-44C2-A23C-238F2A3DF928"@,
        "A19D880F-05FC-4D3B-A006-743F0F84911E"@,
        "BFC0C1A0-604D-46C1-99EA-097E43B8F539"@,
        "933AC7E1-2EB4-4F13-B844-0E14E2AEF915"@,
        "3B8F8425-20E0-4F3B-907F-1A25A76F98E8"@,
        "D3BFE2DE-3DAF-11DF-BA40-E3A556D89593"@,
        "DE94BBA4-06D1-4D40-A16A-BFD50179D6AC"@,
    ];
    reveal_strlit("EBD0A0A2-B9E5-4433-87C0-68B6B72699C7");
    reveal_strlit("C12A7328-F81F-11D2-BA4B-00A0C93EC93B");
    reveal_strlit("0FC63DAF-8483-4772-8E79-3D69D8477DE4");
    reveal_strlit("0657FD6D-A4AB-43C4-84E5-0933C84B4F4F");
    reveal_strlit("E6D6D379-F507-44C2-A23C-238F2A3DF928");
    reveal_strlit("A19D880F-05FC-4D3B-A006-743F0F84911E");
    reveal_strlit("BFC0C1A0-604D-46C1-99EA-097E43B8F539");
    reveal_strlit("933AC7E1-2EB4-4F13-B844-0E14E2AEF915");
    reveal_strlit("3B8F8425-20E0-4F3B-907F-1A25A76F98E8");
    reveal_strlit("D3BFE2DE-3DAF-11DF-BA40-E3A556D89593");
    reveal_strlit("DE94BBA4-06D1-4D40-A16A-BFD50179D6AC");
    assert(named[0][0] == 'E' && named[0][1] == 'B');
    assert(named[1][0] == 'C' && named[1][1] == '1');
    assert(named[2][0] == '0' && named[2][1] == 'F');
    assert(named[3][0] == '0' && named[3][1] == '6');
    assert(named[4][0] == 'E' && named[4][1] == '6');
    assert(named[5][0] == 'A' && named[5][1] == '1');
    assert(named[6][0] == 'B' && named[6][1] == 'F');
    assert(named[7][0] == '9' && named[7][1] == '3');
    assert(named[8][0] == '3' && named[8][1] == 'B');
    assert(named[9][0] == 'D' && named[9][1] == '3');
    assert(named[10][0] == 'D' && named[10][1] == 'E');
}

/// The partition that an entry of a GPT stores is read back: its first sector, and as many sectors
/// as lie from there to the last one, both counted. One that ends before it begins has one sector.
pub proof fn law_gpt_entry_is_read_back(buf: Seq<u8>, i: int, off: int, start: int, end: int)
    requires
        stores_u64(buf, off + 32, start),
        stores_u64(buf, off + 40, end),
        end - start < u64::MAX,
    ensures
        ({
            let part = gpt_entry(buf, i, off);
            let name = gpt_name(buf, off + 56);
            let kind = gpt_type_name(guid_text(buf, off));
            &&& part.start_lba == start
            &&& end >= start ==> part.start_lba + part.num_sectors - 1 == end
            &&& end < start ==> part.num_sectors == 1
            &&& part.fs_type_byte == 0
            &&& part.label == "Partition "@ + decimal((i + 1) as nat) + ": "@ + (if name.len() == 0 {
                kind
            } else {
                "\""@ + name + "\" - "@ + kind
            }) + " (LBA "@ + decimal(start as nat) + ".."@ + decimal(end as nat) + ", "@ + decimal(
                part.num_sectors as nat,
            ) + " sectors)"@
        }),
{
    reveal(gpt_entry);
    law_stored_u64_is_read_back(buf, off + 32, start);
    law_stored_u64_is_read_back(buf, off + 40, end);
}

/// An entry is unused exactly where all sixteen bytes of its type are zero.
pub proof fn law_unused_gpt_entries(buf: Seq<u8>, off: int)
    ensures
        gpt_entry_unused(buf, off) <==> stores_bytes(buf, off, Seq::new(16, |i: int| 0u8)),
{
    let zeros = Seq::new(16, |i: int| 0u8);
    if gpt_entry_unused(buf, off) {
        assert forall|i: int| 0 <= i < zeros.len() implies buf[off + i] == #[trigger] zeros[i] by {
            assert(buf[off + i] == 0);
        }
    }
    if stores_bytes(buf, off, zeros) {
        assert forall|k: int| off <= k < off + 16 implies buf[k] == 0 by {
            assert(buf[off + (k - off)] == zeros[k - off]);
        }
    }
}

/// The partitions of a GPT are those of its entries that are used, in their order, one entry every
/// `size` bytes, as far as there is a type to read.
pub proof fn law_gpt_entries_follow_one_another(buf: Seq<u8>, count: int, size: int, i: int)
    requires
        0 <= i < count,
        i * size + 16 <= buf.len(),
    ensures
        gpt_partitions(buf, count, size, i) == if gpt_entry_unused(buf, i * size) {
            gpt_partitions(buf, count, size, i + 1)
        } else {
            seq![gpt_entry(buf, i, i * size)] + gpt_partitions(buf, count, size, i + 1)
        },
        gpt_partitions(buf, count, size, count).len() == 0,
{
}

/// Entries that are not all in what was read are left out.
pub proof fn law_gpt_entries_end(buf: Seq<u8>, count: int, size: int, i: int)
    requires
        i * size + 16 > buf.len(),
    ensures
        gpt_partitions(buf, count, size, i).len() == 0,
{
}

/// The partitions of a disk with a GPT are those of the entries that its header states.
pub proof fn law_gpt_parts(header: GptHeader, entries: Seq<u8>)
    ensures
        gpt_parts(header, entries) == gpt_partitions(
            entries,
            header.count as int,
            header.entry_size as int,
            0,
        ),
{
}

// ---------------------------------------------------------------------------------------------
// What is scanned
// ---------------------------------------------------------------------------------------------

/// A partition is scanned from its first sector on, counted in sectors of 512 bytes. Of those in a
/// master boot record, extended ones and the one that stands for a GPT are passed over with a line.
pub proof fn law_partition_is_scanned(part: PartitionModel, gpt: bool)
    requires
        part.start_lba * 512 <= u64::MAX,
    ensures
        ({
            let kind = part.fs_type_byte;
            let extended = kind == 0x05 || kind == 0x0F || kind == 0x85;
            &&& gpt || !extended && kind != 0xEE ==> partition_piece(part, gpt) is Enter
                && partition_piece(part, gpt)->Enter_0 is Boot
                && partition_piece(part, gpt)->Enter_0->Boot_offset == 512 * part.start_lba
                && partition_piece(part, gpt)->Enter_0->Boot_label == part.label
            &&& !gpt && extended ==> partition_piece(part, gpt) == line(
                "Skipping extended partition: "@ + part.label,
            )
            &&& !gpt && kind == 0xEE ==> partition_piece(part, gpt) == line(
                "Skipping GPT protective MBR entry."@,
            )
        }),
{
}

/// A master boot record stands for a GPT exactly where one of its partitions has the type EE.
pub proof fn law_protective(parts: Seq<PartitionModel>, part: PartitionModel)
    ensures
        !protective(seq![]),
        protective(parts.push(part)) <==> protective(parts) || part.fs_type_byte == 0xEE,
{
    let all = parts.push(part);
    if protective(parts) {
        let i = choose|i: int| 0 <= i < parts.len() && (#[trigger] parts[i]).fs_type_byte == 0xEE;
        assert(all[i].fs_type_byte == 0xEE);
    }
    if part.fs_type_byte == 0xEE {
        assert(all[parts.len() as int].fs_type_byte == 0xEE);
    }
    if protective(all) && part.fs_type_byte != 0xEE {
        let i = choose|i: int| 0 <= i < all.len() && (#[trigger] all[i]).fs_type_byte == 0xEE;
        assert(parts[i].fs_type_byte == 0xEE);
    }
}

/// Partitions are counted, listed one after another, and then scanned one after another, each once.
pub proof fn law_plan(parts: Seq<PartitionModel>, gpt: bool)
    requires
        parts.len() > 0,
    ensures
        ({
            let n = parts.len() as int;
            let pieces = plan(parts, gpt);
            &&& pieces.len() == 2 * n + 2
            &&& pieces[0] == line(
                "Found "@ + decimal(parts.len()) + " "@ + (if gpt {
                    "GPT"@
                } else {
                    "MBR"@
                }) + " partition(s):"@,
            )
            &&& forall|i: int|
                0 <= i < n ==> #[trigger] pieces[i + 1] == line("  "@ + parts[i].label)
            &&& pieces[n + 1] == line(""@)
            &&& forall|i: int|
                0 <= i < n ==> #[trigger] pieces[n + 2 + i] == partition_piece(parts[i], gpt)
        }),
        plan(seq![], gpt) == seq![line("No partitions found."@)],
{
}

/// The files among events are those that events hold, in their order.
pub proof fn law_files_in(events: Seq<EventModel>, event: EventModel)
    ensures
        files_in(seq![]).len() == 0,
        files_in(events.push(event)) == (match event {
            EventModel::File(file) => files_in(events).push(file),
            _ => files_in(events),
        }),
{
    assert(events.push(event).drop_last() =~= events);
    assert(events.push(event).last() == event);
}

/// The scan of a disk begins with its first 512 bytes, the master boot record. Where that stands for
/// a GPT, the header of it is read from the next 512, and then its entries; where any of these
/// cannot be read or gives nothing, a line says so and the master boot record has to do.
pub proof fn law_partition_table_is_read(
    parts: Seq<PartitionModel>,
    header: GptHeader,
    mbr: Seq<u8>,
    sector: Seq<u8>,
    entries: Seq<u8>,
)
    ensures
        ({
            let first = DiskTaskModel::Mbr;
            let second = DiskTaskModel::Header { mbr: parts };
            let third = DiskTaskModel::Entries { mbr: parts, header };
            let instead = seq![line("GPT parsing failed, falling back to MBR."@)] + plan(
                parts,
                false,
            );
            &&& first.wants() == Some(Request { offset: 0, len: 512 })
            &&& first.pieces(None) == seq![line("ERROR: Cannot read MBR"@)]
            &&& first.next(None).wants() is None
            &&& protective(mbr_partitions(mbr)) ==> first.pieces(Some(mbr)) == seq![
                line("GPT protective MBR detected, parsing GPT table..."@),
            ] && first.next(Some(mbr)) == (DiskTaskModel::Header { mbr: mbr_partitions(mbr) })
            &&& !protective(mbr_partitions(mbr)) ==> first.pieces(Some(mbr)) == plan(
                mbr_partitions(mbr),
                false,
            ) && first.next(Some(mbr)).wants() is None
            &&& second.wants() == Some(Request { offset: 512, len: 512 })
            &&& second.pieces(None) == seq![line("Cannot read GPT header at LBA 1"@)] + instead
            &&& second.next(None).wants() is None
            &&& gpt_header(sector) is None ==> second.pieces(Some(sector)) == seq![
                line("No GPT signature found"@),
            ] + instead && second.next(Some(sector)).wants() is None
            &&& gpt_header(sector) matches Some(found) ==> {
                let told = line(
                    "GPT: "@ + decimal(found.count as nat) + " partition entries at LBA "@
                        + decimal(found.entries_lba as nat) + ", entry size "@ + decimal(
                        found.entry_size as nat,
                    ),
                );
                &&& found.entries_request() is Some ==> second.pieces(Some(sector)) == seq![told]
                    && second.next(Some(sector)) == (DiskTaskModel::Entries {
                    mbr: parts,
                    header: found,
                })
                &&& found.entries_request() is None ==> second.pieces(Some(sector)) == seq![told]
                    + instead && second.next(Some(sector)).wants() is None
            }
            &&& third.wants() == header.entries_request()
            &&& third.pieces(None) == seq![line("Cannot read GPT partition entries"@)] + instead
            &&& gpt_parts(header, entries).len() > 0 ==> third.pieces(Some(entries)) == plan(
                gpt_parts(header, entries),
                true,
            )
            &&& gpt_parts(header, entries).len() == 0 ==> third.pieces(Some(entries)) == instead
            &&& third.next(None).wants() is None
            &&& third.next(Some(entries)).wants() is None
        }),
{
}

/// A volume is recognized by its boot sector as FAT32 where it can be, then as exFAT, then as NTFS.
pub proof fn law_boot_volume(boot: Seq<u8>)
    ensures
        fat32_volume(boot) matches Some(info) ==> boot_volume(boot) == Some(Volume::Fat32(info)),
        fat32_volume(boot) is None && exfat_volume(boot) is Some ==> boot_volume(boot) == Some(
            Volume::Exfat(exfat_volume(boot)->0),
        ),
        fat32_volume(boot) is None && exfat_volume(boot) is None && ntfs_volume(boot) is Some
            ==> boot_volume(boot) == Some(Volume::Ntfs(ntfs_volume(boot)->0)),
        fat32_volume(boot) is None && exfat_volume(boot) is None && ntfs_volume(boot) is None
            ==> boot_volume(boot) is None,
{
}

/// The volume on a device is recognized by its first 512 bytes, or else, also where they cannot be
/// read, by the ext superblock in its first 2048.
pub proof fn law_detected_volume(device: Device)
    ensures
        ({
            let boot = device(Request { offset: 0, len: 512 });
            let start = device(Request { offset: 0, len: 2048 });
            let yielded = visit(Detection::Boot, device, 2)->0.yielded;
            &&& visit(Detection::Boot, device, 2) is Some
            &&& boot is Some && boot_volume(boot->0) is Some ==> yielded == seq![
                boot_volume(boot->0)->0,
            ]
            &&& (boot is None || boot_volume(boot->0) is None) && start is Some && ext_volume(
                start->0,
            ) is Some ==> yielded == seq![Volume::Ext(ext_volume(start->0)->0)]
            &&& (boot is None || boot_volume(boot->0) is None) && (start is None || ext_volume(
                start->0,
            ) is None) ==> yielded.len() == 0
        }),
{
    law_detection_order(device);
}

/// The scan of a volume is that of its root directory: the cluster that its boot sector states, or
/// inode 2; and on NTFS that of the master file table.
pub proof fn law_volume_scan_begins_at_the_root(volume: Volume)
    ensures
        volume matches Volume::Fat32(info) ==> VolumeTaskModel::open(volume)
            == VolumeTaskModel::Fat32(Fat32DirModel::open(info, info.root_cluster, seq![])),
        volume matches Volume::Exfat(info) ==> VolumeTaskModel::open(volume)
            == VolumeTaskModel::Exfat(ExfatDirModel::open(info, info.root_cluster, seq![])),
        volume matches Volume::Ext(info) ==> VolumeTaskModel::open(volume) == VolumeTaskModel::Ext(
            ExtDirModel::open(info, 2, seq![], true),
        ),
        volume matches Volume::Ntfs(info) ==> VolumeTaskModel::open(volume)
            == VolumeTaskModel::Ntfs(NtfsScanModel::open(info)),
{
}

/// A volume in a partition is the volume that was recognized, but for the place where it begins.
pub proof fn law_volume_in_a_partition(volume: Volume, offset: u64)
    ensures
        volume matches Volume::Fat32(info) ==> volume.at(offset) is Fat32 && {
            let moved = volume.at(offset)->Fat32_0;
            &&& moved.partition_offset == offset
            &&& moved.bytes_per_sector == info.bytes_per_sector
            &&& moved.sectors_per_cluster == info.sectors_per_cluster
            &&& moved.reserved_sectors == info.reserved_sectors
            &&& moved.num_fats == info.num_fats
            &&& moved.sectors_per_fat == info.sectors_per_fat
            &&& moved.root_cluster == info.root_cluster
        },
        volume matches Volume::Exfat(info) ==> volume.at(offset) is Exfat && {
            let moved = volume.at(offset)->Exfat_0;
            &&& moved.partition_offset == offset
            &&& moved.bytes_per_sector == info.bytes_per_sector
            &&& moved.sectors_per_cluster == info.sectors_per_cluster
            &&& moved.cluster_heap_offset == info.cluster_heap_offset
            &&& moved.fat_offset == info.fat_offset
            &&& moved.root_cluster == info.root_cluster
        },
        volume matches Volume::Ntfs(info) ==> volume.at(offset) is Ntfs && {
            let moved = volume.at(offset)->Ntfs_0;
            &&& moved.partition_offset == offset
            &&& moved.bytes_per_sector == info.bytes_per_sector
            &&& moved.sectors_per_cluster == info.sectors_per_cluster
            &&& moved.mft_start == info.mft_start
            &&& moved.mft_record_size == info.mft_record_size
            &&& moved.total_sectors == info.total_sectors
        },
        volume matches Volume::Ext(info) ==> volume.at(offset) is Ext && {
            let moved = volume.at(offset)->Ext_0;
            &&& moved.partition_offset == offset
            &&& moved.block_size == info.block_size
            &&& moved.inodes_per_group == info.inodes_per_group
            &&& moved.inode_size == info.inode_size
            &&& moved.bgdt_block == info.bgdt_block
        },
{
}

/// A partition is recognized by its first 512 bytes, where those bear the signature, or else by the
/// ext superblock in its first 2048. What is recognized is told and scanned where the partition
/// begins; otherwise a line tells what was missing.
pub proof fn law_partition_is_recognized(
    label: Seq<char>,
    offset: u64,
    boot: Seq<u8>,
    data: Seq<u8>,
)
    ensures
        ({
            let first = DiskTaskModel::Boot { label, offset };
            let signed = boot[510] == 0x55 && boot[511] == 0xAA;
            let volume = boot_volume(boot);
            let second = first.next(Some(boot));
            &&& first.wants() == Some(Request { offset, len: 512 })
            &&& first.next(None).wants() is None
            &&& first.pieces(None) == seq![line("  Cannot read boot sector for "@ + label)]
            &&& signed && volume is Some ==> second == DiskTaskModel::scan_of(volume->0, offset)
                && first.pieces(Some(boot)) == seq![line(detected_line(volume->0))]
            &&& !signed || volume is None ==> {
                let otherwise = if signed {
                    "  Unrecognized filesystem"@
                } else {
                    "  No boot signature for "@ + label
                };
                &&& first.pieces(Some(boot)).len() == 0
                &&& second.wants() == Some(Request { offset, len: 2048 })
                &&& ext_volume(data) matches Some(info) ==> second.next(Some(data))
                    == DiskTaskModel::scan_of(Volume::Ext(info), offset) && second.pieces(
                    Some(data),
                ) == seq![line(detected_line(Volume::Ext(info)))]
                &&& ext_volume(data) is None ==> second.next(Some(data)).wants() is None
                    && second.pieces(Some(data)) == seq![line(otherwise)]
                &&& second.next(None).wants() is None && second.pieces(None) == seq![
                    line(otherwise),
                ]
            }
        }),
{
}

/// The scan of a volume that was recognized in a partition is that of the volume moved to where the
/// partition begins, under the name of its kind; its failure is told once, when it ends.
pub proof fn law_scan_in_a_partition(volume: Volume, offset: u64, task: VolumeTaskModel)
    ensures
        DiskTaskModel::scan_of(volume, offset) is Volume,
        DiskTaskModel::scan_of(volume, offset)->Volume_task == VolumeTaskModel::open(
            volume.at(offset),
        ),
        DiskTaskModel::scan_of(volume, offset)->Volume_kind == (match volume {
            Volume::Fat32(_) => VolumeKind::Fat32,
            Volume::Exfat(_) => VolumeKind::Exfat,
            Volume::Ntfs(_) => VolumeKind::Ntfs,
            Volume::Ext(_) => VolumeKind::Ext,
        }),
        VolumeKind::Fat32.text() == "FAT32"@,
        VolumeKind::Exfat.text() == "exFAT"@,
        VolumeKind::Ntfs.text() == "NTFS"@,
        VolumeKind::Ext.text() == "ext4"@,
        detected_line(volume) == "  "@ + VolumeKind::of(volume).text() + " detected"@,
        task.wants() is Some || task.status() is Ok ==> end_pieces(
            VolumeKind::of(volume),
            task,
        ).len() == 0,
        task.wants() is None && task.status() is Err ==> end_pieces(VolumeKind::of(volume), task)
            == seq![Piece::<DiskTaskModel, EventModel>::Emit(
            EventModel::Failed(VolumeKind::of(volume), task.status()->Err_0),
        )],
{
}

} // verus!
