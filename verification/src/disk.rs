//! Partition tables: MBR and GPT.

use vstd::prelude::*;
use crate::bytes::{le_u16, le_u32};
use crate::text::{decimal, hex, push_decimal, push_hex};

pub use crate::bytes::{read_u16_le, read_u32_le, read_u64_le};
pub use crate::disk_scan::{scan_disk, scan_partition};
pub use crate::gpt::parse_gpt;

verus! {

/// The last two bytes of a master boot record.
pub const MBR_SIGNATURE: u16 = 0xAA55;

/// A partition of a disk.
#[derive(Debug, Clone)]
pub struct Partition {
    /// The first sector, counted in sectors of 512 bytes.
    pub start_lba: u64,
    pub num_sectors: u64,
    /// The type byte of an MBR entry; 0 for a GPT entry.
    pub fs_type_byte: u8,
    /// A line that describes the partition.
    pub label: String,
}

/// A partition as contracts speak of it.
pub struct PartitionModel {
    pub start_lba: u64,
    pub num_sectors: u64,
    pub fs_type_byte: u8,
    pub label: Seq<char>,
}

impl View for Partition {
    type V = PartitionModel;

    open spec fn view(&self) -> PartitionModel {
        PartitionModel {
            start_lba: self.start_lba,
            num_sectors: self.num_sectors,
            fs_type_byte: self.fs_type_byte,
            label: self.label@,
        }
    }
}

/// Partitions as contracts speak of them.
pub open spec fn partition_models(parts: Seq<Partition>) -> Seq<PartitionModel> {
    Seq::new(parts.len(), |i: int| parts[i]@)
}

// ---------------------------------------------------------------------------------------------
// MBR
// ---------------------------------------------------------------------------------------------

/// What an MBR type byte stands for.
pub open spec fn mbr_type_name(fs_type: u8) -> Seq<char> {
    if fs_type == 0x01 {
        "FAT12"@
    } else if fs_type == 0x04 {
        "FAT16"@
    } else if fs_type == 0x06 {
        "FAT16B"@
    } else if fs_type == 0x07 {
        "NTFS/exFAT"@
    } else if fs_type == 0x0B {
        "FAT32"@
    } else if fs_type == 0x0C {
        "FAT32 (LBA)"@
    } else if fs_type == 0x0E {
        "FAT16B (LBA)"@
    } else if fs_type == 0x0F {
        "Extended (LBA)"@
    } else if fs_type == 0x82 {
        "Linux swap"@
    } else if fs_type == 0x83 {
        "Linux ext"@
    } else if fs_type == 0x8E {
        "Linux LVM"@
    } else if fs_type == 0xEE {
        "GPT protective"@
    } else {
        "Unknown"@
    }
}

/// The partition that entry `i` of an MBR describes.
pub open spec fn mbr_entry(mbr: Seq<u8>, i: int) -> PartitionModel {
    let off = 446 + i * 16;
    let fs_type = mbr[off + 4];
    let start = le_u32(mbr, off + 8);
    let count = le_u32(mbr, off + 12);
    PartitionModel {
        start_lba: start as u64,
        num_sectors: count as u64,
        fs_type_byte: fs_type,
        label: "Partition "@ + decimal((i + 1) as nat) + ": "@ + mbr_type_name(fs_type) + " (LBA "@
            + decimal(start as nat) + ", "@ + decimal(count as nat) + " sectors, type 0x"@ + hex(
            fs_type as nat,
            2,
        ) + ")"@,
    }
}

/// Whether entry `i` of an MBR describes a partition: it has a type and a size.
pub open spec fn mbr_entry_used(mbr: Seq<u8>, i: int) -> bool {
    mbr[446 + i * 16 + 4] != 0 && le_u32(mbr, 446 + i * 16 + 12) != 0
}

/// The partitions of the first `n` entries of an MBR.
pub open spec fn mbr_entries(mbr: Seq<u8>, n: nat) -> Seq<PartitionModel>
    decreases n,
{
    if n == 0 {
        seq![]
    } else if mbr_entry_used(mbr, n - 1) {
        mbr_entries(mbr, (n - 1) as nat).push(mbr_entry(mbr, n - 1))
    } else {
        mbr_entries(mbr, (n - 1) as nat)
    }
}

/// The partitions of an MBR: none without the signature.
pub open spec fn mbr_partitions(mbr: Seq<u8>) -> Seq<PartitionModel> {
    if le_u16(mbr, 510) == MBR_SIGNATURE {
        mbr_entries(mbr, 4)
    } else {
        seq![]
    }
}

/// A master boot record holds four partitions at most, each with a type and a size.
pub proof fn law_mbr_partitions(mbr: Seq<u8>)
    ensures
        mbr_partitions(mbr).len() <= 4,
        forall|i: int|
            0 <= i < mbr_partitions(mbr).len() ==> {
                let part = #[trigger] mbr_partitions(mbr)[i];
                part.fs_type_byte != 0 && part.num_sectors != 0
            },
{
    lemma_mbr_entries(mbr, 4);
}

proof fn lemma_mbr_entries(mbr: Seq<u8>, n: nat)
    ensures
        mbr_entries(mbr, n).len() <= n,
        forall|i: int|
            0 <= i < mbr_entries(mbr, n).len() ==> {
                let part = #[trigger] mbr_entries(mbr, n)[i];
                part.fs_type_byte != 0 && part.num_sectors != 0
            },
    decreases n,
{
    if n > 0 {
        lemma_mbr_entries(mbr, (n - 1) as nat);
    }
}

/// Every used entry of a signed master boot record is among the partitions.
pub proof fn law_used_mbr_entry_is_listed(mbr: Seq<u8>, k: int)
    requires
        le_u16(mbr, 510) == MBR_SIGNATURE,
        0 <= k < 4,
        mbr_entry_used(mbr, k),
    ensures
        mbr_partitions(mbr).contains(mbr_entry(mbr, k)),
{
    lemma_used_mbr_entry(mbr, k, 4);
}

proof fn lemma_used_mbr_entry(mbr: Seq<u8>, k: int, n: nat)
    requires
        0 <= k < n,
        mbr_entry_used(mbr, k),
    ensures
        mbr_entries(mbr, n).contains(mbr_entry(mbr, k)),
    decreases n,
{
    let all = mbr_entries(mbr, n);
    let before = mbr_entries(mbr, (n - 1) as nat);
    if k == n - 1 {
        assert(all.last() == mbr_entry(mbr, k));
    } else {
        lemma_used_mbr_entry(mbr, k, (n - 1) as nat);
        let j = choose|j: int| 0 <= j < before.len() && before[j] == mbr_entry(mbr, k);
        assert(all[j] == mbr_entry(mbr, k));
    }
}

fn mbr_type_text(fs_type: u8) -> (name: &'static str)
    ensures
        name@ == mbr_type_name(fs_type),
{
    match fs_type {
        0x01 => "FAT12",
        0x04 => "FAT16",
        0x06 => "FAT16B",
        0x07 => "NTFS/exFAT",
        0x0B => "FAT32",
        0x0C => "FAT32 (LBA)",
        0x0E => "FAT16B (LBA)",
        0x0F => "Extended (LBA)",
        0x82 => "Linux swap",
        0x83 => "Linux ext",
        0x8E => "Linux LVM",
        0xEE => "GPT protective",
        _ => "Unknown",
    }
}

/// Reads the partitions of a master boot record.
pub fn parse_mbr(buf: &[u8; 512]) -> (parts: Vec<Partition>)
    ensures
        partition_models(parts@) == mbr_partitions(buf@),
{
    let mut parts: Vec<Partition> = Vec::new();
    assert(partition_models(parts@) =~= seq![]);
    if read_u16_le(buf, 510) != MBR_SIGNATURE {
        return parts;
    }
    let mut i: usize = 0;
    while i < 4
        invariant
            i <= 4,
            partition_models(parts@) == mbr_entries(buf@, i as nat),
        decreases 4 - i,
    {
        let off: usize = 446 + i * 16;
        let fs_type: u8 = buf[off + 4];
        let start_lba: u64 = read_u32_le(buf, off + 8) as u64;
        let num_sectors: u64 = read_u32_le(buf, off + 12) as u64;
        if fs_type != 0 && num_sectors != 0 {
            let mut label = String::new();
            label.append("Partition ");
            push_decimal(&mut label, i as u64 + 1);
            label.append(": ");
            label.append(mbr_type_text(fs_type));
            label.append(" (LBA ");
            push_decimal(&mut label, start_lba);
            label.append(", ");
            push_decimal(&mut label, num_sectors);
            label.append(" sectors, type 0x");
            push_hex(&mut label, fs_type as u64, 2);
            label.append(")");
            let ghost before = parts@;
            let part = Partition { start_lba, num_sectors, fs_type_byte: fs_type, label };
            assert(part@.label =~= mbr_entry(buf@, i as int).label);
            parts.push(part);
            assert(partition_models(parts@) =~= partition_models(before).push(part@));
        }
        i = i + 1;
    }
    parts
}

} // verus!
