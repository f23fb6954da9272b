//! Where things are on a volume: what a boot sector or a superblock stores is what a volume is
//! recognized with, and clusters, table entries, inodes and blocks lie one behind another.

use vstd::prelude::*;
use vstd::arithmetic::div_mod::lemma_fundamental_div_mod_converse;
use vstd::arithmetic::power2::*;
use crate::bytes::{has_tag, power_of_two};
use crate::ext::{ext_layout_fits, ext_volume, ExtInfo};
use crate::fat::{exfat_volume, fat32_fields, fat32_layout_fits, fat32_volume, ExfatInfo, Fat32Info};
use crate::ntfs::{ntfs_layout_fits, ntfs_volume, NtfsInfo};
use crate::ntfs_restore::cluster_len;
use crate::ntfs_scan::{cluster_count, cluster_offset, NtfsScanModel};
use crate::stored::{
    law_stored_u16_is_read_back, law_stored_u32_is_read_back, law_stored_u64_is_read_back,
    stores_u16, stores_u32, stores_u64,
};

verus! {

// ---------------------------------------------------------------------------------------------
// FAT32
// ---------------------------------------------------------------------------------------------

/// A FAT32 volume has its first table behind the reserved sectors, its clusters behind all tables,
/// and clusters and table entries one behind another without gap or overlap.
pub proof fn law_fat32_layout(info: Fat32Info, cluster: int)
    ensures
        info.entry_at(0) == info.partition_offset + info.reserved_sectors * info.bytes_per_sector,
        info.entry_at(cluster + 1) == info.entry_at(cluster) + 4,
        info.cluster_at(2) == info.entry_at(0) + info.num_fats * (info.sectors_per_fat
            * info.bytes_per_sector),
        info.cluster_at(2) == info.partition_offset + info.data_lba() * info.bytes_per_sector,
        info.cluster_at(cluster + 1) == info.cluster_at(cluster) + info.cluster_len(),
        info.cluster_len() == info.sectors_per_cluster * info.bytes_per_sector,
{
    let (r, f, s) = (
        info.reserved_sectors as int,
        info.num_fats as int,
        info.sectors_per_fat as int,
    );
    let (c, b) = (info.sectors_per_cluster as int, info.bytes_per_sector as int);
    assert(b * c == c * b) by (nonlinear_arith);
    assert((r + f * s + (2 - 2) * c) * b == r * b + f * (s * b)) by (nonlinear_arith);
    assert((r + f * s + (2 - 2) * c) * b == (r + f * s) * b) by (nonlinear_arith);
    assert((r + f * s + (cluster + 1 - 2) * c) * b == (r + f * s + (cluster - 2) * c) * b + b * c)
        by (nonlinear_arith);
}

/// Whether a boot sector stores the geometry of a FAT volume: each number in its field.
pub open spec fn stores_fat32(
    boot: Seq<u8>,
    info: Fat32Info,
    root_entries: int,
    total_sectors: int,
) -> bool {
    &&& boot.len() == 512
    &&& stores_u16(boot, 11, info.bytes_per_sector as int)
    &&& boot[13] == info.sectors_per_cluster
    &&& stores_u16(boot, 14, info.reserved_sectors as int)
    &&& boot[16] == info.num_fats
    &&& stores_u16(boot, 17, root_entries)
    &&& stores_u16(boot, 19, total_sectors) && total_sectors != 0 || stores_u16(boot, 19, 0)
        && stores_u32(boot, 32, total_sectors)
    &&& stores_u16(boot, 22, info.sectors_per_fat as int) && info.sectors_per_fat != 0
        || stores_u16(boot, 22, 0) && stores_u32(boot, 36, info.sectors_per_fat as int)
    &&& stores_u32(boot, 44, info.root_cluster as int)
}

proof fn lemma_fat32_fields(
    boot: Seq<u8>,
    info: Fat32Info,
    root_entries: int,
    total_sectors: int,
)
    requires
        stores_fat32(boot, info, root_entries, total_sectors),
        info.partition_offset == 0,
    ensures
        fat32_fields(boot) is Some <==> {
            &&& boot[510] == 0x55
            &&& boot[511] == 0xAA
            &&& 512 <= info.bytes_per_sector <= 4096
            &&& power_of_two(info.bytes_per_sector as int)
            &&& power_of_two(info.sectors_per_cluster as int)
            &&& info.num_fats != 0
            &&& info.sectors_per_fat != 0
            &&& total_sectors != 0
        },
        fat32_fields(boot) matches Some(fields) ==> fields.info == info && fields.total_sectors
            == total_sectors && fields.root_dir_entries == root_entries,
{
    law_stored_u16_is_read_back(boot, 11, info.bytes_per_sector as int);
    law_stored_u16_is_read_back(boot, 14, info.reserved_sectors as int);
    law_stored_u16_is_read_back(boot, 17, root_entries);
    law_stored_u32_is_read_back(boot, 44, info.root_cluster as int);
    if stores_u16(boot, 19, total_sectors) && total_sectors != 0 {
        law_stored_u16_is_read_back(boot, 19, total_sectors);
    } else {
        law_stored_u16_is_read_back(boot, 19, 0);
        law_stored_u32_is_read_back(boot, 32, total_sectors);
    }
    if stores_u16(boot, 22, info.sectors_per_fat as int) && info.sectors_per_fat != 0 {
        law_stored_u16_is_read_back(boot, 22, info.sectors_per_fat as int);
    } else {
        law_stored_u16_is_read_back(boot, 22, 0);
        law_stored_u32_is_read_back(boot, 36, info.sectors_per_fat as int);
    }
}

/// A FAT32 volume is recognized with the geometry that its boot sector stores, exactly where it has
/// at least 65525 clusters and a root directory in one of them. `root_sectors` is the number of
/// sectors of a fixed root directory, `clusters` the number of whole clusters in the sectors that
/// are left for data.
pub proof fn law_fat32_volume_is_recognized(
    boot: Seq<u8>,
    info: Fat32Info,
    root_entries: int,
    total_sectors: int,
    root_sectors: int,
    clusters: int,
)
    requires
        stores_fat32(boot, info, root_entries, total_sectors),
        info.partition_offset == 0,
        boot[510] == 0x55,
        boot[511] == 0xAA,
        512 <= info.bytes_per_sector <= 4096,
        power_of_two(info.bytes_per_sector as int),
        power_of_two(info.sectors_per_cluster as int),
        info.num_fats != 0,
        info.sectors_per_fat != 0,
        total_sectors != 0,
        (root_sectors - 1) * info.bytes_per_sector < root_entries * 32 <= root_sectors
            * info.bytes_per_sector,
        clusters >= 0,
        clusters * info.sectors_per_cluster <= total_sectors - info.reserved_sectors - info.num_fats
            * info.sectors_per_fat - root_sectors < (clusters + 1) * info.sectors_per_cluster,
    ensures
        fat32_layout_fits(boot),
        fat32_volume(boot) == if clusters >= 65525 && info.root_cluster >= 2 {
            Some(info)
        } else {
            None
        },
{
    lemma_fat32_fields(boot, info, root_entries, total_sectors);
    let fields = fat32_fields(boot)->0;
    let b = info.bytes_per_sector as int;
    let c = info.sectors_per_cluster as int;
    let up = root_entries * 32 + b - 1;
    assert(up == root_sectors * b + (up - root_sectors * b));
    assert((root_sectors - 1) * b == root_sectors * b - b) by (nonlinear_arith);
    lemma_fundamental_div_mod_converse(up, b, root_sectors, up - root_sectors * b);
    assert(fields.overhead() == info.reserved_sectors + info.num_fats * info.sectors_per_fat
        + root_sectors);
    let data = total_sectors - fields.overhead();
    assert((clusters + 1) * c == clusters * c + c) by (nonlinear_arith);
    assert(c > 0) by {
        let k = choose|k: nat| c == #[trigger] pow2(k);
        lemma_pow2_pos(k);
    }
    lemma_fundamental_div_mod_converse(data, c, clusters, data - clusters * c);
    assert(0 <= clusters * c) by (nonlinear_arith)
        requires
            clusters >= 0,
            c > 0,
    ;
}

/// A boot sector without the signature, or with a geometry that no FAT32 volume has, is not that of
/// a FAT32 volume.
pub proof fn law_other_boot_sectors_are_not_fat32(
    boot: Seq<u8>,
    info: Fat32Info,
    root_entries: int,
    total_sectors: int,
)
    requires
        stores_fat32(boot, info, root_entries, total_sectors),
        info.partition_offset == 0,
        boot[510] != 0x55 || boot[511] != 0xAA || info.bytes_per_sector < 512
            || info.bytes_per_sector > 4096 || !power_of_two(info.bytes_per_sector as int)
            || !power_of_two(info.sectors_per_cluster as int) || info.num_fats == 0
            || info.sectors_per_fat == 0 || total_sectors == 0,
    ensures
        fat32_volume(boot) is None,
{
    lemma_fat32_fields(boot, info, root_entries, total_sectors);
}

// ---------------------------------------------------------------------------------------------
// exFAT
// ---------------------------------------------------------------------------------------------

/// An exFAT volume has its table and its clusters where its boot sector says, and clusters and table
/// entries one behind another without gap or overlap.
pub proof fn law_exfat_layout(info: ExfatInfo, cluster: int)
    ensures
        info.entry_at(0) == info.partition_offset + info.fat_offset * info.bytes_per_sector,
        info.entry_at(cluster + 1) == info.entry_at(cluster) + 4,
        info.cluster_at(2) == info.partition_offset + info.cluster_heap_offset
            * info.bytes_per_sector,
        info.cluster_at(cluster + 1) == info.cluster_at(cluster) + info.cluster_len(),
        info.cluster_len() == info.sectors_per_cluster * info.bytes_per_sector,
{
    let h = info.cluster_heap_offset as int;
    let (c, b) = (info.sectors_per_cluster as int, info.bytes_per_sector as int);
    assert(b * c == c * b) by (nonlinear_arith);
    assert((h + (2 - 2) * c) * b == h * b) by (nonlinear_arith);
    assert((h + (cluster + 1 - 2) * c) * b == (h + (cluster - 2) * c) * b + b * c)
        by (nonlinear_arith);
}

/// An exFAT volume is recognized, exactly where its boot sector is signed and bears the name of the
/// file system, with sectors of 512 to 4096 bytes, at most 2048 sectors in a cluster and a root
/// directory in a cluster; and then with what its boot sector stores.
pub proof fn law_exfat_volume_is_recognized(
    boot: Seq<u8>,
    sector_shift: int,
    cluster_shift: int,
    fat_offset: u32,
    heap_offset: u32,
    root_cluster: u32,
)
    requires
        boot.len() == 512,
        boot[108] == sector_shift,
        boot[109] as int % 16 == cluster_shift,
        stores_u32(boot, 80, fat_offset as int),
        stores_u32(boot, 88, heap_offset as int),
        stores_u32(boot, 96, root_cluster as int),
    ensures
        exfat_volume(boot) is Some <==> {
            &&& boot[510] == 0x55
            &&& boot[511] == 0xAA
            &&& has_tag(boot, 3, "EXFAT   "@)
            &&& sector_shift == 9 || sector_shift == 10 || sector_shift == 11 || sector_shift == 12
            &&& cluster_shift < 12
            &&& root_cluster >= 2
        },
        exfat_volume(boot) matches Some(info) ==> {
            &&& info.bytes_per_sector == pow2(sector_shift as nat)
            &&& info.sectors_per_cluster == pow2(cluster_shift as nat)
            &&& info.fat_offset == fat_offset
            &&& info.cluster_heap_offset == heap_offset
            &&& info.root_cluster == root_cluster
            &&& info.partition_offset == 0
        },
{
    law_stored_u32_is_read_back(boot, 80, fat_offset as int);
    law_stored_u32_is_read_back(boot, 88, heap_offset as int);
    law_stored_u32_is_read_back(boot, 96, root_cluster as int);
    lemma2_to64();
    if sector_shift <= 12 && cluster_shift < 12 {
        if sector_shift < 12 {
            lemma_pow2_strictly_increases(sector_shift as nat, 12);
        }
        lemma_pow2_strictly_increases(cluster_shift as nat, 12);
    }
}

// ---------------------------------------------------------------------------------------------
// NTFS
// ---------------------------------------------------------------------------------------------

/// The clusters of an NTFS volume lie one behind another from its beginning, and its file records
/// one behind another from the beginning of the master file table.
pub proof fn law_ntfs_layout(info: NtfsInfo, cluster: int, index: int)
    ensures
        cluster_offset(info, 0) == info.partition_offset,
        cluster_offset(info, cluster + 1) == cluster_offset(info, cluster) + cluster_len(info),
        cluster_len(info) == info.sectors_per_cluster * info.bytes_per_sector,
        NtfsScanModel::open(info).record_at(0) == info.partition_offset + info.mft_start,
        NtfsScanModel::open(info).record_at(index + 1) == NtfsScanModel::open(info).record_at(index)
            + info.mft_record_size,
{
    let (b, s, m) = (
        info.bytes_per_sector as int,
        info.sectors_per_cluster as int,
        info.mft_record_size as int,
    );
    assert(0 * b * s == 0) by (nonlinear_arith);
    assert((cluster + 1) * b * s == cluster * b * s + b * s) by (nonlinear_arith);
    assert(b * s == s * b) by (nonlinear_arith);
    assert((index + 1) * m == index * m + m) by (nonlinear_arith);
}

/// A volume has as many clusters as fit whole into its sectors.
pub proof fn law_ntfs_cluster_count(info: NtfsInfo, clusters: int)
    requires
        info.sectors_per_cluster > 0,
        clusters * info.sectors_per_cluster <= info.total_sectors < (clusters + 1)
            * info.sectors_per_cluster,
    ensures
        cluster_count(info) == clusters,
{
    let s = info.sectors_per_cluster as int;
    let t = info.total_sectors as int;
    assert((clusters + 1) * s == clusters * s + s) by (nonlinear_arith);
    lemma_fundamental_div_mod_converse(t, s, clusters, t - clusters * s);
    assert(0 <= clusters <= t) by (nonlinear_arith)
        requires
            clusters * s <= t < clusters * s + s,
            s > 0,
            t >= 0,
    ;
}

/// Whether a boot sector stores the geometry of an NTFS volume whose master file table begins with
/// cluster `mft_cluster`: each number in its field, and the size of a file record either in
/// clusters or, where the byte is negative, as the exponent of a power of two.
pub open spec fn stores_ntfs(boot: Seq<u8>, info: NtfsInfo, mft_cluster: int) -> bool {
    &&& boot.len() == 512
    &&& stores_u16(boot, 11, info.bytes_per_sector as int)
    &&& boot[13] == info.sectors_per_cluster
    &&& stores_u64(boot, 40, info.total_sectors as int) && info.total_sectors != 0 || stores_u64(
        boot,
        40,
        0,
    ) && stores_u32(boot, 28, info.total_sectors as int)
    &&& stores_u64(boot, 48, mft_cluster)
    &&& boot[64] < 0x80 && info.mft_record_size == boot[64] * info.bytes_per_sector
        * info.sectors_per_cluster || boot[64] > 0xE0 && info.mft_record_size == pow2(
        (0x100 - boot[64]) as nat,
    )
    &&& info.mft_start == mft_cluster * info.bytes_per_sector * info.sectors_per_cluster
    &&& info.partition_offset == 0
}

/// An NTFS volume is recognized with the geometry that its boot sector stores, exactly where the
/// sector bears the name of the file system, sectors and clusters have sizes by powers of two,
/// sectors at least 512 bytes, file records between 256 and 65536 bytes, and the master file table
/// is not at the beginning.
pub proof fn law_ntfs_volume_is_recognized(boot: Seq<u8>, info: NtfsInfo, mft_cluster: int)
    requires
        stores_ntfs(boot, info, mft_cluster),
    ensures
        ntfs_layout_fits(boot),
        ntfs_volume(boot) == if has_tag(boot, 3, "NTFS    "@) && info.bytes_per_sector >= 512
            && power_of_two(info.bytes_per_sector as int) && power_of_two(
            info.sectors_per_cluster as int,
        ) && mft_cluster != 0 && 256 <= info.mft_record_size <= 65536 {
            Some(info)
        } else {
            None
        },
{
    law_stored_u16_is_read_back(boot, 11, info.bytes_per_sector as int);
    law_stored_u64_is_read_back(boot, 48, mft_cluster);
    if stores_u64(boot, 40, info.total_sectors as int) && info.total_sectors != 0 {
        law_stored_u64_is_read_back(boot, 40, info.total_sectors as int);
    } else {
        law_stored_u64_is_read_back(boot, 40, 0);
        law_stored_u32_is_read_back(boot, 28, info.total_sectors as int);
    }
}

// ---------------------------------------------------------------------------------------------
// ext
// ---------------------------------------------------------------------------------------------

/// No NTFS volume is recognized whose file records would have more bytes than a number of 32 bits
/// can count.
pub proof fn law_huge_ntfs_records_are_refused(boot: Seq<u8>)
    requires
        0x80 <= boot[64] <= 0xE0,
    ensures
        ntfs_volume(boot) is None,
{
    let exponent = (0x100 - boot[64]) as nat;
    lemma2_to64();
    if exponent > 32 {
        lemma_pow2_strictly_increases(32, exponent);
    }
}

/// The blocks of an ext volume lie one behind another from its beginning. The group descriptors of
/// 32 bytes lie one behind another from the beginning of their block, and the inodes of a group one
/// behind another from the beginning of the first block of its table, without gap or overlap.
pub proof fn law_ext_layout(info: ExtInfo, block: int, group: int, table: int, index: int)
    ensures
        info.block_at(0) == info.partition_offset,
        info.block_at(block + 1) == info.block_at(block) + info.block_size,
        info.group_at(0) == info.block_at(info.bgdt_block as int),
        info.group_at(group + 1) == info.group_at(group) + 32,
        info.inode_at(table, 0) == info.block_at(table),
        info.inode_at(table, index + 1) == info.inode_at(table, index) + info.inode_size,
{
    let (b, m) = (info.block_size as int, info.inode_size as int);
    assert((block + 1) * b == block * b + b) by (nonlinear_arith);
    assert((index + 1) * m == index * m + m) by (nonlinear_arith);
}

/// Whether the first bytes of a volume store the numbers of an ext superblock.
pub open spec fn stores_ext(
    buf: Seq<u8>,
    shift: int,
    inodes_per_group: u32,
    inode_size: u16,
) -> bool {
    &&& buf.len() == 2048
    &&& stores_u32(buf, 1048, shift)
    &&& stores_u32(buf, 1064, inodes_per_group as int)
    &&& stores_u16(buf, 1112, inode_size as int)
}

/// An ext volume is recognized, exactly where its superblock bears the magic number, blocks have at
/// most 65536 bytes and inodes 128 to 2048; and then with what its superblock stores. The group
/// descriptors stand in the block behind the one that holds the superblock.
pub proof fn law_ext_volume_is_recognized(
    buf: Seq<u8>,
    magic: int,
    shift: int,
    inodes_per_group: u32,
    inode_size: u16,
)
    requires
        stores_ext(buf, shift, inodes_per_group, inode_size),
        stores_u16(buf, 1080, magic),
    ensures
        ext_layout_fits(buf) <==> (magic == 0xEF53 ==> shift < 32),
        ext_volume(buf) is Some <==> magic == 0xEF53 && shift <= 6 && 128 <= inode_size <= 2048,
        ext_volume(buf) matches Some(info) ==> {
            &&& info.block_size == 1024 * pow2(shift as nat)
            &&& info.inodes_per_group == inodes_per_group
            &&& info.inode_size == inode_size
            &&& info.partition_offset == 0
            &&& (info.bgdt_block - 1) * info.block_size <= 1024 < info.bgdt_block * info.block_size
        },
{
    law_stored_u32_is_read_back(buf, 1048, shift);
    law_stored_u32_is_read_back(buf, 1064, inodes_per_group as int);
    law_stored_u16_is_read_back(buf, 1112, inode_size as int);
    law_stored_u16_is_read_back(buf, 1080, magic);
    lemma2_to64();
    if ext_volume(buf) is Some {
        if 0 < shift {
            lemma_pow2_strictly_increases(0, shift as nat);
        }
        if shift < 6 {
            lemma_pow2_strictly_increases(shift as nat, 6);
        }
        let info = ext_volume(buf)->0;
        let (g, b) = (info.bgdt_block as int, info.block_size as int);
        assert((g - 1) * b <= 1024 < g * b) by (nonlinear_arith)
            requires
                g == 2 && b == 1024 || g == 1 && b > 1024,
        ;
    }
}

} // verus!
