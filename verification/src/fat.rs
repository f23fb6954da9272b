//! FAT32 and exFAT: the geometry of a volume and its boot sector.

use vstd::prelude::*;
use vstd::arithmetic::power2::*;
use crate::bytes::{
    has_tag, is_power_of_two, le_u16, le_u32, power_of_two, read_u16_le, read_u32_le, tag_at,
    two_to_the,
};

pub use crate::exfat_scan::scan_exfat;
pub use crate::fat_restore::{restore_exfat, restore_fat32};
pub use crate::fat_scan::scan_fat32;

verus! {

// ---------------------------------------------------------------------------------------------
// FAT32
// ---------------------------------------------------------------------------------------------

/// The geometry of a FAT32 volume.
#[derive(Debug, Clone, Copy)]
pub struct Fat32Info {
    pub bytes_per_sector: u16,
    pub sectors_per_cluster: u8,
    pub reserved_sectors: u16,
    pub num_fats: u8,
    pub sectors_per_fat: u32,
    /// The first cluster of the root directory.
    pub root_cluster: u32,
    /// Where the volume begins on the device, in bytes.
    pub partition_offset: u64,
}

impl Fat32Info {
    /// The number of bytes in a cluster.
    pub open spec fn cluster_len(self) -> int {
        self.bytes_per_sector * self.sectors_per_cluster
    }

    /// The first sector of the data region: it follows the reserved sectors and the tables.
    pub open spec fn data_lba(self) -> int {
        self.reserved_sectors + self.num_fats * self.sectors_per_fat
    }

    /// The byte offset of a cluster; the first cluster of the data region has number 2.
    pub open spec fn cluster_at(self, cluster: int) -> int {
        self.partition_offset + (self.data_lba() + (cluster - 2) * self.sectors_per_cluster)
            * self.bytes_per_sector
    }

    /// The byte offset of a cluster's entry in the first allocation table.
    pub open spec fn entry_at(self, cluster: int) -> int {
        self.partition_offset + self.reserved_sectors * self.bytes_per_sector + cluster * 4
    }

    /// Whether every cluster and every table entry has an offset that a device can have.
    pub open spec fn addressable(self) -> bool {
        self.cluster_at(u32::MAX as int) <= u64::MAX && self.entry_at(u32::MAX as int) <= u64::MAX
    }

    /// In an addressable volume the offsets of any one cluster can be computed.
    pub proof fn lemma_addressable(self, cluster: u32)
        requires
            self.addressable(),
        ensures
            cluster >= 2 ==> 0 <= self.cluster_at(cluster as int) <= u64::MAX,
            0 <= self.entry_at(cluster as int) <= u64::MAX,
    {
        if cluster >= 2 {
            let spc = self.sectors_per_cluster as int;
            let bps = self.bytes_per_sector as int;
            let low = (cluster - 2) * spc;
            let high = (u32::MAX - 2) * spc;
            assert(0 <= low <= high) by (nonlinear_arith)
                requires
                    low == (cluster - 2) * spc,
                    high == (u32::MAX - 2) * spc,
                    2 <= cluster <= u32::MAX,
                    spc >= 0,
            ;
            let lba = self.data_lba();
            assert(0 <= self.num_fats * self.sectors_per_fat) by (nonlinear_arith);
            assert(0 <= (lba + low) * bps <= (lba + high) * bps) by (nonlinear_arith)
                requires
                    0 <= low <= high,
                    0 <= lba,
                    0 <= bps,
            ;
        }
        assert(0 <= self.reserved_sectors * self.bytes_per_sector) by (nonlinear_arith);
    }

    /// Every FAT32 volume that begins in the first half of the 64-bit range is addressable.
    pub proof fn law_addressable(self)
        requires
            self.partition_offset <= i64::MAX,
        ensures
            self.addressable(),
    {
        let (f, s) = (self.num_fats as int, self.sectors_per_fat as int);
        let (c, b) = (self.sectors_per_cluster as int, self.bytes_per_sector as int);
        let r = self.reserved_sectors as int;
        assert(0 <= f * s <= 0xFF * 0xFFFF_FFFF) by (nonlinear_arith)
            requires
                0 <= f <= 0xFF,
                0 <= s <= 0xFFFF_FFFF,
        ;
        let lba = self.data_lba() + (u32::MAX - 2) * c;
        assert(0 <= lba <= 0x200_0000_0000);
        assert(0 <= lba * b <= 0x200_0000_0000 * 0xFFFF) by (nonlinear_arith)
            requires
                0 <= lba <= 0x200_0000_0000,
                0 <= b <= 0xFFFF,
        ;
        assert(0 <= r * b <= 0xFFFF * 0xFFFF) by (nonlinear_arith)
            requires
                0 <= r <= 0xFFFF,
                0 <= b <= 0xFFFF,
        ;
    }

    /// Tells whether the volume is addressable.
    pub fn is_addressable(&self) -> (answer: bool)
        ensures
            answer == self.addressable(),
    {
        let zero = Fat32Info { partition_offset: 0, ..*self };
        proof {
            zero.law_addressable();
            zero.lemma_addressable(u32::MAX);
        }
        let cluster: u64 = zero.cluster_to_offset(u32::MAX);
        let entry: u64 = zero.fat_entry_offset(u32::MAX);
        assert(self.cluster_at(u32::MAX as int) == self.partition_offset + cluster);
        assert(self.entry_at(u32::MAX as int) == self.partition_offset + entry);
        cluster <= u64::MAX - self.partition_offset && entry <= u64::MAX - self.partition_offset
    }

    /// The number of bytes in a cluster.
    pub fn bytes_per_cluster(&self) -> (len: u64)
        ensures
            len == self.cluster_len(),
            len < 0x100_0000,
    {
        let (a, b): (u16, u8) = (self.bytes_per_sector, self.sectors_per_cluster);
        assert(0 <= a * b < 0x100_0000) by (nonlinear_arith)
            requires
                a <= 0xFFFF,
                b <= 0xFF,
        ;
        a as u64 * b as u64
    }

    /// The first sector of the data region.
    pub fn data_region_lba(&self) -> (lba: u64)
        ensures
            lba == self.data_lba(),
            lba < 0x100_0001_0000,
    {
        let (a, b): (u8, u32) = (self.num_fats, self.sectors_per_fat);
        assert(0 <= a * b < 0x100_0000_0000) by (nonlinear_arith)
            requires
                a <= 0xFF,
                b <= 0xFFFF_FFFF,
        ;
        self.reserved_sectors as u64 + a as u64 * b as u64
    }

    /// The byte offset of a cluster.
    pub fn cluster_to_offset(&self, cluster: u32) -> (offset: u64)
        requires
            cluster >= 2,
            self.cluster_at(cluster as int) <= u64::MAX,
        ensures
            offset == self.cluster_at(cluster as int),
    {
        let (c, b, s): (u32, u8, u16) = (
            cluster - 2,
            self.sectors_per_cluster,
            self.bytes_per_sector,
        );
        assert(0 <= c * b < 0x100_0000_0000) by (nonlinear_arith)
            requires
                c <= 0xFFFF_FFFF,
                b <= 0xFF,
        ;
        let lba: u64 = self.data_region_lba() + c as u64 * b as u64;
        assert(0 <= lba * s) by (nonlinear_arith);
        self.partition_offset + lba * s as u64
    }

    /// The byte offset of a cluster's entry in the first allocation table.
    pub fn fat_entry_offset(&self, cluster: u32) -> (offset: u64)
        requires
            self.entry_at(cluster as int) <= u64::MAX,
        ensures
            offset == self.entry_at(cluster as int),
    {
        let (a, b): (u16, u16) = (self.reserved_sectors, self.bytes_per_sector);
        assert(0 <= a * b < 0x1_0000_0000) by (nonlinear_arith)
            requires
                a <= 0xFFFF,
                b <= 0xFFFF,
        ;
        self.partition_offset + a as u64 * b as u64 + cluster as u64 * 4
    }
}

/// What a boot sector says of a FAT32 volume, as far as each field on its own goes.
pub struct Fat32Fields {
    pub info: Fat32Info,
    pub total_sectors: u32,
    pub root_dir_entries: u16,
}

/// The fields of a FAT32 boot sector; none where a field rules FAT32 out.
pub open spec fn fat32_fields(boot: Seq<u8>) -> Option<Fat32Fields> {
    let bytes_per_sector = le_u16(boot, 11);
    let sectors_per_cluster = boot[13];
    let num_fats = boot[16];
    let sectors_per_fat = if le_u16(boot, 22) != 0 {
        le_u16(boot, 22)
    } else {
        le_u32(boot, 36)
    };
    let total_sectors = if le_u16(boot, 19) != 0 {
        le_u16(boot, 19)
    } else {
        le_u32(boot, 32)
    };
    if boot_signed(boot) && 512 <= bytes_per_sector <= 4096 && power_of_two(bytes_per_sector)
        && power_of_two(sectors_per_cluster as int) && num_fats != 0 && sectors_per_fat != 0
        && total_sectors != 0 {
        Some(
            Fat32Fields {
                info: Fat32Info {
                    bytes_per_sector: bytes_per_sector as u16,
                    sectors_per_cluster,
                    reserved_sectors: le_u16(boot, 14) as u16,
                    num_fats,
                    sectors_per_fat: sectors_per_fat as u32,
                    root_cluster: le_u32(boot, 44) as u32,
                    partition_offset: 0,
                },
                total_sectors: total_sectors as u32,
                root_dir_entries: le_u16(boot, 17) as u16,
            },
        )
    } else {
        None
    }
}

/// Whether a sector ends with the boot signature.
pub open spec fn boot_signed(boot: Seq<u8>) -> bool {
    boot[510] == 0x55 && boot[511] == 0xAA
}

impl Fat32Fields {
    /// The sectors before the data region: the reserved ones, the tables and a fixed root
    /// directory.
    pub open spec fn overhead(self) -> int {
        self.info.data_lba() + (self.root_dir_entries * 32 + self.info.bytes_per_sector - 1)
            / self.info.bytes_per_sector as int
    }

    /// The number of clusters in the data region.
    pub open spec fn clusters(self) -> int {
        (self.total_sectors - self.overhead()) / self.info.sectors_per_cluster as int
    }
}

/// Whether what precedes the data region, as a boot sector states it, fits into the volume. No
/// cluster count can be computed otherwise.
pub open spec fn fat32_layout_fits(boot: Seq<u8>) -> bool {
    fat32_fields(boot) matches Some(fields) ==> fields.overhead() <= fields.total_sectors
}

/// The FAT32 volume that a boot sector describes. It takes 65525 clusters to be FAT32.
pub open spec fn fat32_volume(boot: Seq<u8>) -> Option<Fat32Info> {
    match fat32_fields(boot) {
        Some(fields) => if fields.clusters() >= 65525 && fields.info.root_cluster >= 2 {
            Some(fields.info)
        } else {
            None
        },
        None => None,
    }
}

fn read_fat32_fields(boot: &[u8; 512]) -> (fields: Option<Fat32Fields>)
    ensures
        fields == fat32_fields(boot@),
{
    if boot[510] != 0x55 || boot[511] != 0xAA {
        return None;
    }
    let bytes_per_sector: u16 = read_u16_le(boot, 11);
    if bytes_per_sector < 512 || bytes_per_sector > 4096 || !is_power_of_two(bytes_per_sector) {
        return None;
    }
    let sectors_per_cluster: u8 = boot[13];
    if !is_power_of_two(sectors_per_cluster as u16) {
        return None;
    }
    let num_fats: u8 = boot[16];
    if num_fats == 0 {
        return None;
    }
    let total_sectors_16: u16 = read_u16_le(boot, 19);
    let sectors_per_fat_16: u16 = read_u16_le(boot, 22);
    let sectors_per_fat: u32 = if sectors_per_fat_16 != 0 {
        sectors_per_fat_16 as u32
    } else {
        read_u32_le(boot, 36)
    };
    let total_sectors: u32 = if total_sectors_16 != 0 {
        total_sectors_16 as u32
    } else {
        read_u32_le(boot, 32)
    };
    if sectors_per_fat == 0 || total_sectors == 0 {
        return None;
    }
    Some(
        Fat32Fields {
            info: Fat32Info {
                bytes_per_sector,
                sectors_per_cluster,
                reserved_sectors: read_u16_le(boot, 14),
                num_fats,
                sectors_per_fat,
                root_cluster: read_u32_le(boot, 44),
                partition_offset: 0,
            },
            total_sectors,
            root_dir_entries: read_u16_le(boot, 17),
        },
    )
}

fn fat32_overhead(fields: &Fat32Fields) -> (sectors: u64)
    requires
        512 <= fields.info.bytes_per_sector,
    ensures
        sectors == fields.overhead(),
{
    let bps: u64 = fields.info.bytes_per_sector as u64;
    fields.info.data_region_lba() + (fields.root_dir_entries as u64 * 32 + bps - 1) / bps
}

/// Tells whether what precedes the data region, as a boot sector states it, fits into the volume.
pub fn check_fat32_layout(boot: &[u8; 512]) -> (answer: bool)
    ensures
        answer == fat32_layout_fits(boot@),
{
    match read_fat32_fields(boot) {
        Some(fields) => fat32_overhead(&fields) <= fields.total_sectors as u64,
        None => true,
    }
}

/// Recognizes a FAT32 volume by its boot sector.
pub fn probe_fat32_from_buf(buf: &[u8; 512]) -> (info: Option<Fat32Info>)
    requires
        fat32_layout_fits(buf@),
    ensures
        info == fat32_volume(buf@),
{
    match read_fat32_fields(buf) {
        Some(fields) => {
            proof {
                lemma_pow2_pos_of(fields.info.sectors_per_cluster as int);
            }
            let data_sectors: u64 = fields.total_sectors as u64 - fat32_overhead(&fields);
            let clusters: u64 = data_sectors / fields.info.sectors_per_cluster as u64;
            if clusters < 65525 || fields.info.root_cluster < 2 {
                None
            } else {
                Some(fields.info)
            }
        },
        None => None,
    }
}

proof fn lemma_pow2_pos_of(n: int)
    requires
        power_of_two(n),
    ensures
        n > 0,
{
    let k = choose|k: nat| n == #[trigger] pow2(k);
    lemma_pow2_pos(k);
}

// ---------------------------------------------------------------------------------------------
// exFAT
// ---------------------------------------------------------------------------------------------

/// The geometry of an exFAT volume.
#[derive(Debug, Clone, Copy)]
pub struct ExfatInfo {
    pub bytes_per_sector: u16,
    pub sectors_per_cluster: u32,
    /// The first sector of the cluster heap.
    pub cluster_heap_offset: u32,
    /// The first cluster of the root directory.
    pub root_cluster: u32,
    /// The first sector of the allocation table.
    pub fat_offset: u32,
    /// Where the volume begins on the device, in bytes.
    pub partition_offset: u64,
}

impl ExfatInfo {
    /// The number of bytes in a cluster.
    pub open spec fn cluster_len(self) -> int {
        self.bytes_per_sector * self.sectors_per_cluster
    }

    /// The byte offset of a cluster; the first cluster of the heap has number 2.
    pub open spec fn cluster_at(self, cluster: int) -> int {
        self.partition_offset + (self.cluster_heap_offset + (cluster - 2)
            * self.sectors_per_cluster) * self.bytes_per_sector
    }

    /// The byte offset of a cluster's entry in the allocation table.
    pub open spec fn entry_at(self, cluster: int) -> int {
        self.partition_offset + self.fat_offset * self.bytes_per_sector + cluster * 4
    }

    /// Whether every cluster and every table entry has an offset that a device can have, and a
    /// cluster fits into memory.
    pub open spec fn addressable(self) -> bool {
        &&& self.cluster_at(u32::MAX as int) <= u64::MAX
        &&& self.entry_at(u32::MAX as int) <= u64::MAX
        &&& self.cluster_len() <= usize::MAX
    }

    /// In an addressable volume the offsets of any one cluster can be computed.
    pub proof fn lemma_addressable(self, cluster: u32)
        requires
            self.addressable(),
        ensures
            cluster >= 2 ==> 0 <= self.cluster_at(cluster as int) <= u64::MAX,
            0 <= self.entry_at(cluster as int) <= u64::MAX,
    {
        if cluster >= 2 {
            let spc = self.sectors_per_cluster as int;
            let bps = self.bytes_per_sector as int;
            let low = (cluster - 2) * spc;
            let high = (u32::MAX - 2) * spc;
            assert(0 <= low <= high) by (nonlinear_arith)
                requires
                    low == (cluster - 2) * spc,
                    high == (u32::MAX - 2) * spc,
                    2 <= cluster <= u32::MAX,
                    spc >= 0,
            ;
            let lba = self.cluster_heap_offset as int;
            assert(0 <= (lba + low) * bps <= (lba + high) * bps) by (nonlinear_arith)
                requires
                    0 <= low <= high,
                    0 <= lba,
                    0 <= bps,
            ;
        }
        assert(0 <= self.fat_offset * self.bytes_per_sector) by (nonlinear_arith);
    }

    /// Every exFAT volume that begins in the first half of the 64-bit range and has sectors and
    /// clusters of a size that the boot sector can state is addressable.
    pub proof fn law_addressable(self)
        requires
            self.partition_offset <= i64::MAX,
            self.bytes_per_sector <= 4096,
            self.sectors_per_cluster <= 2048,
        ensures
            self.addressable(),
    {
        let (c, b) = (self.sectors_per_cluster as int, self.bytes_per_sector as int);
        let f = self.fat_offset as int;
        let lba = self.cluster_heap_offset + (u32::MAX - 2) * c;
        assert(0 <= lba <= 0x1000_0000_0000);
        assert(0 <= lba * b <= 0x1000_0000_0000 * 4096) by (nonlinear_arith)
            requires
                0 <= lba <= 0x1000_0000_0000,
                0 <= b <= 4096,
        ;
        assert(0 <= f * b <= 0xFFFF_FFFF * 4096) by (nonlinear_arith)
            requires
                0 <= f <= 0xFFFF_FFFF,
                0 <= b <= 4096,
        ;
        assert(0 <= b * c <= 4096 * 2048) by (nonlinear_arith)
            requires
                0 <= c <= 2048,
                0 <= b <= 4096,
        ;
    }

    /// Tells whether the volume is addressable and a cluster fits into memory.
    pub fn is_addressable(&self) -> (answer: bool)
        ensures
            answer == self.addressable(),
    {
        let (c, b): (u128, u128) = (
            self.sectors_per_cluster as u128,
            self.bytes_per_sector as u128,
        );
        let lba: u128 = self.cluster_heap_offset as u128 + 0xFFFF_FFFD * c;
        assert(lba * b <= 0x1_0000_0001_0000_0000 * 0xFFFF) by (nonlinear_arith)
            requires
                lba <= 0x1_0000_0001_0000_0000,
                b <= 0xFFFF,
        ;
        let cluster: u128 = self.partition_offset as u128 + lba * b;
        let f: u128 = self.fat_offset as u128;
        assert(f * b <= 0xFFFF_FFFF * 0xFFFF) by (nonlinear_arith)
            requires
                f <= 0xFFFF_FFFF,
                b <= 0xFFFF,
        ;
        let entry: u128 = self.partition_offset as u128 + f * b + 0xFFFF_FFFF * 4;
        cluster <= u64::MAX as u128 && entry <= u64::MAX as u128 && self.bytes_per_cluster()
            <= usize::MAX as u64
    }

    /// The number of bytes in a cluster.
    pub fn bytes_per_cluster(&self) -> (len: u64)
        ensures
            len == self.cluster_len(),
    {
        let (a, b): (u16, u32) = (self.bytes_per_sector, self.sectors_per_cluster);
        assert(0 <= a * b < 0x1_0000_0000_0000) by (nonlinear_arith)
            requires
                a <= 0xFFFF,
                b <= 0xFFFF_FFFF,
        ;
        a as u64 * b as u64
    }

    /// The byte offset of a cluster.
    pub fn cluster_to_offset(&self, cluster: u32) -> (offset: u64)
        requires
            cluster >= 2,
            self.cluster_at(cluster as int) <= u64::MAX,
        ensures
            offset == self.cluster_at(cluster as int),
    {
        let (c, b, s): (u32, u32, u16) = (
            cluster - 2,
            self.sectors_per_cluster,
            self.bytes_per_sector,
        );
        assert(0 <= c * b <= 0xFFFF_FFFD * 0xFFFF_FFFF) by (nonlinear_arith)
            requires
                c <= 0xFFFF_FFFD,
                b <= 0xFFFF_FFFF,
        ;
        let lba: u64 = self.cluster_heap_offset as u64 + c as u64 * b as u64;
        assert(0 <= lba * s) by (nonlinear_arith);
        self.partition_offset + lba * s as u64
    }

    /// The byte offset of a cluster's entry in the allocation table.
    pub fn fat_entry_offset(&self, cluster: u32) -> (offset: u64)
        requires
            self.entry_at(cluster as int) <= u64::MAX,
        ensures
            offset == self.entry_at(cluster as int),
    {
        let (a, b): (u32, u16) = (self.fat_offset, self.bytes_per_sector);
        assert(0 <= a * b < 0x1_0000_0000_0000) by (nonlinear_arith)
            requires
                a <= 0xFFFF_FFFF,
                b <= 0xFFFF,
        ;
        self.partition_offset + a as u64 * b as u64 + cluster as u64 * 4
    }
}

/// The exFAT volume that a boot sector describes.
pub open spec fn exfat_volume(boot: Seq<u8>) -> Option<ExfatInfo> {
    let sector_shift = boot[108];
    let cluster_shift = boot[109] % 16;
    let root_cluster = le_u32(boot, 96);
    if boot_signed(boot) && has_tag(boot, 3, "EXFAT   "@) && 9 <= sector_shift <= 12
        && cluster_shift <= 11 && root_cluster >= 2 {
        Some(
            ExfatInfo {
                bytes_per_sector: pow2(sector_shift as nat) as u16,
                sectors_per_cluster: pow2(cluster_shift as nat) as u32,
                cluster_heap_offset: le_u32(boot, 88) as u32,
                root_cluster: root_cluster as u32,
                fat_offset: le_u32(boot, 80) as u32,
                partition_offset: 0,
            },
        )
    } else {
        None
    }
}

/// A volume that is recognized as exFAT is addressable wherever it begins in the first half of the
/// 64-bit range.
pub proof fn law_exfat_volume_addressable(boot: Seq<u8>, offset: u64)
    requires
        exfat_volume(boot) is Some,
        offset <= i64::MAX,
    ensures
        (ExfatInfo { partition_offset: offset, ..exfat_volume(boot)->0 }).addressable(),
{
    lemma2_to64();
    let info = ExfatInfo { partition_offset: offset, ..exfat_volume(boot)->0 };
    let (s, c) = (boot[108] as nat, (boot[109] % 16) as nat);
    assert(pow2(s) <= pow2(12)) by {
        if s < 12 {
            lemma_pow2_strictly_increases(s, 12);
        }
    }
    assert(pow2(c) <= pow2(11)) by {
        if c < 11 {
            lemma_pow2_strictly_increases(c, 11);
        }
    }
    info.law_addressable();
}

/// Recognizes an exFAT volume by its boot sector.
pub fn probe_exfat_from_buf(buf: &[u8; 512]) -> (info: Option<ExfatInfo>)
    ensures
        info == exfat_volume(buf@),
{
    if buf[510] != 0x55 || buf[511] != 0xAA {
        return None;
    }
    proof {
        reveal_strlit("EXFAT   ");
    }
    if !tag_at(buf, 3, "EXFAT   ") {
        return None;
    }
    let sector_shift: u8 = buf[108];
    if sector_shift < 9 || sector_shift > 12 {
        return None;
    }
    let cluster_shift: u8 = buf[109] % 16;
    if cluster_shift > 11 {
        return None;
    }
    let root_cluster: u32 = read_u32_le(buf, 96);
    if root_cluster < 2 {
        return None;
    }
    proof {
        lemma2_to64();
        if sector_shift < 12 {
            lemma_pow2_strictly_increases(sector_shift as nat, 12);
        }
    }
    let bytes_per_sector: u16 = two_to_the(sector_shift) as u16;
    Some(
        ExfatInfo {
            bytes_per_sector,
            sectors_per_cluster: two_to_the(cluster_shift),
            cluster_heap_offset: read_u32_le(buf, 88),
            root_cluster,
            fat_offset: read_u32_le(buf, 80),
            partition_offset: 0,
        },
    )
}

} // verus!
