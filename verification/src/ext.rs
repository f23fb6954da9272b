//! ext2, ext3 and ext4: the geometry of a volume and its superblock.

use vstd::prelude::*;
use vstd::arithmetic::power2::*;
use crate::bytes::{le_u16, le_u32, read_u16_le, read_u32_le, two_to_the};

pub use crate::ext_scan::scan;

verus! {

/// The magic number of a superblock.
pub const EXT2_MAGIC: u16 = 0xEF53;

// ---------------------------------------------------------------------------------------------
// The superblock
// ---------------------------------------------------------------------------------------------

/// The geometry of an ext volume.
#[derive(Debug, Clone, Copy)]
pub struct ExtInfo {
    /// The number of bytes in a block.
    pub block_size: u32,
    pub inodes_per_group: u32,
    /// The number of bytes in an inode.
    pub inode_size: u16,
    /// The block in which the table of group descriptors begins.
    pub bgdt_block: u64,
    /// Where the volume begins on the device, in bytes.
    pub partition_offset: u64,
}

/// Whether the first bytes of a volume hold a superblock.
pub open spec fn has_superblock(buf: Seq<u8>) -> bool {
    le_u16(buf, 1080) == EXT2_MAGIC
}

/// Whether the block size that a superblock states can be computed: its exponent is below 32.
pub open spec fn ext_layout_fits(buf: Seq<u8>) -> bool {
    has_superblock(buf) ==> le_u32(buf, 1048) < 32
}

/// The ext volume that its first bytes describe: a block has 1024 bytes or a multiple of that by a
/// power of two up to 64, and an inode 128 to 2048 bytes. The superblock is at byte 1024 and the
/// group descriptors in the block behind it.
pub open spec fn ext_volume(buf: Seq<u8>) -> Option<ExtInfo> {
    let shift = le_u32(buf, 1048);
    let inode_size = le_u16(buf, 1112);
    if has_superblock(buf) && shift <= 6 && 128 <= inode_size <= 2048 {
        Some(
            ExtInfo {
                block_size: (1024 * pow2(shift as nat)) as u32,
                inodes_per_group: le_u32(buf, 1064) as u32,
                inode_size: inode_size as u16,
                bgdt_block: if shift == 0 {
                    2
                } else {
                    1
                },
                partition_offset: 0,
            },
        )
    } else {
        None
    }
}

/// Tells whether the first bytes of a volume hold a superblock.
pub fn is_superblock(buf: &[u8; 2048]) -> (answer: bool)
    ensures
        answer == has_superblock(buf@),
{
    read_u16_le(buf, 1080) == EXT2_MAGIC
}

/// Tells whether the block size that a superblock states can be computed.
pub fn check_ext_layout(buf: &[u8; 2048]) -> (answer: bool)
    ensures
        answer == ext_layout_fits(buf@),
{
    !is_superblock(buf) || read_u32_le(buf, 1048) < 32
}

/// Recognizes an ext volume by its first bytes.
pub fn probe_from_buf(buf: &[u8; 2048]) -> (info: Option<ExtInfo>)
    requires
        ext_layout_fits(buf@),
    ensures
        info == ext_volume(buf@),
{
    if !is_superblock(buf) {
        return None;
    }
    let shift: u32 = read_u32_le(buf, 1048);
    if shift > 6 {
        return None;
    }
    let inode_size: u16 = read_u16_le(buf, 1112);
    if inode_size < 128 || inode_size > 2048 {
        return None;
    }
    proof {
        lemma2_to64();
        if shift < 6 {
            lemma_pow2_strictly_increases(shift as nat, 6);
        }
    }
    let block_size: u32 = 1024 * two_to_the(shift as u8);
    let bgdt_block: u64 = if shift == 0 {
        2
    } else {
        1
    };
    Some(
        ExtInfo {
            block_size,
            inodes_per_group: read_u32_le(buf, 1064),
            inode_size,
            bgdt_block,
            partition_offset: 0,
        },
    )
}

impl ExtInfo {
    /// The byte offset of a group's descriptor.
    pub open spec fn group_at(self, group: int) -> int {
        self.partition_offset + self.bgdt_block * self.block_size + group * 32
    }

    /// The byte offset of an inode, by the block in which the inode table of its group begins and
    /// its place in the group.
    pub open spec fn inode_at(self, table: int, index: int) -> int {
        self.partition_offset + table * self.block_size + index * self.inode_size
    }

    /// The byte offset of a block.
    pub open spec fn block_at(self, block: int) -> int {
        self.partition_offset + block * self.block_size
    }

    /// Whether every group, inode and block has an address, and groups hold inodes.
    pub open spec fn addressable(self) -> bool {
        &&& self.inodes_per_group > 0
        &&& self.group_at(u32::MAX as int) <= u64::MAX
        &&& self.inode_at(u32::MAX as int, u32::MAX as int) <= u64::MAX
    }

    /// Every group, inode and block of an addressable volume has an address.
    pub proof fn law_addressable(self, a: u32, b: u32)
        requires
            self.addressable(),
        ensures
            0 <= self.bgdt_block * self.block_size,
            self.group_at(a as int) <= u64::MAX,
            0 <= a * self.block_size,
            0 <= b * self.inode_size,
            self.inode_at(a as int, b as int) <= u64::MAX,
            self.block_at(a as int) <= u64::MAX,
    {
        let (x, y) = (a as int, b as int);
        let (n, m, g) = (self.block_size as int, self.inode_size as int, self.bgdt_block as int);
        assert(0 <= x * n <= u32::MAX * n && 0 <= y * m <= u32::MAX * m && 0 <= g * n)
            by (nonlinear_arith)
            requires
                0 <= x <= u32::MAX,
                0 <= y <= u32::MAX,
                n >= 0,
                m >= 0,
                g >= 0,
        ;
    }

    /// Tells whether every group, inode and block has an address, and groups hold inodes.
    pub fn is_addressable(&self) -> (answer: bool)
        ensures
            answer == self.addressable(),
    {
        let (g, n, m): (u128, u128, u128) = (
            self.bgdt_block as u128,
            self.block_size as u128,
            self.inode_size as u128,
        );
        assert(0 <= g * n <= 0xFFFF_FFFF_FFFF_FFFF * 0xFFFF_FFFF) by (nonlinear_arith)
            requires
                0 <= g <= 0xFFFF_FFFF_FFFF_FFFF,
                0 <= n <= 0xFFFF_FFFF,
        ;
        let limit: u128 = u64::MAX as u128 - self.partition_offset as u128;
        self.inodes_per_group > 0 && g * n + 0xFFFF_FFFF * 32 <= limit && 0xFFFF_FFFF * n
            + 0xFFFF_FFFF * m <= limit
    }
}

/// A volume that a superblock describes is addressable, wherever in the lower half of a device's
/// address space it begins, if its groups hold inodes.
pub proof fn law_ext_volume_addressable(buf: Seq<u8>, partition_offset: u64)
    requires
        ext_volume(buf) is Some,
        ext_volume(buf)->0.inodes_per_group > 0,
        partition_offset <= u64::MAX / 2,
    ensures
        (ExtInfo { partition_offset, ..ext_volume(buf)->0 }).addressable(),
{
    let shift = le_u32(buf, 1048) as nat;
    lemma2_to64();
    if shift < 6 {
        lemma_pow2_strictly_increases(shift, 6);
    }
    lemma_pow2_pos(shift);
    let info = ExtInfo { partition_offset, ..ext_volume(buf)->0 };
    let (g, n, m) = (info.bgdt_block as int, info.block_size as int, info.inode_size as int);
    assert(g * n <= 2 * 65536) by (nonlinear_arith)
        requires
            0 <= g <= 2,
            0 <= n <= 65536,
    ;
    assert(u32::MAX as int * n + u32::MAX as int * m <= u32::MAX * (65536 + 2048))
        by (nonlinear_arith)
        requires
            0 <= n <= 65536,
            0 <= m <= 2048,
    ;
}

} // verus!
