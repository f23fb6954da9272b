//! NTFS: the geometry of a volume, its boot sector, and the attributes of a file record.

use std::collections::{HashMap, HashSet};
use vstd::prelude::*;
use vstd::arithmetic::power2::*;
use crate::bytes::{
    has_tag, is_power_of_two, le_u16, le_u32, le_u64, power_of_two, read_u16_le, read_u32_le,
    read_u64_le, tag_at, two_to_the,
};
use crate::text::{decode_utf16_lossy, join_reversed, joined, texts, utf16_lossy};

pub use crate::ntfs_restore::restore;
pub use crate::ntfs_scan::scan;

verus! {

// ---------------------------------------------------------------------------------------------
// The boot sector
// ---------------------------------------------------------------------------------------------

/// The geometry of an NTFS volume.
#[derive(Debug, Clone, Copy)]
pub struct NtfsInfo {
    pub bytes_per_sector: u16,
    pub sectors_per_cluster: u8,
    /// Where the master file table begins in the volume, in bytes.
    pub mft_start: u64,
    /// The number of bytes in a file record.
    pub mft_record_size: u32,
    pub total_sectors: u64,
    /// Where the volume begins on the device, in bytes.
    pub partition_offset: u64,
}

/// The number of bytes in a file record, from the byte that states it: as many clusters where it
/// is not negative, else as many bytes as the power of two whose exponent it negates.
pub open spec fn record_size(code: u8, bytes_per_sector: int, sectors_per_cluster: int) -> int {
    if code < 0x80 {
        code * bytes_per_sector * sectors_per_cluster
    } else {
        pow2((0x100 - code) as nat) as int
    }
}

/// Whether a boot sector has the tag and the sector and cluster sizes of an NTFS volume, and a
/// master file table.
pub open spec fn ntfs_shaped(boot: Seq<u8>) -> bool {
    &&& has_tag(boot, 3, "NTFS    "@)
    &&& le_u16(boot, 11) >= 512
    &&& power_of_two(le_u16(boot, 11))
    &&& power_of_two(boot[13] as int)
    &&& le_u64(boot, 48) != 0
}

/// The number of bytes in a file record, as a boot sector states it.
pub open spec fn stated_record_size(boot: Seq<u8>) -> int {
    record_size(boot[64], le_u16(boot, 11), boot[13] as int)
}

/// Where the master file table begins, as a boot sector states it.
pub open spec fn stated_mft_start(boot: Seq<u8>) -> int {
    le_u64(boot, 48) * le_u16(boot, 11) * boot[13]
}

/// Whether the record size and the place of the master file table that a boot sector states can
/// be computed: an exponent is below 32, and the place is one that a device can have.
pub open spec fn ntfs_layout_fits(boot: Seq<u8>) -> bool {
    ntfs_shaped(boot) ==> {
        &&& boot[64] < 0x80 || boot[64] > 0xE0
        &&& 256 <= stated_record_size(boot) <= 65536 ==> stated_mft_start(boot) <= u64::MAX
    }
}

/// The NTFS volume that a boot sector describes.
pub open spec fn ntfs_volume(boot: Seq<u8>) -> Option<NtfsInfo> {
    if ntfs_shaped(boot) && 256 <= stated_record_size(boot) <= 65536 {
        Some(
            NtfsInfo {
                bytes_per_sector: le_u16(boot, 11) as u16,
                sectors_per_cluster: boot[13],
                mft_start: stated_mft_start(boot) as u64,
                mft_record_size: stated_record_size(boot) as u32,
                total_sectors: if le_u64(boot, 40) != 0 {
                    le_u64(boot, 40) as u64
                } else {
                    le_u32(boot, 28) as u64
                },
                partition_offset: 0,
            },
        )
    } else {
        None
    }
}

fn is_ntfs_shaped(boot: &[u8; 512]) -> (answer: bool)
    ensures
        answer == ntfs_shaped(boot@),
{
    proof {
        reveal_strlit("NTFS    ");
    }
    let bytes_per_sector: u16 = read_u16_le(boot, 11);
    tag_at(boot, 3, "NTFS    ") && bytes_per_sector >= 512 && is_power_of_two(bytes_per_sector)
        && is_power_of_two(boot[13] as u16) && read_u64_le(boot, 48) != 0
}

fn read_record_size(boot: &[u8; 512]) -> (size: u64)
    requires
        boot@[64] < 0x80 || boot@[64] > 0xE0,
    ensures
        size == stated_record_size(boot@),
{
    let code: u8 = boot[64];
    if code < 0x80 {
        let bps: u64 = read_u16_le(boot, 11) as u64;
        let spc: u64 = boot[13] as u64;
        let c: u64 = code as u64;
        assert(c * bps <= 0x7F * 0xFFFF) by (nonlinear_arith)
            requires
                c <= 0x7F,
                bps <= 0xFFFF,
        ;
        let n: u64 = c * bps;
        assert(n * spc <= 0x7F * 0xFFFF * 0xFF) by (nonlinear_arith)
            requires
                n <= 0x7F * 0xFFFF,
                spc <= 0xFF,
        ;
        n * spc
    } else {
        two_to_the((0x100 - code as u16) as u8) as u64
    }
}

/// Tells whether what a boot sector states can be computed.
pub fn check_ntfs_layout(boot: &[u8; 512]) -> (answer: bool)
    ensures
        answer == ntfs_layout_fits(boot@),
{
    if !is_ntfs_shaped(boot) {
        return true;
    }
    if boot[64] >= 0x80 && boot[64] <= 0xE0 {
        return false;
    }
    let size: u64 = read_record_size(boot);
    if size < 256 || size > 65536 {
        return true;
    }
    let cluster: u128 = read_u64_le(boot, 48) as u128;
    let bps: u128 = read_u16_le(boot, 11) as u128;
    let spc: u128 = boot[13] as u128;
    assert(cluster * bps <= 0xFFFF_FFFF_FFFF_FFFF * 0xFFFF) by (nonlinear_arith)
        requires
            cluster <= 0xFFFF_FFFF_FFFF_FFFF,
            bps <= 0xFFFF,
    ;
    let sectors: u128 = cluster * bps;
    assert(sectors * spc <= 0xFFFF_FFFF_FFFF_FFFF * 0xFFFF * 0xFF) by (nonlinear_arith)
        requires
            sectors <= 0xFFFF_FFFF_FFFF_FFFF * 0xFFFF,
            spc <= 0xFF,
    ;
    sectors * spc <= u64::MAX as u128
}

/// Recognizes an NTFS volume by its boot sector.
pub fn probe_from_buf(buf: &[u8; 512]) -> (info: Option<NtfsInfo>)
    requires
        ntfs_layout_fits(buf@),
    ensures
        info == ntfs_volume(buf@),
{
    if !is_ntfs_shaped(buf) {
        return None;
    }
    let size: u64 = read_record_size(buf);
    if size < 256 || size > 65536 {
        return None;
    }
    let bytes_per_sector: u16 = read_u16_le(buf, 11);
    let sectors_per_cluster: u8 = buf[13];
    let cluster: u64 = read_u64_le(buf, 48);
    proof {
        let (a, b, c) = (cluster as int, bytes_per_sector as int, sectors_per_cluster as int);
        let k = choose|k: nat| c == #[trigger] pow2(k);
        lemma_pow2_pos(k);
        assert(0 <= a * b <= a * b * c) by (nonlinear_arith)
            requires
                a >= 0,
                b >= 0,
                c >= 1,
        ;
    }
    let mft_start: u64 = cluster * bytes_per_sector as u64 * sectors_per_cluster as u64;
    let sectors: u64 = read_u64_le(buf, 40);
    let total_sectors: u64 = if sectors != 0 {
        sectors
    } else {
        read_u32_le(buf, 28) as u64
    };
    Some(
        NtfsInfo {
            bytes_per_sector,
            sectors_per_cluster,
            mft_start,
            mft_record_size: size as u32,
            total_sectors,
            partition_offset: 0,
        },
    )
}

// ---------------------------------------------------------------------------------------------
// The attributes of a file record
// ---------------------------------------------------------------------------------------------

/// The type of a `$FILE_NAME` attribute.
pub const ATTR_FILE_NAME: u32 = 0x30;

/// The type of a `$DATA` attribute.
pub const ATTR_DATA: u32 = 0x80;

/// The type that ends the attributes.
pub const ATTR_END: u32 = 0xFFFF_FFFF;

/// The attributes of a record from `offset` on, each as its type and all its bytes.
pub open spec fn attributes_from(record: Seq<u8>, offset: int) -> Seq<(u32, Seq<u8>)>
    decreases record.len() - offset,
{
    if offset < 0 || offset + 8 > record.len() {
        seq![]
    } else {
        let kind = le_u32(record, offset);
        let len = le_u32(record, offset + 4);
        if kind == ATTR_END || len == 0 || offset + len > record.len() {
            seq![]
        } else {
            seq![(kind as u32, record.subrange(offset, offset + len))] + attributes_from(
                record,
                offset + len,
            )
        }
    }
}

/// The attributes of a record.
pub open spec fn attributes(record: Seq<u8>) -> Seq<(u32, Seq<u8>)> {
    attributes_from(record, le_u16(record, 0x14))
}

/// Attributes as contracts speak of them.
pub open spec fn attribute_models(attrs: Seq<(u32, Vec<u8>)>) -> Seq<(u32, Seq<u8>)> {
    Seq::new(attrs.len(), |i: int| (attrs[i].0, attrs[i].1@))
}

/// Reads the attributes of a record.
pub fn parse_attributes(record: &[u8]) -> (attrs: Vec<(u32, Vec<u8>)>)
    requires
        record@.len() >= 0x16,
    ensures
        attribute_models(attrs@) == attributes(record@),
{
    let size: usize = record.len();
    let mut attrs: Vec<(u32, Vec<u8>)> = Vec::new();
    let mut offset: usize = read_u16_le(record, 0x14) as usize;
    let mut go_on: bool = true;
    assert(attribute_models(attrs@) =~= seq![]);
    while go_on && offset < size && 8 <= size - offset
        invariant
            size == record@.len(),
            go_on ==> attribute_models(attrs@) + attributes_from(record@, offset as int)
                =~= attributes(record@),
            !go_on ==> attribute_models(attrs@) =~= attributes(record@),
        decreases size - offset + (if go_on { 1int } else { 0 }),
    {
        let kind: u32 = read_u32_le(record, offset);
        let len: u32 = read_u32_le(record, offset + 4);
        if kind == ATTR_END || len == 0 || len as u64 > (size - offset) as u64 {
            go_on = false;
        } else {
            let ghost had = attrs@;
            let n: usize = len as usize;
            let data = vstd::slice::slice_to_vec(
                vstd::slice::slice_subrange(record, offset, offset + n),
            );
            attrs.push((kind, data));
            assert(attribute_models(attrs@) =~= attribute_models(had).push((kind, data@)));
            offset = offset + n;
        }
    }
    attrs
}

// ---------------------------------------------------------------------------------------------
// File names
// ---------------------------------------------------------------------------------------------

/// A name and the record of the directory that holds it.
pub struct NameModel {
    pub name: Seq<char>,
    pub parent_ref: u64,
}

/// Whether an attribute is resident, long enough to say where its value is, and holds its value.
pub open spec fn holds_value(attr: Seq<u8>) -> bool {
    attr.len() >= 0x18 && attr[8] == 0 && le_u16(attr, 0x14) + le_u32(attr, 0x10) <= attr.len()
}

/// The `n` UTF-16 units from `at` on.
pub open spec fn units_at(s: Seq<u8>, at: int, n: nat) -> Seq<u16> {
    Seq::new(n, |i: int| le_u16(s, at + 2 * i) as u16)
}

/// Whether the reference to the parent directory, the first thing in the value of a `$FILE_NAME`
/// attribute, lies within the attribute.
pub open spec fn name_readable(attr: Seq<u8>) -> bool {
    holds_value(attr) ==> le_u16(attr, 0x14) + 6 <= attr.len()
}

/// What a `$FILE_NAME` attribute says: the name in UTF-16, and the record of the parent directory
/// in 48 bits.
pub open spec fn file_name(attr: Seq<u8>) -> Option<NameModel> {
    let value = le_u16(attr, 0x14);
    let start = value + 0x3A;
    let len = attr[value + 0x38];
    if holds_value(attr) && start + 2 <= attr.len() && len != 0 && start + len * 2 <= attr.len() {
        Some(
            NameModel {
                name: utf16_lossy(units_at(attr, start, len as nat)),
                parent_ref: (le_u32(attr, value) + 0x1_0000_0000 * le_u16(attr, value + 4)) as u64,
            },
        )
    } else {
        None
    }
}

/// A name and the record of the directory that holds it.
#[derive(Debug, Clone)]
pub struct FileNameInfo {
    pub name: String,
    pub parent_ref: u64,
}

impl View for FileNameInfo {
    type V = NameModel;

    open spec fn view(&self) -> NameModel {
        NameModel { name: self.name@, parent_ref: self.parent_ref }
    }
}

/// A name, where there is one, as contracts speak of it.
pub open spec fn name_model(info: Option<FileNameInfo>) -> Option<NameModel> {
    match info {
        Some(name) => Some(name@),
        None => None,
    }
}

fn is_value_held(attr: &[u8]) -> (answer: bool)
    ensures
        answer == holds_value(attr@),
{
    if attr.len() < 0x18 || attr[8] != 0 {
        return false;
    }
    let len: u64 = read_u32_le(attr, 0x10) as u64;
    let off: u64 = read_u16_le(attr, 0x14) as u64;
    off + len <= attr.len() as u64
}

/// Tells whether the reference to the parent directory lies within an attribute.
pub fn is_name_readable(attr: &[u8]) -> (answer: bool)
    ensures
        answer == name_readable(attr@),
{
    !is_value_held(attr) || read_u16_le(attr, 0x14) as u64 + 6 <= attr.len() as u64
}

/// Reads a `$FILE_NAME` attribute.
pub fn extract_file_name_info(attr: &[u8]) -> (info: Option<FileNameInfo>)
    requires
        name_readable(attr@),
    ensures
        name_model(info) == file_name(attr@),
{
    let size: usize = attr.len();
    if !is_value_held(attr) {
        return None;
    }
    let value: usize = read_u16_le(attr, 0x14) as usize;
    let low: u32 = read_u32_le(attr, value);
    let high: u16 = read_u16_le(attr, value + 4);
    let parent_ref: u64 = low as u64 + high as u64 * 0x1_0000_0000;
    let start: usize = value + 0x3A;
    if start + 2 > size {
        return None;
    }
    let len: usize = attr[value + 0x38] as usize;
    if len == 0 || start + len * 2 > size {
        return None;
    }
    let mut units: Vec<u16> = Vec::new();
    let mut i: usize = 0;
    while i < len
        invariant
            size == attr@.len(),
            start + len * 2 <= size,
            i <= len,
            units@.len() == i,
            forall|j: int| 0 <= j < i ==> units@[j] == le_u16(attr@, start + 2 * j),
        decreases len - i,
    {
        units.push(read_u16_le(attr, start + 2 * i));
        i = i + 1;
    }
    assert(units@ =~= units_at(attr@, start as int, len as nat));
    let name = decode_utf16_lossy(units.as_slice());
    Some(FileNameInfo { name, parent_ref })
}

// ---------------------------------------------------------------------------------------------
// Data
// ---------------------------------------------------------------------------------------------

/// The size that a `$DATA` attribute states.
pub open spec fn data_size(attr: Seq<u8>) -> u64 {
    if attr.len() < 0x18 {
        0
    } else if attr[8] == 0 {
        le_u32(attr, 0x10) as u64
    } else if attr.len() < 0x40 {
        0
    } else {
        le_u64(attr, 0x30) as u64
    }
}

/// The size that a `$DATA` attribute states.
pub fn extract_data_size(attr: &[u8]) -> (size: u64)
    ensures
        size == data_size(attr@),
{
    if attr.len() < 0x18 {
        return 0;
    }
    if attr[8] == 0 {
        read_u32_le(attr, 0x10) as u64
    } else if attr.len() < 0x40 {
        0
    } else {
        read_u64_le(attr, 0x30)
    }
}

/// The data that a resident attribute holds itself.
pub open spec fn resident_data(attr: Seq<u8>) -> Option<Seq<u8>> {
    let off = le_u16(attr, 0x14);
    let len = le_u32(attr, 0x10);
    if holds_value(attr) && len != 0 {
        Some(attr.subrange(off, off + len))
    } else {
        None
    }
}

/// Data, where there is any, as contracts speak of it.
pub open spec fn data_model(data: Option<Vec<u8>>) -> Option<Seq<u8>> {
    match data {
        Some(bytes) => Some(bytes@),
        None => None,
    }
}

/// The data that a resident attribute holds itself.
pub fn extract_resident_data(attr: &[u8]) -> (data: Option<Vec<u8>>)
    ensures
        data_model(data) == resident_data(attr@),
{
    if !is_value_held(attr) {
        return None;
    }
    let len: usize = read_u32_le(attr, 0x10) as usize;
    if len == 0 {
        return None;
    }
    let off: usize = read_u16_le(attr, 0x14) as usize;
    assert(off + len <= attr.len());
    Some(vstd::slice::slice_to_vec(vstd::slice::slice_subrange(attr, off, off + len)))
}

// ---------------------------------------------------------------------------------------------
// Paths
// ---------------------------------------------------------------------------------------------

/// The record of the root directory.
pub const MFT_ROOT_DIR_RECORD: u64 = 5;

/// The names on the way from the directory `record` up to the root, nearest first. The way ends at
/// the root, at a directory that is not known, and where it would enter a circle.
pub open spec fn way_up(dirs: Map<u64, NameModel>, record: u64, visited: Set<u64>) -> Seq<Seq<char>>
    decreases dirs.dom().difference(visited).len(),
    when dirs.dom().finite()
{
    if record == MFT_ROOT_DIR_RECORD || record == 0 || visited.contains(record)
        || !dirs.contains_key(record) {
        seq![]
    } else {
        proof {
            dirs.dom().lemma_set_insert_diff_decreases(visited, record);
        }
        seq![dirs[record].name] + way_up(dirs, dirs[record].parent_ref, visited.insert(record))
    }
}

/// The path of the directory `record`, from the root on.
pub open spec fn directory_path(dirs: Map<u64, NameModel>, record: u64) -> Seq<char> {
    joined(way_up(dirs, record, Set::empty()).reverse(), "/"@)
}

/// The way up from a directory passes each known directory at most once, so it ends even where the
/// directories form a circle.
pub proof fn law_way_up_is_bounded(dirs: Map<u64, NameModel>, record: u64, visited: Set<u64>)
    requires
        dirs.dom().finite(),
    ensures
        way_up(dirs, record, visited).len() <= dirs.dom().difference(visited).len(),
    decreases dirs.dom().difference(visited).len(),
{
    if !(record == MFT_ROOT_DIR_RECORD || record == 0 || visited.contains(record)
        || !dirs.contains_key(record)) {
        dirs.dom().lemma_set_insert_diff_decreases(visited, record);
        law_way_up_is_bounded(dirs, dirs[record].parent_ref, visited.insert(record));
    }
}

/// Whether the way up from `record` comes to `other`.
pub open spec fn way_meets(
    dirs: Map<u64, NameModel>,
    record: u64,
    visited: Set<u64>,
    other: u64,
) -> bool
    decreases dirs.dom().difference(visited).len(),
    when dirs.dom().finite()
{
    if record == MFT_ROOT_DIR_RECORD || record == 0 || visited.contains(record)
        || !dirs.contains_key(record) {
        false
    } else {
        proof {
            dirs.dom().lemma_set_insert_diff_decreases(visited, record);
        }
        record == other || way_meets(dirs, dirs[record].parent_ref, visited.insert(record), other)
    }
}

proof fn lemma_way_up_without(
    dirs: Map<u64, NameModel>,
    record: u64,
    visited: Set<u64>,
    other: u64,
)
    requires
        dirs.dom().finite(),
        !way_meets(dirs, record, visited, other),
    ensures
        way_up(dirs, record, visited.insert(other)) == way_up(dirs, record, visited),
    decreases dirs.dom().difference(visited).len(),
{
    if !(record == MFT_ROOT_DIR_RECORD || record == 0 || visited.contains(record)
        || !dirs.contains_key(record)) {
        dirs.dom().lemma_set_insert_diff_decreases(visited, record);
        lemma_way_up_without(dirs, dirs[record].parent_ref, visited.insert(record), other);
        assert(visited.insert(other).insert(record) =~= visited.insert(record).insert(other));
    }
}

/// The path of a known directory is the path of its parent with the directory's own name behind
/// it, unless the directories above form a circle.
pub proof fn law_path_extends_the_parents(dirs: Map<u64, NameModel>, record: u64)
    requires
        dirs.dom().finite(),
        dirs.contains_key(record),
        record != MFT_ROOT_DIR_RECORD,
        record != 0,
        !way_meets(dirs, dirs[record].parent_ref, Set::empty(), record),
    ensures
        ({
            let parent = dirs[record].parent_ref;
            directory_path(dirs, record) == if way_up(dirs, parent, Set::empty()).len() == 0 {
                dirs[record].name
            } else {
                directory_path(dirs, parent) + "/"@ + dirs[record].name
            }
        }),
{
    let parent = dirs[record].parent_ref;
    lemma_way_up_without(dirs, parent, Set::empty(), record);
    let above = way_up(dirs, parent, Set::empty());
    let way = way_up(dirs, record, Set::empty());
    assert(way =~= seq![dirs[record].name] + above);
    assert(way.reverse() =~= above.reverse().push(dirs[record].name));
    assert(way.reverse().drop_last() =~= above.reverse());
}

/// Known directories as contracts speak of them.
pub open spec fn dir_models(dirs: Map<u64, (String, u64)>) -> Map<u64, NameModel> {
    dirs.map_values(|d: (String, u64)| NameModel { name: d.0@, parent_ref: d.1 })
}

/// The path of the directory `record`, from the root on.
pub fn build_path(parent_map: &HashMap<u64, (String, u64)>, record: u64) -> (path: String)
    ensures
        path@ == directory_path(dir_models(parent_map@), record),
{
    let ghost dirs = dir_models(parent_map@);
    let mut names: Vec<String> = Vec::new();
    let mut visited: HashSet<u64> = HashSet::new();
    let mut at: u64 = record;
    let mut go_on: bool = true;
    assert(dirs.dom() =~= parent_map@.dom());
    let ghost whole = way_up(dirs, record, Set::empty());
    assert(texts(names@) =~= seq![]);
    while go_on && at != MFT_ROOT_DIR_RECORD && at != 0
        invariant
            dirs == dir_models(parent_map@),
            dirs.dom() == parent_map@.dom(),
            dirs.dom().finite(),
            whole == way_up(dirs, record, Set::empty()),
            go_on ==> texts(names@) + way_up(dirs, at, visited@) =~= whole,
            !go_on ==> texts(names@) =~= whole,
        decreases
            dirs.dom().difference(visited@).len() + (if go_on {
                1int
            } else {
                0
            }),
    {
        let ghost before = visited@;
        let ghost had = names@;
        match parent_map.get(&at) {
            Some(dir) => {
                if visited.insert(at) {
                    proof {
                        dirs.dom().lemma_set_insert_diff_decreases(before, at);
                    }
                    names.push(dir.0.clone());
                    assert(texts(names@) =~= texts(had).push(dirs[at].name));
                    at = dir.1;
                } else {
                    assert(visited@ =~= before);
                    go_on = false;
                }
            },
            None => {
                go_on = false;
            },
        }
    }
    assert(texts(names@) =~= whole);
    join_reversed(&names, "/")
}

} // verus!
