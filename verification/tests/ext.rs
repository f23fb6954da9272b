use recovery::disk::{scan_partition, Partition};
use recovery::disk_scan::{files_of, Event};
use recovery::ext::{check_ext_layout, is_superblock, probe_from_buf, scan, ExtInfo};
use recovery::ext_scan::{clean_name, get_inode_blocks, is_kept};
use recovery::types::DeletedFile;
use recovery::walk::{Failure, Need, Request, Status, Task, Walk};
use std::collections::HashMap;

struct Image {
    bytes: HashMap<u64, u8>,
    len: u64,
    broken: Vec<u64>,
}

impl Image {
    fn new(len: u64) -> Image {
        Image { bytes: HashMap::new(), len, broken: Vec::new() }
    }

    fn put(&mut self, offset: u64, data: &[u8]) {
        for (i, b) in data.iter().enumerate() {
            self.bytes.insert(offset + i as u64, *b);
        }
    }

    fn read(&self, request: Request) -> Option<Vec<u8>> {
        let end = request.offset.checked_add(request.len as u64)?;
        if end > self.len || self.broken.contains(&request.offset) {
            return None;
        }
        Some((request.offset..end).map(|o| self.bytes.get(&o).copied().unwrap_or(0)).collect())
    }
}

fn finish<T: Task>(walk: &mut Walk<T>, image: &Image) -> Status {
    loop {
        match walk.need() {
            Need::Nothing => return walk.status(),
            Need::Step => walk.step(),
            Need::Read(request) => {
                let reply = image.read(request);
                assert!(walk.can_take(reply.as_deref()));
                walk.supply(reply.as_deref());
            }
        }
    }
}

fn scanned(info: &ExtInfo, image: &Image) -> (Vec<DeletedFile>, Status) {
    let mut walk = scan(info);
    let status = finish(&mut walk, image);
    (walk.into_found(), status)
}

fn first_bytes(shift: u32) -> [u8; 2048] {
    let mut buf = [0u8; 2048];
    buf[1048..1052].copy_from_slice(&shift.to_le_bytes());
    buf[1064..1068].copy_from_slice(&16u32.to_le_bytes());
    buf[1080..1082].copy_from_slice(&0xEF53u16.to_le_bytes());
    buf[1112..1114].copy_from_slice(&128u16.to_le_bytes());
    buf
}

fn volume() -> ExtInfo {
    probe_from_buf(&first_bytes(0)).unwrap()
}

fn dir_entry(inode: u32, len: u16, kind: u8, name: &[u8]) -> Vec<u8> {
    let mut entry = vec![0u8; len as usize];
    entry[0..4].copy_from_slice(&inode.to_le_bytes());
    entry[4..6].copy_from_slice(&len.to_le_bytes());
    entry[6] = name.len() as u8;
    entry[7] = kind;
    entry[8..8 + name.len()].copy_from_slice(name);
    entry
}

fn inode_with(blocks: &[u32]) -> Vec<u8> {
    let mut inode = vec![0u8; 128];
    for (i, block) in blocks.iter().enumerate() {
        inode[0x28 + 4 * i..0x2C + 4 * i].copy_from_slice(&block.to_le_bytes());
    }
    inode
}

/// The inode tables of groups 0 and 1 begin at blocks 8 and 12.
fn image() -> Image {
    let mut image = Image::new(1 << 16);
    image.put(2048 + 8, &8u32.to_le_bytes());
    image.put(2048 + 32 + 8, &12u32.to_le_bytes());
    image
}

fn put_inode(image: &mut Image, number: u32, blocks: &[u32]) {
    let (group, index) = ((number - 1) / 16, (number - 1) % 16);
    let table: u64 = if group == 0 { 8 } else { 12 };
    image.put(table * 1024 + index as u64 * 128, &inode_with(blocks));
}

#[test]
fn superblock_gives_the_geometry() {
    let info = volume();
    assert_eq!(info.block_size, 1024);
    assert_eq!(info.inodes_per_group, 16);
    assert_eq!(info.inode_size, 128);
    assert_eq!(info.bgdt_block, 2);
    assert_eq!(info.partition_offset, 0);
    assert!(info.is_addressable());
    let large = probe_from_buf(&first_bytes(6)).unwrap();
    assert_eq!(large.block_size, 65536);
    assert_eq!(large.bgdt_block, 1);
}

#[test]
fn other_first_bytes_are_not_ext() {
    assert!(probe_from_buf(&first_bytes(7)).is_none());
    assert!(probe_from_buf(&first_bytes(22)).is_none());
    let mut plain = first_bytes(0);
    plain[1080] = 0;
    assert!(!is_superblock(&plain));
    assert!(probe_from_buf(&plain).is_none());
    let mut small = first_bytes(0);
    small[1112..1114].copy_from_slice(&127u16.to_le_bytes());
    assert!(probe_from_buf(&small).is_none());
    small[1112..1114].copy_from_slice(&2049u16.to_le_bytes());
    assert!(probe_from_buf(&small).is_none());
}

#[test]
fn an_impossible_block_size_is_told_apart() {
    assert!(check_ext_layout(&first_bytes(31)));
    assert!(!check_ext_layout(&first_bytes(32)));
    let mut plain = first_bytes(32);
    plain[1080] = 0;
    assert!(check_ext_layout(&plain));
}

#[test]
fn groups_without_inodes_have_no_addresses() {
    let info = ExtInfo { inodes_per_group: 0, ..volume() };
    assert!(!info.is_addressable());
    let far = ExtInfo { partition_offset: u64::MAX - 1000, ..volume() };
    assert!(!far.is_addressable());
}

#[test]
fn inodes_name_their_blocks() {
    assert_eq!(get_inode_blocks(&inode_with(&[5, 0, 7])), vec![5, 7]);
    assert_eq!(get_inode_blocks(&inode_with(&[9; 15])), vec![9; 15]);
    assert!(get_inode_blocks(&vec![1u8; 0x63]).is_empty());
}

#[test]
fn names_are_cleaned() {
    assert_eq!(clean_name("ok-name_1 (2).txt"), "ok-name_1 (2).txt");
    assert_eq!(clean_name("a\u{0}b\u{7}c\u{FFFD}"), "abc");
    assert_eq!(clean_name("\u{E9}t\u{E9}\u{2028}"), "\u{E9}t\u{E9}");
    assert!(is_kept('\u{E9}', true) && !is_kept('\u{E9}', false));
    assert!(is_kept(' ', false) && is_kept('~', false) && !is_kept('\u{7F}', false));
}

#[test]
fn deleted_entries_are_found_in_all_directories() {
    let info = volume();
    let mut image = image();
    put_inode(&mut image, 2, &[20, 21]);
    put_inode(&mut image, 18, &[22]);
    let mut first = dir_entry(2, 12, 2, b".");
    first.extend(dir_entry(2, 12, 2, b".."));
    first.extend(dir_entry(0, 24, 1, b"gone\x01.txt"));
    first.extend(dir_entry(18, 16, 2, b"sub"));
    first.extend(dir_entry(30, 16, 1, b"plain"));
    first.extend(dir_entry(0, 16, 1, b".."));
    first.extend(dir_entry(0, 1024 - 96, 1, b"last"));
    image.put(20 * 1024, &first);
    image.put(21 * 1024, &dir_entry(0, 1024, 1, b"second block"));
    image.put(22 * 1024, &dir_entry(0, 1024, 1, b"inner \xFFfile"));
    let (files, status) = scanned(&info, &image);
    assert_eq!(status, Ok(()));
    let rows: Vec<(&str, &str)> =
        files.iter().map(|f| (f.name.as_str(), f.path.as_str())).collect();
    assert_eq!(
        rows,
        vec![("gone.txt", ""), ("inner file", "sub"), ("last", ""), ("second block", "")]
    );
    for file in &files {
        assert_eq!((file.size, file.start_address, file.is_directory), (0, 0, false));
        assert_eq!(file.fs_type, "ext4");
    }
}

#[test]
fn a_partition_without_a_boot_sector_is_scanned_as_ext() {
    let mut volume = image();
    volume.put(0, &first_bytes(0));
    put_inode(&mut volume, 2, &[20]);
    volume.put(20 * 1024, &dir_entry(0, 1024, 1, b"lost"));
    let mut disk = Image::new(1 << 20);
    for (offset, byte) in &volume.bytes {
        disk.put(64 * 512 + offset, &[*byte]);
    }
    let part = Partition {
        start_lba: 64,
        num_sectors: 128,
        fs_type_byte: 0x83,
        label: "it".to_string(),
    };
    let mut walk = scan_partition(&part);
    assert_eq!(finish(&mut walk, &disk), Ok(()));
    let events = walk.into_found();
    assert!(matches!(&events[0], Event::Line(line) if line == "  ext4 detected"));
    let files = files_of(events);
    assert_eq!(files.len(), 1);
    assert_eq!((files[0].name.as_str(), files[0].fs_type.as_str()), ("lost", "ext4"));
    disk.put(64 * 512 + 1080, &[0]);
    let mut walk = scan_partition(&part);
    assert_eq!(finish(&mut walk, &disk), Ok(()));
    let events = walk.into_found();
    assert_eq!(events.len(), 1);
    assert!(matches!(&events[0], Event::Line(line) if line == "  No boot signature for it"));
}

#[test]
fn a_damaged_entry_ends_its_block() {
    let info = volume();
    let mut image = image();
    put_inode(&mut image, 2, &[20]);
    let mut block = dir_entry(0, 16, 1, b"first");
    block.extend(dir_entry(0, 16, 1, b"cut"));
    block[20..22].copy_from_slice(&4u16.to_le_bytes());
    block.extend(dir_entry(0, 16, 1, b"unseen"));
    image.put(20 * 1024, &block);
    let (files, _) = scanned(&info, &image);
    assert_eq!(files.len(), 1);
    assert_eq!(files[0].name, "first");
}

#[test]
fn a_root_that_cannot_be_read_fails() {
    let info = volume();
    let mut no_group = image();
    no_group.broken.push(2048);
    assert_eq!(scanned(&info, &no_group).1, Err(Failure::RootInode));
    let mut no_table = image();
    no_table.put(2048 + 8, &0u32.to_le_bytes());
    assert_eq!(scanned(&info, &no_table).1, Err(Failure::RootInode));
    let mut no_inode = image();
    no_inode.broken.push(8 * 1024 + 128);
    assert_eq!(scanned(&info, &no_inode).1, Err(Failure::RootInode));
    let mut no_block = image();
    put_inode(&mut no_block, 2, &[20]);
    no_block.broken.push(20 * 1024);
    assert_eq!(scanned(&info, &no_block).1, Err(Failure::Unreadable { offset: 20480 }));
}

#[test]
fn a_subdirectory_that_cannot_be_read_is_passed_over() {
    let info = volume();
    let mut image = image();
    put_inode(&mut image, 2, &[20]);
    put_inode(&mut image, 18, &[22, 23]);
    let mut block = dir_entry(18, 16, 2, b"sub");
    block.extend(dir_entry(0, 1008, 1, b"after"));
    image.put(20 * 1024, &block);
    image.put(23 * 1024, &dir_entry(0, 1024, 1, b"readable"));
    image.broken.push(22 * 1024);
    let (files, status) = scanned(&info, &image);
    assert_eq!(status, Ok(()));
    let names: Vec<&str> = files.iter().map(|f| f.name.as_str()).collect();
    assert_eq!(names, vec!["readable", "after"]);
}
