use recovery::fat::{
    check_fat32_layout, probe_fat32_from_buf, restore_fat32, scan_fat32, Fat32Info,
};
use recovery::fat_entry::{
    extract_83_name, extract_lfn_utf16, get_cluster, get_file_size, is_active_lfn_entry,
    is_active_short_entry, is_deleted_lfn_entry, is_deleted_short_entry, is_end_of_dir,
    utf16_to_string,
};
use recovery::fat_restore::{
    fat32_chain_volume, is_cluster_computable, ChainRestore, RestoreError,
};
use recovery::types::DeletedFile;
use recovery::walk::{Failure, Need, Piece, Request, Status, Task, Walk};
use std::collections::HashMap;

struct Image {
    bytes: HashMap<u64, u8>,
    len: u64,
    broken: Vec<u64>,
}

impl Image {
    fn new(len: u64) -> Image {
        Image { bytes: HashMap::new(), len, broken: Vec::new() }
    }

    fn put(&mut self, offset: u64, data: &[u8]) {
        for (i, b) in data.iter().enumerate() {
            self.bytes.insert(offset + i as u64, *b);
        }
    }

    fn read(&self, request: Request) -> Option<Vec<u8>> {
        let end = request.offset.checked_add(request.len as u64)?;
        if end > self.len || self.broken.contains(&request.offset) {
            return None;
        }
        Some((request.offset..end).map(|o| self.bytes.get(&o).copied().unwrap_or(0)).collect())
    }
}

fn finish<T: Task>(walk: &mut Walk<T>, image: &Image) -> Status {
    loop {
        match walk.need() {
            Need::Nothing => return walk.status(),
            Need::Step => walk.step(),
            Need::Read(request) => {
                let reply = image.read(request);
                assert!(walk.can_take(reply.as_deref()));
                walk.supply(reply.as_deref());
            }
        }
    }
}

fn scanned(info: &Fat32Info, image: &Image) -> (Vec<DeletedFile>, Status) {
    let mut walk = scan_fat32(info);
    let status = finish(&mut walk, image);
    (walk.into_found(), status)
}

fn restored(task: ChainRestore, image: &Image) -> (Vec<u8>, ChainRestore) {
    let mut task = task;
    let mut out: Vec<u8> = Vec::new();
    while let Some(request) = Task::wants(&task) {
        let reply = image.read(request);
        assert!(task.can_take(reply.as_deref()));
        let (pieces, next) = task.resume(reply.as_deref());
        for piece in pieces {
            match piece {
                Piece::Emit(chunk) => out.extend_from_slice(&chunk),
                Piece::Enter(_) => panic!("a restore starts no other task"),
            }
        }
        task = next;
    }
    (out, task)
}

fn boot_sector() -> [u8; 512] {
    let mut boot = [0u8; 512];
    boot[11..13].copy_from_slice(&512u16.to_le_bytes());
    boot[13] = 1;
    boot[14..16].copy_from_slice(&32u16.to_le_bytes());
    boot[16] = 2;
    boot[32..36].copy_from_slice(&70000u32.to_le_bytes());
    boot[36..40].copy_from_slice(&600u32.to_le_bytes());
    boot[44..48].copy_from_slice(&2u32.to_le_bytes());
    boot[510] = 0x55;
    boot[511] = 0xAA;
    boot
}

fn volume() -> Fat32Info {
    probe_fat32_from_buf(&boot_sector()).unwrap()
}

fn short_entry(name: &[u8; 11], attr: u8, cluster: u32, size: u32) -> [u8; 32] {
    let mut entry = [0u8; 32];
    entry[..11].copy_from_slice(name);
    entry[11] = attr;
    entry[20..22].copy_from_slice(&((cluster >> 16) as u16).to_le_bytes());
    entry[26..28].copy_from_slice(&(cluster as u16).to_le_bytes());
    entry[28..32].copy_from_slice(&size.to_le_bytes());
    entry
}

fn long_entry(first: u8, units: &[u16]) -> [u8; 32] {
    let mut entry = [0u8; 32];
    entry[0] = first;
    entry[11] = 0x0F;
    let places = [1usize, 3, 5, 7, 9, 14, 16, 18, 20, 22, 24, 28, 30];
    for (i, place) in places.iter().enumerate() {
        let unit = units.get(i).copied().unwrap_or(if i == units.len() { 0 } else { 0xFFFF });
        entry[*place..*place + 2].copy_from_slice(&unit.to_le_bytes());
    }
    entry
}

fn put_entries(image: &mut Image, info: &Fat32Info, cluster: u32, entries: &[[u8; 32]]) {
    let at = info.cluster_to_offset(cluster);
    for (i, entry) in entries.iter().enumerate() {
        image.put(at + 32 * i as u64, entry);
    }
}

fn put_link(image: &mut Image, info: &Fat32Info, cluster: u32, next: u32) {
    image.put(info.fat_entry_offset(cluster), &next.to_le_bytes());
}

const END: u32 = 0x0FFF_FFFF;

#[test]
fn boot_sector_gives_the_geometry() {
    let info = volume();
    assert_eq!(info.bytes_per_sector, 512);
    assert_eq!(info.sectors_per_cluster, 1);
    assert_eq!(info.reserved_sectors, 32);
    assert_eq!(info.num_fats, 2);
    assert_eq!(info.sectors_per_fat, 600);
    assert_eq!(info.root_cluster, 2);
    assert_eq!(info.partition_offset, 0);
    assert_eq!(info.bytes_per_cluster(), 512);
    assert_eq!(info.data_region_lba(), 1232);
    assert_eq!(info.cluster_to_offset(2), 630784);
    assert_eq!(info.cluster_to_offset(5), 632320);
    assert_eq!(info.fat_entry_offset(2), 16392);
    assert!(info.is_addressable());
}

#[test]
fn offsets_count_from_the_partition() {
    let info = Fat32Info { partition_offset: 1_048_576, ..volume() };
    assert_eq!(info.cluster_to_offset(2), 1_679_360);
    assert_eq!(info.fat_entry_offset(0), 1_064_960);
    assert!(!Fat32Info { partition_offset: u64::MAX, ..volume() }.is_addressable());
}

#[test]
fn other_boot_sectors_are_refused() {
    let mut unsigned = boot_sector();
    unsigned[511] = 0;
    assert!(probe_fat32_from_buf(&unsigned).is_none());
    let mut odd_sector = boot_sector();
    odd_sector[11..13].copy_from_slice(&600u16.to_le_bytes());
    assert!(probe_fat32_from_buf(&odd_sector).is_none());
    let mut big_sector = boot_sector();
    big_sector[11..13].copy_from_slice(&8192u16.to_le_bytes());
    assert!(probe_fat32_from_buf(&big_sector).is_none());
    let mut odd_cluster = boot_sector();
    odd_cluster[13] = 3;
    assert!(probe_fat32_from_buf(&odd_cluster).is_none());
    let mut no_fats = boot_sector();
    no_fats[16] = 0;
    assert!(probe_fat32_from_buf(&no_fats).is_none());
    let mut no_table = boot_sector();
    no_table[36..40].copy_from_slice(&0u32.to_le_bytes());
    assert!(probe_fat32_from_buf(&no_table).is_none());
    let mut low_root = boot_sector();
    low_root[44..48].copy_from_slice(&1u32.to_le_bytes());
    assert!(probe_fat32_from_buf(&low_root).is_none());
}

#[test]
fn a_volume_with_few_clusters_is_not_fat32() {
    let mut boot = boot_sector();
    boot[32..36].copy_from_slice(&(1232u32 + 65524).to_le_bytes());
    assert!(probe_fat32_from_buf(&boot).is_none());
    boot[32..36].copy_from_slice(&(1232u32 + 65525).to_le_bytes());
    assert!(probe_fat32_from_buf(&boot).is_some());
}

#[test]
fn a_layout_larger_than_the_volume_is_told_apart() {
    let mut boot = boot_sector();
    assert!(check_fat32_layout(&boot));
    boot[32..36].copy_from_slice(&1231u32.to_le_bytes());
    assert!(!check_fat32_layout(&boot));
    boot[511] = 0;
    assert!(check_fat32_layout(&boot));
}

#[test]
fn entries_are_told_apart() {
    let deleted = short_entry(b"\xE5OTES   TXT", 0x20, 7, 9);
    let deleted_long = long_entry(0xE5, &[0x61]);
    let active = short_entry(b"NOTES   TXT", 0x20, 7, 9);
    let active_long = long_entry(0x41, &[0x61]);
    let dot = short_entry(b".          ", 0x10, 7, 0);
    let end = [0u8; 32];
    assert!(is_deleted_short_entry(&deleted) && !is_deleted_lfn_entry(&deleted));
    assert!(is_deleted_lfn_entry(&deleted_long) && !is_deleted_short_entry(&deleted_long));
    assert!(is_active_short_entry(&active) && !is_active_lfn_entry(&active));
    assert!(is_active_lfn_entry(&active_long) && !is_active_short_entry(&active_long));
    assert!(!is_active_short_entry(&dot) && !is_end_of_dir(&dot));
    assert!(is_end_of_dir(&end));
    let wide = short_entry(b"NOTES   TXT", 0x20, 0x0012_3456, 0x89AB_CDEF);
    assert_eq!(get_cluster(&wide), 0x0012_3456);
    assert_eq!(get_file_size(&wide), 0x89AB_CDEF);
}

#[test]
fn short_names_are_shown() {
    assert_eq!(extract_83_name(&short_entry(b"NOTES   TXT", 0, 0, 0)), "NOTES.TXT");
    assert_eq!(extract_83_name(&short_entry(b"\xE5OTES   TXT", 0, 0, 0)), "?OTES.TXT");
    assert_eq!(extract_83_name(&short_entry(b"README     ", 0, 0, 0)), "README");
    assert_eq!(extract_83_name(&short_entry(b"\x05BC     D  ", 0, 0, 0)), "\u{E5}BC.D");
    assert_eq!(extract_83_name(&short_entry(b"A\x07       \xFF ", 0, 0, 0)), "A[0x07]");
    assert_eq!(extract_83_name(&short_entry(b"\x80B      X\xFF ", 0, 0, 0)), "[0x80]B.X[0xFF]");
    assert_eq!(extract_83_name(&short_entry(b"..         ", 0, 0, 0)), "");
}

#[test]
fn long_names_are_read() {
    let units: Vec<u16> = "thirteen.name".encode_utf16().collect();
    let entry = long_entry(0x41, &units);
    assert_eq!(extract_lfn_utf16(&entry), units);
    assert_eq!(utf16_to_string(&units), "thirteen.name");
    assert_eq!(utf16_to_string(&[0x61, 0x62, 0, 0x63]), "ab");
    assert_eq!(utf16_to_string(&[0x61, 0xFFFF, 0x63]), "a");
    assert_eq!(utf16_to_string(&[0xD83D, 0xDE00, 0xD83D]), "\u{1F600}\u{FFFD}");
}

#[test]
fn scan_finds_deleted_files_in_all_directories() {
    let info = volume();
    let mut image = Image::new(70000 * 512);
    let long: Vec<u16> = "holiday pictures.zip".encode_utf16().collect();
    put_entries(
        &mut image,
        &info,
        2,
        &[
            short_entry(b"VOLUME     ", 0x08, 0, 0),
            short_entry(b"\xE5LAIN   TXT", 0x20, 9, 700),
            long_entry(0xE5, &long[13..]),
            long_entry(0xE5, &long[..13]),
            short_entry(b"\xE5OLIDA~1ZIP", 0x20, 12, 5000),
            short_entry(b"SUB        ", 0x10, 4, 0),
            short_entry(b"\xE5LDDIR     ", 0x10, 0, 0),
        ],
    );
    put_link(&mut image, &info, 2, 3);
    put_entries(&mut image, &info, 3, &[short_entry(b"\xE5ATER   DAT", 0x20, 1, 4)]);
    put_link(&mut image, &info, 3, END);
    let deep: Vec<u16> = "deep".encode_utf16().collect();
    put_entries(
        &mut image,
        &info,
        4,
        &[
            short_entry(b".          ", 0x10, 4, 0),
            short_entry(b"..         ", 0x10, 0, 0),
            long_entry(0x41, &deep),
            short_entry(b"DEEP~1     ", 0x10, 5, 0),
        ],
    );
    put_link(&mut image, &info, 4, END);
    put_entries(&mut image, &info, 5, &[short_entry(b"\xE5NNER   BIN", 0x20, 20, 1)]);
    put_link(&mut image, &info, 5, END);
    let (files, status) = scanned(&info, &image);
    assert_eq!(status, Ok(()));
    let rows: Vec<(&str, &str, u64, u64, bool)> = files
        .iter()
        .map(|f| (f.name.as_str(), f.path.as_str(), f.size, f.start_address, f.is_directory))
        .collect();
    assert_eq!(
        rows,
        vec![
            ("?LAIN.TXT", "", 700, info.cluster_to_offset(9), false),
            ("holiday pictures.zip", "", 5000, info.cluster_to_offset(12), false),
            ("?NNER.BIN", "SUB/deep", 1, info.cluster_to_offset(20), false),
            ("?LDDIR", "", 0, 0, true),
            ("?ATER.DAT", "", 4, 0, false),
        ]
    );
    for file in &files {
        assert_eq!(file.fs_type, "FAT32");
        assert!(file.resident_data.is_none());
        assert!(file.data_runs.is_empty());
    }
}

#[test]
fn a_circular_chain_ends() {
    let info = volume();
    let mut image = Image::new(70000 * 512);
    put_entries(&mut image, &info, 2, &[short_entry(b"\xE5NE        ", 0x20, 9, 1)]);
    put_link(&mut image, &info, 2, 3);
    put_entries(&mut image, &info, 3, &[short_entry(b"\xE5WO        ", 0x20, 9, 1)]);
    put_link(&mut image, &info, 3, 2);
    let (files, status) = scanned(&info, &image);
    assert_eq!(status, Ok(()));
    assert_eq!(files.len(), 2);
}

#[test]
fn an_unreadable_root_fails_and_an_unreadable_subdirectory_does_not() {
    let info = volume();
    let mut image = Image::new(70000 * 512);
    image.broken.push(info.cluster_to_offset(2));
    let (files, status) = scanned(&info, &image);
    assert!(files.is_empty());
    assert_eq!(status, Err(Failure::Unreadable { offset: info.cluster_to_offset(2) }));
    let mut image = Image::new(70000 * 512);
    put_entries(
        &mut image,
        &info,
        2,
        &[short_entry(b"SUB        ", 0x10, 4, 0), short_entry(b"\xE5NE        ", 0x20, 9, 1)],
    );
    put_link(&mut image, &info, 2, END);
    image.broken.push(info.cluster_to_offset(4));
    let (files, status) = scanned(&info, &image);
    assert_eq!(files.len(), 1);
    assert_eq!(status, Ok(()));
}

fn found(size: u64, start_address: u64) -> DeletedFile {
    DeletedFile {
        name: "x".to_string(),
        size,
        start_address,
        fs_type: "FAT32".to_string(),
        path: String::new(),
        is_directory: false,
        resident_data: None,
        data_runs: Vec::new(),
    }
}

fn pattern(seed: u8, n: usize) -> Vec<u8> {
    (0..n).map(|i| (i as u8).wrapping_mul(7).wrapping_add(seed)).collect()
}

#[test]
fn restore_follows_the_chain() {
    let info = volume();
    let mut image = Image::new(70000 * 512);
    let parts = [pattern(1, 512), pattern(2, 512), pattern(3, 512)];
    image.put(info.cluster_to_offset(9), &parts[0]);
    image.put(info.cluster_to_offset(4), &parts[1]);
    image.put(info.cluster_to_offset(30), &parts[2]);
    put_link(&mut image, &info, 9, 4);
    put_link(&mut image, &info, 4, 30);
    let entry = found(1100, info.cluster_to_offset(9));
    assert!(is_cluster_computable(&fat32_chain_volume(&info), &entry));
    let (out, task) = restored(restore_fat32(&info, &entry).unwrap(), &image);
    assert_eq!(out, parts.concat()[..1100]);
    assert_eq!(task.remaining, 0);
    assert!(!task.cut_off);
    assert_eq!(Task::status(&task), Ok(()));
}

#[test]
fn an_address_before_the_data_needs_no_clusters() {
    let hollow = Fat32Info { sectors_per_cluster: 0, ..volume() };
    let early = found(10, hollow.cluster_to_offset(2) - 1);
    assert!(is_cluster_computable(&fat32_chain_volume(&hollow), &early));
    assert_eq!(
        restore_fat32(&hollow, &early).err(),
        Some(RestoreError::BeforeData { address: early.start_address })
    );
    let late = found(10, hollow.cluster_to_offset(2));
    assert!(!is_cluster_computable(&fat32_chain_volume(&hollow), &late));
}

#[test]
fn restore_stops_where_the_chain_does() {
    let info = volume();
    let mut image = Image::new(70000 * 512);
    let part = pattern(5, 512);
    image.put(info.cluster_to_offset(9), &part);
    let entry = found(1100, info.cluster_to_offset(9));
    put_link(&mut image, &info, 9, 0);
    let (out, task) = restored(restore_fat32(&info, &entry).unwrap(), &image);
    assert_eq!(out, part);
    assert_eq!(task.remaining, 588);
    assert!(task.cut_off);
    put_link(&mut image, &info, 9, END);
    let (_, task) = restored(restore_fat32(&info, &entry).unwrap(), &image);
    assert!(task.cut_off);
    put_link(&mut image, &info, 9, 1);
    let (out, task) = restored(restore_fat32(&info, &entry).unwrap(), &image);
    assert_eq!(out, part);
    assert!(!task.cut_off);
}

#[test]
fn restore_reports_what_it_cannot_read() {
    let info = volume();
    let mut image = Image::new(70000 * 512);
    let entry = found(1100, info.cluster_to_offset(9));
    put_link(&mut image, &info, 9, 4);
    image.broken.push(info.cluster_to_offset(4));
    let (out, task) = restored(restore_fat32(&info, &entry).unwrap(), &image);
    assert_eq!(out.len(), 512);
    assert_eq!(
        Task::status(&task),
        Err(Failure::Unreadable { offset: info.cluster_to_offset(4) })
    );
}

#[test]
fn restore_refuses_an_address_before_the_data() {
    let info = volume();
    let entry = found(10, 630783);
    assert_eq!(
        restore_fat32(&info, &entry).err(),
        Some(RestoreError::BeforeData { address: 630783 })
    );
    let (out, task) = restored(
        restore_fat32(&info, &found(0, 630784)).unwrap(),
        &Image::new(0),
    );
    assert!(out.is_empty());
    assert_eq!(Task::status(&task), Ok(()));
}
