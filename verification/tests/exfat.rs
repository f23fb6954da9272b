use recovery::fat::{probe_exfat_from_buf, restore_exfat, scan_exfat, ExfatInfo};
use recovery::fat_restore::{exfat_chain_volume, is_cluster_computable, RestoreError};
use recovery::types::DeletedFile;
use recovery::walk::{Need, Piece, Request, Status, Task, Walk};
use std::collections::HashMap;

struct Image {
    bytes: HashMap<u64, u8>,
    len: u64,
    broken: Vec<u64>,
}

impl Image {
    fn new(len: u64) -> Image {
        Image { bytes: HashMap::new(), len, broken: Vec::new() }
    }

    fn put(&mut self, offset: u64, data: &[u8]) {
        for (i, b) in data.iter().enumerate() {
            self.bytes.insert(offset + i as u64, *b);
        }
    }

    fn read(&self, request: Request) -> Option<Vec<u8>> {
        let end = request.offset.checked_add(request.len as u64)?;
        if end > self.len || self.broken.contains(&request.offset) {
            return None;
        }
        Some((request.offset..end).map(|o| self.bytes.get(&o).copied().unwrap_or(0)).collect())
    }
}

fn finish<T: Task>(walk: &mut Walk<T>, image: &Image) -> Status {
    loop {
        match walk.need() {
            Need::Nothing => return walk.status(),
            Need::Step => walk.step(),
            Need::Read(request) => {
                let reply = image.read(request);
                assert!(walk.can_take(reply.as_deref()));
                walk.supply(reply.as_deref());
            }
        }
    }
}

fn scanned(info: &ExfatInfo, image: &Image) -> (Vec<DeletedFile>, Status) {
    let mut walk = scan_exfat(info);
    let status = finish(&mut walk, image);
    (walk.into_found(), status)
}

fn boot_sector() -> [u8; 512] {
    let mut boot = [0u8; 512];
    boot[3..11].copy_from_slice(b"EXFAT   ");
    boot[80..84].copy_from_slice(&24u32.to_le_bytes());
    boot[88..92].copy_from_slice(&128u32.to_le_bytes());
    boot[96..100].copy_from_slice(&4u32.to_le_bytes());
    boot[108] = 9;
    boot[109] = 1;
    boot[510] = 0x55;
    boot[511] = 0xAA;
    boot
}

fn volume() -> ExfatInfo {
    probe_exfat_from_buf(&boot_sector()).unwrap()
}

fn primary(kind: u8, secondaries: u8, attr: u8) -> [u8; 32] {
    let mut entry = [0u8; 32];
    entry[0] = kind;
    entry[1] = secondaries;
    entry[3] = attr;
    entry
}

fn stream(kind: u8, cluster: u32, size: u32) -> [u8; 32] {
    let mut entry = [0u8; 32];
    entry[0] = kind;
    entry[3] = 1;
    entry[20..24].copy_from_slice(&cluster.to_le_bytes());
    entry[24..28].copy_from_slice(&size.to_le_bytes());
    entry
}

fn name(kind: u8, text: &str) -> [u8; 32] {
    let mut entry = [0u8; 32];
    entry[0] = kind;
    for (i, unit) in text.encode_utf16().enumerate() {
        entry[4 + 2 * i..6 + 2 * i].copy_from_slice(&unit.to_le_bytes());
    }
    entry
}

fn put_entries(image: &mut Image, info: &ExfatInfo, cluster: u32, entries: &[[u8; 32]]) {
    let at = info.cluster_to_offset(cluster);
    for (i, entry) in entries.iter().enumerate() {
        image.put(at + 32 * i as u64, entry);
    }
}

fn put_link(image: &mut Image, info: &ExfatInfo, cluster: u32, next: u32) {
    image.put(info.fat_entry_offset(cluster), &next.to_le_bytes());
}

const END: u32 = 0xFFFF_FFFF;

#[test]
fn exfat_boot_sector_gives_the_geometry() {
    let info = volume();
    assert_eq!(info.bytes_per_sector, 512);
    assert_eq!(info.sectors_per_cluster, 2);
    assert_eq!(info.cluster_heap_offset, 128);
    assert_eq!(info.root_cluster, 4);
    assert_eq!(info.fat_offset, 24);
    assert_eq!(info.bytes_per_cluster(), 1024);
    assert_eq!(info.cluster_to_offset(2), 65536);
    assert_eq!(info.cluster_to_offset(5), 68608);
    assert_eq!(info.fat_entry_offset(3), 12300);
    assert!(info.is_addressable());
}

#[test]
fn other_sectors_are_not_exfat() {
    let mut untagged = boot_sector();
    untagged[3] = b'e';
    assert!(probe_exfat_from_buf(&untagged).is_none());
    let mut unsigned = boot_sector();
    unsigned[510] = 0;
    assert!(probe_exfat_from_buf(&unsigned).is_none());
    let mut small = boot_sector();
    small[108] = 8;
    assert!(probe_exfat_from_buf(&small).is_none());
    let mut large = boot_sector();
    large[108] = 13;
    assert!(probe_exfat_from_buf(&large).is_none());
    let mut wide = boot_sector();
    wide[109] = 12;
    assert!(probe_exfat_from_buf(&wide).is_none());
    wide[109] = 11;
    assert_eq!(probe_exfat_from_buf(&wide).unwrap().sectors_per_cluster, 2048);
    let mut low_root = boot_sector();
    low_root[96..100].copy_from_slice(&1u32.to_le_bytes());
    assert!(probe_exfat_from_buf(&low_root).is_none());
}

#[test]
fn deleted_sets_are_found() {
    let info = volume();
    let mut image = Image::new(1 << 20);
    put_entries(
        &mut image,
        &info,
        4,
        &[
            primary(0xE5, 2, 0x20),
            stream(0xE5, 9, 3000),
            name(0xE5, "a longer name "),
            name(0xE5, "of a file.bin"),
            primary(0x85, 2, 0x10),
            stream(0xC0, 5, 0),
            name(0xC1, "folder"),
            primary(0xE5, 1, 0x10),
        ],
    );
    put_link(&mut image, &info, 4, 6);
    put_entries(&mut image, &info, 6, &[primary(0xE5, 0, 0x20), stream(0xE5, 1, 12)]);
    put_link(&mut image, &info, 6, END);
    put_entries(
        &mut image,
        &info,
        5,
        &[primary(0xE5, 2, 0), stream(0xE5, 20, 1), name(0xE5, "inside")],
    );
    put_link(&mut image, &info, 5, 0);
    let (files, status) = scanned(&info, &image);
    assert_eq!(status, Ok(()));
    let rows: Vec<(&str, &str, u64, u64, bool)> = files
        .iter()
        .map(|f| (f.name.as_str(), f.path.as_str(), f.size, f.start_address, f.is_directory))
        .collect();
    assert_eq!(
        rows,
        vec![
            ("a longer name of a file.bin", "", 3000, info.cluster_to_offset(9), false),
            ("inside", "folder", 1, info.cluster_to_offset(20), false),
            ("DELETED_EXFAT_0x00000000", "", 0, 0, true),
            ("DELETED_EXFAT_0x00000000", "", 12, 0, false),
        ]
    );
    assert!(files.iter().all(|f| f.fs_type == "exFAT"));
}

#[test]
fn a_name_missing_from_a_set_is_made_of_its_cluster() {
    let info = volume();
    let mut image = Image::new(1 << 20);
    put_entries(&mut image, &info, 4, &[primary(0xE5, 1, 0x20), stream(0xE5, 0x2F, 12)]);
    let (files, _) = scanned(&info, &image);
    assert_eq!(files[0].name, "DELETED_EXFAT_0x0000002F");
}

#[test]
fn an_unreadable_exfat_directory_ends_the_scan_without_failing() {
    let info = volume();
    let mut image = Image::new(1 << 20);
    image.broken.push(info.cluster_to_offset(4));
    let (files, status) = scanned(&info, &image);
    assert!(files.is_empty());
    assert_eq!(status, Ok(()));
}

#[test]
fn a_circular_exfat_chain_ends() {
    let info = volume();
    let mut image = Image::new(1 << 20);
    put_entries(&mut image, &info, 4, &[primary(0xE5, 0, 0x20)]);
    put_link(&mut image, &info, 4, 4);
    let (files, status) = scanned(&info, &image);
    assert_eq!(files.len(), 1);
    assert_eq!(status, Ok(()));
}

#[test]
fn exfat_restore_follows_the_chain() {
    let info = volume();
    let mut image = Image::new(1 << 20);
    let parts: Vec<Vec<u8>> =
        (0..2u8).map(|s| (0..1024u32).map(|i| (i as u8) ^ (s + 9)).collect()).collect();
    image.put(info.cluster_to_offset(9), &parts[0]);
    image.put(info.cluster_to_offset(3), &parts[1]);
    put_link(&mut image, &info, 9, 3);
    let entry = DeletedFile {
        name: "x".to_string(),
        size: 1500,
        start_address: info.cluster_to_offset(9),
        fs_type: "exFAT".to_string(),
        path: String::new(),
        is_directory: false,
        resident_data: None,
        data_runs: Vec::new(),
    };
    assert!(is_cluster_computable(&exfat_chain_volume(&info), &entry));
    let mut task = restore_exfat(&info, &entry).unwrap();
    let mut out: Vec<u8> = Vec::new();
    while let Some(request) = Task::wants(&task) {
        let reply = image.read(request);
        let (pieces, next) = task.resume(reply.as_deref());
        for piece in pieces {
            if let Piece::Emit(chunk) = piece {
                out.extend_from_slice(&chunk);
            }
        }
        task = next;
    }
    assert_eq!(out, parts.concat()[..1500]);
    let early = DeletedFile { start_address: 65535, ..entry };
    assert_eq!(
        restore_exfat(&info, &early).err(),
        Some(RestoreError::BeforeData { address: 65535 })
    );
}
