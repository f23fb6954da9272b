use recovery::ntfs::{
    build_path, check_ntfs_layout, extract_data_size, extract_file_name_info,
    extract_resident_data, is_name_readable, parse_attributes, probe_from_buf, restore, scan,
    NtfsInfo,
};
use recovery::ntfs_restore::{is_restorable, NtfsPlan};
use recovery::ntfs_runs::{
    are_runs_decodable, parse_data_runs, read_le, read_signed_le,
};
use recovery::ntfs_scan::is_table_addressable;
use recovery::types::DeletedFile;
use recovery::walk::{Failure, Need, Piece, Request, Status, Task, Walk};
use std::collections::HashMap;

struct Image {
    bytes: HashMap<u64, u8>,
    len: u64,
    broken: Vec<u64>,
}

impl Image {
    fn new(len: u64) -> Image {
        Image { bytes: HashMap::new(), len, broken: Vec::new() }
    }

    fn put(&mut self, offset: u64, data: &[u8]) {
        for (i, b) in data.iter().enumerate() {
            self.bytes.insert(offset + i as u64, *b);
        }
    }

    fn read(&self, request: Request) -> Option<Vec<u8>> {
        let end = request.offset.checked_add(request.len as u64)?;
        if end > self.len || self.broken.contains(&request.offset) {
            return None;
        }
        Some((request.offset..end).map(|o| self.bytes.get(&o).copied().unwrap_or(0)).collect())
    }
}

fn finish<T: Task>(walk: &mut Walk<T>, image: &Image) -> Status {
    loop {
        match walk.need() {
            Need::Nothing => return walk.status(),
            Need::Step => walk.step(),
            Need::Read(request) => {
                let reply = image.read(request);
                assert!(walk.can_take(reply.as_deref()));
                walk.supply(reply.as_deref());
            }
        }
    }
}

fn boot_sector() -> [u8; 512] {
    let mut boot = [0u8; 512];
    boot[3..11].copy_from_slice(b"NTFS    ");
    boot[11..13].copy_from_slice(&512u16.to_le_bytes());
    boot[13] = 2;
    boot[40..48].copy_from_slice(&4000u64.to_le_bytes());
    boot[48..56].copy_from_slice(&10u64.to_le_bytes());
    boot[64] = 0xF6;
    boot
}

fn volume() -> NtfsInfo {
    probe_from_buf(&boot_sector()).unwrap()
}

fn resident(kind: u32, named: u8, value: &[u8]) -> Vec<u8> {
    let len = (0x18 + value.len() + 7) / 8 * 8;
    let mut attr = vec![0u8; len];
    attr[0..4].copy_from_slice(&kind.to_le_bytes());
    attr[4..8].copy_from_slice(&(len as u32).to_le_bytes());
    attr[9] = named;
    attr[0x10..0x14].copy_from_slice(&(value.len() as u32).to_le_bytes());
    attr[0x14..0x16].copy_from_slice(&0x18u16.to_le_bytes());
    attr[0x18..0x18 + value.len()].copy_from_slice(value);
    attr
}

fn non_resident(size: u64, runs: &[u8]) -> Vec<u8> {
    let len = (0x40 + runs.len() + 7) / 8 * 8;
    let mut attr = vec![0u8; len];
    attr[0..4].copy_from_slice(&0x80u32.to_le_bytes());
    attr[4..8].copy_from_slice(&(len as u32).to_le_bytes());
    attr[8] = 1;
    attr[0x20..0x22].copy_from_slice(&0x40u16.to_le_bytes());
    attr[0x30..0x38].copy_from_slice(&size.to_le_bytes());
    attr[0x40..0x40 + runs.len()].copy_from_slice(runs);
    attr
}

fn file_name(parent: u64, name: &str) -> Vec<u8> {
    let units: Vec<u16> = name.encode_utf16().collect();
    let mut value = vec![0u8; 0x42];
    value[0..6].copy_from_slice(&parent.to_le_bytes()[..6]);
    value[6] = 9;
    value[0x38] = units.len() as u8;
    value.truncate(0x3A);
    for unit in units {
        value.extend_from_slice(&unit.to_le_bytes());
    }
    resident(0x30, 0, &value)
}

fn record(flags: u16, attrs: &[Vec<u8>]) -> Vec<u8> {
    let mut record = vec![0u8; 1024];
    record[0..4].copy_from_slice(b"FILE");
    record[0x14..0x16].copy_from_slice(&0x38u16.to_le_bytes());
    record[0x16..0x18].copy_from_slice(&flags.to_le_bytes());
    let mut at = 0x38;
    for attr in attrs {
        record[at..at + attr.len()].copy_from_slice(attr);
        at += attr.len();
    }
    record[at..at + 4].copy_from_slice(&0xFFFF_FFFFu32.to_le_bytes());
    record
}

#[test]
fn ntfs_boot_sector_gives_the_geometry() {
    let info = volume();
    assert_eq!(info.bytes_per_sector, 512);
    assert_eq!(info.sectors_per_cluster, 2);
    assert_eq!(info.mft_start, 10240);
    assert_eq!(info.mft_record_size, 1024);
    assert_eq!(info.total_sectors, 4000);
    let mut clusters = boot_sector();
    clusters[64] = 3;
    assert_eq!(probe_from_buf(&clusters).unwrap().mft_record_size, 3072);
    let mut small = boot_sector();
    small[40..48].copy_from_slice(&0u64.to_le_bytes());
    small[28..32].copy_from_slice(&77u32.to_le_bytes());
    assert_eq!(probe_from_buf(&small).unwrap().total_sectors, 77);
}

#[test]
fn other_sectors_are_not_ntfs() {
    let change = |at: usize, value: u8| {
        let mut boot = boot_sector();
        boot[at] = value;
        probe_from_buf(&boot).is_none()
    };
    assert!(change(3, b'X'));
    assert!(change(12, 1));
    assert!(change(13, 0));
    assert!(change(13, 3));
    assert!(change(48, 0));
    assert!(change(64, 0));
    assert!(change(64, 0xF9));
    assert!(change(64, 0xEF));
    assert!(!change(64, 0xF0));
}

#[test]
fn an_impossible_record_size_is_told_apart() {
    let mut boot = boot_sector();
    assert!(check_ntfs_layout(&boot));
    boot[64] = 0xE0;
    assert!(!check_ntfs_layout(&boot));
    boot[64] = 0x80;
    assert!(!check_ntfs_layout(&boot));
    boot[64] = 0xF6;
    boot[48..56].copy_from_slice(&u64::MAX.to_le_bytes());
    assert!(!check_ntfs_layout(&boot));
    boot[3] = 0;
    assert!(check_ntfs_layout(&boot));
}

#[test]
fn attributes_are_read_up_to_the_end_mark() {
    let attrs = [file_name(5, "a"), resident(0x80, 0, b"xyz")];
    let read = parse_attributes(&record(0, &attrs));
    assert_eq!(read.len(), 2);
    assert_eq!((read[0].0, &read[0].1), (0x30, &attrs[0]));
    assert_eq!((read[1].0, &read[1].1), (0x80, &attrs[1]));
    let mut empty = record(0, &attrs);
    empty[0x38 + 4..0x38 + 8].copy_from_slice(&0u32.to_le_bytes());
    assert!(parse_attributes(&empty).is_empty());
    let mut long = record(0, &attrs);
    long[0x38 + 4..0x38 + 8].copy_from_slice(&2000u32.to_le_bytes());
    assert!(parse_attributes(&long).is_empty());
}

#[test]
fn file_names_are_read() {
    let info = extract_file_name_info(&file_name(0x1234_5678_9ABC, "r\u{E9}sum\u{E9}.doc")).unwrap();
    assert_eq!(info.name, "r\u{E9}sum\u{E9}.doc");
    assert_eq!(info.parent_ref, 0x1234_5678_9ABC);
    assert!(extract_file_name_info(&file_name(5, "")).is_none());
    assert!(extract_file_name_info(&non_resident(1, &[0])).is_none());
    assert!(extract_file_name_info(&[0u8; 0x17]).is_none());
    assert!(is_name_readable(&file_name(5, "a")));
    assert!(!is_name_readable(&resident(0x30, 0, b"")));
}

#[test]
fn sizes_and_contents_are_read() {
    assert_eq!(extract_data_size(&resident(0x80, 0, b"hello")), 5);
    assert_eq!(extract_data_size(&non_resident(1 << 40, &[0])), 1 << 40);
    assert_eq!(extract_data_size(&[0u8; 0x17]), 0);
    assert_eq!(extract_data_size(&non_resident(9, &[0])[..0x3F]), 0);
    assert_eq!(extract_resident_data(&resident(0x80, 0, b"hello")).unwrap(), b"hello");
    assert!(extract_resident_data(&resident(0x80, 0, b"")).is_none());
    assert!(extract_resident_data(&non_resident(9, &[0])).is_none());
    let mut beyond = resident(0x80, 0, b"hello");
    beyond[0x10] = 0xFF;
    assert!(extract_resident_data(&beyond).is_none());
}

#[test]
fn numbers_of_any_width_are_read() {
    let bytes = [0x34u8, 0x56, 0x78, 0x9A, 0xFF, 0xFF, 0xFF, 0x7F];
    assert_eq!(read_le(&bytes, 0, 0), 0);
    assert_eq!(read_le(&bytes, 1, 2), 0x7856);
    assert_eq!(read_le(&bytes, 0, 8), 0x7FFF_FFFF_9A78_5634);
    assert_eq!(read_signed_le(&bytes, 0, 3), 0x0078_5634);
    assert_eq!(read_signed_le(&bytes, 0, 4), -0x6587_A9CC);
    assert_eq!(read_signed_le(&bytes, 4, 1), -1);
    assert_eq!(read_signed_le(&bytes, 0, 8), 0x7FFF_FFFF_9A78_5634);
}

#[test]
fn runs_are_read() {
    let one = non_resident(0, &[0x21, 0x18, 0x34, 0x56, 0]);
    assert_eq!(parse_data_runs(&one, 1 << 20), vec![(0x5634, 0x18)]);
    let back = non_resident(0, &[0x11, 0x30, 0x60, 0x21, 0x10, 0x00, 0x01, 0x11, 0x20, 0xE0, 0]);
    assert_eq!(parse_data_runs(&back, 1 << 20), vec![(0x60, 0x30), (0x160, 0x10), (0x140, 0x20)]);
    let sparse = non_resident(0, &[0x11, 4, 8, 0x01, 9, 0]);
    assert_eq!(parse_data_runs(&sparse, 1 << 20), vec![(8, 4), (8, 9)]);
    assert!(parse_data_runs(&resident(0x80, 0, &[0u8; 0x40]), 1 << 20).is_empty());
}

#[test]
fn runs_outside_the_volume_are_left_out() {
    let beyond = non_resident(0, &[0x11, 4, 8, 0x11, 4, 100, 0x11, 1, 0x9C, 0]);
    assert_eq!(parse_data_runs(&beyond, 50), vec![(8, 4)]);
    let before = non_resident(0, &[0x11, 4, 0xF0, 0x11, 4, 0x20, 0]);
    assert_eq!(parse_data_runs(&before, 50), vec![(0x10, 4)]);
}

#[test]
fn runs_that_cannot_be_held_are_told_apart() {
    assert!(are_runs_decodable(&non_resident(0, &[0x21, 0x18, 0x34, 0x56, 0]), 50));
    assert!(!are_runs_decodable(&non_resident(0, &[0x09, 1, 1, 1, 1, 1, 1, 1, 1, 1]), 50));
    assert!(!are_runs_decodable(
        &non_resident(0, &[0x81, 1, 0, 0, 0, 0, 0, 0, 0, 0x80]),
        50
    ));
}

#[test]
fn runs_that_end_beyond_all_numbers_are_caught() {
    let endless = [0x18, 0xFF, 0xFF, 0xFF, 0xFF, 0xFF, 0xFF, 0xFF, 0xFF, 2];
    let alone = non_resident(0, &endless);
    assert!(are_runs_decodable(&alone, 50));
    assert!(parse_data_runs(&alone, 50).is_empty());
    assert!(parse_data_runs(&alone, u64::MAX).is_empty());
    let mut runs = vec![0x11, 4, 8];
    runs.extend_from_slice(&endless);
    runs.extend_from_slice(&[0x11, 1, 1, 0]);
    let behind = non_resident(0, &runs);
    assert!(are_runs_decodable(&behind, 50));
    assert_eq!(parse_data_runs(&behind, 50), vec![(8, 4)]);
}

#[test]
fn paths_lead_to_the_root() {
    let mut dirs: HashMap<u64, (String, u64)> = HashMap::new();
    dirs.insert(30, ("a".to_string(), 5));
    dirs.insert(31, ("b".to_string(), 30));
    dirs.insert(32, ("c".to_string(), 31));
    dirs.insert(40, ("x".to_string(), 41));
    dirs.insert(41, ("y".to_string(), 40));
    dirs.insert(50, ("orphan".to_string(), 99));
    assert_eq!(build_path(&dirs, 5), "");
    assert_eq!(build_path(&dirs, 30), "a");
    assert_eq!(build_path(&dirs, 32), "a/b/c");
    assert_eq!(build_path(&dirs, 40), "y/x");
    assert_eq!(build_path(&dirs, 50), "orphan");
    assert_eq!(build_path(&dirs, 77), "");
}

#[test]
fn scan_finds_the_deleted_records() {
    let info = volume();
    let mut image = Image::new(10240 + 1024 * 40);
    let at = |i: u64| 10240 + 1024 * i;
    image.put(at(5), &record(3, &[file_name(5, ".")]));
    image.put(at(20), &record(3, &[file_name(5, "DOCUME~1"), file_name(5, "Documents")]));
    image.put(
        at(21),
        &record(0, &[file_name(20, "note.txt"), file_name(20, "second"), resident(0x80, 0, b"hi!")]),
    );
    image.put(
        at(22),
        &record(
            0,
            &[
                file_name(20, "big.bin"),
                resident(0x80, 1, b"stream"),
                non_resident(2500, &[0x11, 2, 100, 0x11, 1, 0xF6, 0]),
                resident(0x80, 4, b"other"),
            ],
        ),
    );
    image.put(at(23), &record(0, &[]));
    image.put(at(24), &record(2, &[file_name(20, "old folder")]));
    image.put(at(25), &record(1, &[file_name(20, "kept.txt")]));
    image.put(at(26), &record(0, &[file_name(5, "named"), resident(0x80, 3, b"only")]));
    image.put(
        at(27),
        &record(
            0,
            &[file_name(5, "streams"), resident(0x80, 1, b"abc"), resident(0x80, 1, b"defgh")],
        ),
    );
    image.put(
        at(28),
        &record(
            0,
            &[
                file_name(5, "late"),
                resident(0x80, 1, b"first"),
                resident(0x80, 0, b"main"),
                resident(0x80, 1, b"last"),
            ],
        ),
    );
    let mut walk = scan(&info);
    assert_eq!(finish(&mut walk, &image), Ok(()));
    let files = walk.into_found();
    let rows: Vec<(&str, &str, u64, u64, bool)> = files
        .iter()
        .map(|f| (f.name.as_str(), f.path.as_str(), f.size, f.start_address, f.is_directory))
        .collect();
    assert_eq!(
        rows,
        vec![
            ("note.txt", "Documents", 3, 0, false),
            ("big.bin", "Documents", 2500, 102400, false),
            ("MFT_RECORD_23", "", 0, 0, false),
            ("old folder", "Documents", 0, 0, true),
            ("named", "", 4, 0, false),
            ("streams", "", 3, 0, false),
            ("late", "", 4, 0, false),
        ]
    );
    assert_eq!(files[0].resident_data.as_deref(), Some(&b"hi!"[..]));
    assert_eq!(files[1].data_runs, vec![(100, 2), (90, 1)]);
    assert!(files[1].resident_data.is_none());
    assert_eq!(files[4].resident_data.as_deref(), Some(&b"only"[..]));
    assert_eq!(files[5].resident_data.as_deref(), Some(&b"abc"[..]));
    assert_eq!(files[6].resident_data.as_deref(), Some(&b"main"[..]));
    assert!(files.iter().all(|f| f.fs_type == "NTFS"));
}

#[test]
fn an_empty_record_ends_the_search_for_directories() {
    let info = volume();
    let mut image = Image::new(10240 + 1024 * 120);
    for i in 0..=100u64 {
        image.put(10240 + 1024 * i, b"BAAD");
    }
    image.put(10240 + 1024 * 110, &record(3, &[file_name(5, "unseen")]));
    image.put(10240 + 1024 * 111, &record(0, &[file_name(110, "late")]));
    let mut walk = scan(&info);
    assert_eq!(finish(&mut walk, &image), Ok(()));
    let files = walk.into_found();
    assert_eq!(files.len(), 1);
    assert_eq!((files[0].name.as_str(), files[0].path.as_str()), ("late", ""));
}

#[test]
fn a_record_that_cannot_be_read_is_told_apart() {
    let info = volume();
    let walk = scan(&info);
    assert_eq!(walk.need(), Need::Read(Request { offset: 10240, len: 1024 }));
    let bad = record(3, &[resident(0x30, 0, b"")]);
    assert!(walk.can_take(Some(&record(3, &[file_name(5, "a")]))));
    assert!(!walk.can_take(Some(&bad)));
    assert!(walk.can_take(None));
}

#[test]
fn a_table_without_addresses_is_told_apart() {
    assert!(is_table_addressable(&volume()));
    assert!(!is_table_addressable(&NtfsInfo { sectors_per_cluster: 0, ..volume() }));
    assert!(!is_table_addressable(&NtfsInfo { partition_offset: u64::MAX, ..volume() }));
}

fn found(size: u64, start_address: u64, data_runs: Vec<(u64, u64)>) -> DeletedFile {
    DeletedFile {
        name: "x".to_string(),
        size,
        start_address,
        fs_type: "NTFS".to_string(),
        path: String::new(),
        is_directory: false,
        resident_data: None,
        data_runs,
    }
}

fn restored(info: &NtfsInfo, entry: &DeletedFile, image: &Image) -> (Vec<u8>, u64, Status) {
    assert!(is_restorable(info, entry));
    let mut task = match restore(info, entry) {
        NtfsPlan::Whole(data) => return (data, 0, Ok(())),
        NtfsPlan::Clusters(task) => task,
    };
    let mut out: Vec<u8> = Vec::new();
    while let Some(request) = task.wants() {
        let reply = image.read(request);
        assert!(task.can_take(reply.as_deref()));
        let (pieces, next) = task.resume(reply.as_deref());
        for piece in pieces {
            if let Piece::Emit(chunk) = piece {
                out.extend_from_slice(&chunk);
            }
        }
        task = next;
    }
    let status = task.status();
    (out, task.remaining(), status)
}

fn cluster(seed: u8) -> Vec<u8> {
    (0..1024u32).map(|i| (i as u8).wrapping_add(seed)).collect()
}

#[test]
fn restore_follows_the_runs() {
    let info = volume();
    let mut image = Image::new(1 << 20);
    image.put(100 * 1024, &cluster(1));
    image.put(101 * 1024, &cluster(2));
    image.put(90 * 1024, &cluster(3));
    let entry = found(2500, 102400, vec![(100, 2), (500, 0), (90, 1)]);
    let all = [cluster(1), cluster(2), cluster(3)].concat();
    assert_eq!(restored(&info, &entry, &image), (all[..2500].to_vec(), 0, Ok(())));
    let longer = found(5000, 102400, vec![(100, 2), (90, 1)]);
    assert_eq!(restored(&info, &longer, &image), (all, 5000 - 3072, Ok(())));
}

#[test]
fn restore_writes_what_the_record_holds() {
    let info = volume();
    let mut entry = found(3, 0, Vec::new());
    entry.resident_data = Some(b"hi!".to_vec());
    assert_eq!(restored(&info, &entry, &Image::new(0)), (b"hi!".to_vec(), 0, Ok(())));
}

#[test]
fn restore_without_runs_goes_on_from_the_address() {
    let info = volume();
    let mut image = Image::new(1 << 20);
    image.put(7 * 1024, &cluster(4));
    image.put(8 * 1024, &cluster(5));
    let entry = found(1030, 7 * 1024 + 3, Vec::new());
    let all = [cluster(4), cluster(5)].concat();
    assert_eq!(restored(&info, &entry, &image), (all[..1030].to_vec(), 0, Ok(())));
    assert_eq!(
        restored(&info, &found(0, 0, Vec::new()), &image),
        (Vec::new(), 0, Ok(()))
    );
}

#[test]
fn ntfs_restore_reports_what_it_cannot_read() {
    let info = volume();
    let mut image = Image::new(1 << 20);
    image.broken.push(101 * 1024);
    let (out, left, status) = restored(&info, &found(2000, 0, vec![(100, 2)]), &image);
    assert_eq!((out.len(), left), (1024, 976));
    assert_eq!(status, Err(Failure::Unreadable { offset: 101 * 1024 }));
    assert!(!is_restorable(&info, &found(1, 0, vec![(u64::MAX, 1)])));
    let flat = NtfsInfo { bytes_per_sector: 0, ..info };
    assert!(!is_restorable(&flat, &found(1, 0, Vec::new())));
}
