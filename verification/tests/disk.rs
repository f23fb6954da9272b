use recovery::disk::{
    parse_gpt, parse_mbr, read_u16_le, read_u32_le, read_u64_le, scan_disk, scan_partition,
    Partition, MBR_SIGNATURE,
};
use recovery::disk_scan::{files_of, DiskTask, Event, VolumeKind};
use recovery::gpt::{
    fs_type_from_gpt_guid, gpt_type_text, guid_to_string, read_gpt_header,
    read_gpt_partition_name, try_parse_gpt, GptHeader,
};
use recovery::volume::{check_boot_layout, probe_boot, scan_volume, Detection, Volume};
use recovery::walk::{Failure, Need, Request, Task, Walk};
use std::collections::HashMap;

struct Image {
    bytes: HashMap<u64, u8>,
    len: u64,
    broken: Vec<u64>,
}

impl Image {
    fn new(len: u64) -> Image {
        Image { bytes: HashMap::new(), len, broken: Vec::new() }
    }

    fn put(&mut self, offset: u64, data: &[u8]) {
        for (i, b) in data.iter().enumerate() {
            self.bytes.insert(offset + i as u64, *b);
        }
    }

    fn read(&self, request: Request) -> Option<Vec<u8>> {
        let end = request.offset.checked_add(request.len as u64)?;
        if end > self.len || self.broken.contains(&request.offset) {
            return None;
        }
        Some((request.offset..end).map(|o| self.bytes.get(&o).copied().unwrap_or(0)).collect())
    }
}

fn finish<T: Task>(walk: &mut Walk<T>, image: &Image) {
    loop {
        match walk.need() {
            Need::Nothing => return,
            Need::Step => walk.step(),
            Need::Read(request) => {
                let reply = image.read(request);
                assert!(walk.can_take(reply.as_deref()));
                walk.supply(reply.as_deref());
            }
        }
    }
}

fn events(mut walk: Walk<DiskTask>, image: &Image) -> Vec<Event> {
    finish(&mut walk, image);
    assert_eq!(walk.status(), Ok(()));
    let seen = walk.found().len();
    let events = walk.into_found();
    assert_eq!(events.len(), seen);
    events
}

fn lines(events: &[Event]) -> Vec<String> {
    events
        .iter()
        .map(|e| match e {
            Event::Line(line) => line.clone(),
            Event::Failed(kind, failure) => format!("{} {:?}", kind.name(), failure),
            Event::File(file) => format!("file {}/{}", file.path, file.name),
        })
        .collect()
}

fn mbr(entries: &[(u8, u32, u32)]) -> [u8; 512] {
    let mut mbr = [0u8; 512];
    for (i, (kind, start, count)) in entries.iter().enumerate() {
        let off = 446 + 16 * i;
        mbr[off + 4] = *kind;
        mbr[off + 8..off + 12].copy_from_slice(&start.to_le_bytes());
        mbr[off + 12..off + 16].copy_from_slice(&count.to_le_bytes());
    }
    mbr[510] = 0x55;
    mbr[511] = 0xAA;
    mbr
}

/// An exFAT volume of three clusters whose root directory holds one deleted file.
fn exfat_volume() -> Vec<u8> {
    let mut volume = vec![0u8; 8 * 512];
    volume[3..11].copy_from_slice(b"EXFAT   ");
    volume[80..84].copy_from_slice(&1u32.to_le_bytes());
    volume[88..92].copy_from_slice(&2u32.to_le_bytes());
    volume[96..100].copy_from_slice(&2u32.to_le_bytes());
    volume[108] = 9;
    volume[510] = 0x55;
    volume[511] = 0xAA;
    volume[1024] = 0xE5;
    volume[1056] = 0xE5;
    volume[1056 + 3] = 1;
    volume[1056 + 20] = 3;
    volume[1056 + 24] = 9;
    volume[1088] = 0xE5;
    volume[1088 + 4] = b'f';
    volume
}

/// An ext volume whose root inode cannot be found.
fn ext_volume() -> Vec<u8> {
    let mut volume = vec![0u8; 4096];
    volume[510] = 0x55;
    volume[511] = 0xAA;
    volume[1064..1068].copy_from_slice(&16u32.to_le_bytes());
    volume[1080..1082].copy_from_slice(&0xEF53u16.to_le_bytes());
    volume[1112..1114].copy_from_slice(&128u16.to_le_bytes());
    volume
}

fn guid_bytes() -> [u8; 16] {
    [
        0xA2, 0xA0, 0xD0, 0xEB, 0xE5, 0xB9, 0x33, 0x44, 0x87, 0xC0, 0x68, 0xB6, 0xB7, 0x26, 0x99,
        0xC7,
    ]
}

fn gpt_entry(guid: &[u8; 16], start: u64, end: u64, name: &str) -> [u8; 128] {
    let mut entry = [0u8; 128];
    entry[..16].copy_from_slice(guid);
    entry[32..40].copy_from_slice(&start.to_le_bytes());
    entry[40..48].copy_from_slice(&end.to_le_bytes());
    for (i, unit) in name.encode_utf16().enumerate() {
        entry[56 + 2 * i..58 + 2 * i].copy_from_slice(&unit.to_le_bytes());
    }
    entry
}

fn gpt_header_sector(lba: u64, count: u32, size: u32) -> [u8; 512] {
    let mut sector = [0u8; 512];
    sector[..8].copy_from_slice(b"EFI PART");
    sector[72..80].copy_from_slice(&lba.to_le_bytes());
    sector[80..84].copy_from_slice(&count.to_le_bytes());
    sector[84..88].copy_from_slice(&size.to_le_bytes());
    sector
}

#[test]
fn little_endian_numbers_are_read() {
    let buf = [0x11u8, 0x22, 0x33, 0x44, 0x55, 0x66, 0x77, 0x88, 0x99];
    assert_eq!(read_u16_le(&buf, 1), 0x3322);
    assert_eq!(read_u32_le(&buf, 1), 0x5544_3322);
    assert_eq!(read_u64_le(&buf, 1), 0x9988_7766_5544_3322);
    assert_eq!(MBR_SIGNATURE, 0xAA55);
}

#[test]
fn mbr_partitions_are_read() {
    let parts = parse_mbr(&mbr(&[(0x0C, 2048, 4096), (0, 1, 1), (0x83, 9000, 0), (0x42, 7, 8)]));
    assert_eq!(parts.len(), 2);
    assert_eq!((parts[0].start_lba, parts[0].num_sectors, parts[0].fs_type_byte), (2048, 4096, 12));
    assert_eq!(
        parts[0].label,
        "Partition 1: FAT32 (LBA) (LBA 2048, 4096 sectors, type 0x0C)"
    );
    assert_eq!(parts[1].label, "Partition 4: Unknown (LBA 7, 8 sectors, type 0x42)");
    let mut unsigned = mbr(&[(0x0C, 2048, 4096)]);
    unsigned[510] = 0;
    assert!(parse_mbr(&unsigned).is_empty());
}

#[test]
fn mbr_types_have_names() {
    let names: Vec<String> = [0x01u8, 0x04, 0x06, 0x07, 0x0B, 0x0E, 0x0F, 0x82, 0x83, 0x8E, 0xEE]
        .iter()
        .map(|kind| parse_mbr(&mbr(&[(*kind, 1, 1)]))[0].label.clone())
        .map(|label| label["Partition 1: ".len()..label.find(" (LBA 1").unwrap()].to_string())
        .collect();
    assert_eq!(
        names,
        vec![
            "FAT12",
            "FAT16",
            "FAT16B",
            "NTFS/exFAT",
            "FAT32",
            "FAT16B (LBA)",
            "Extended (LBA)",
            "Linux swap",
            "Linux ext",
            "Linux LVM",
            "GPT protective",
        ]
    );
}

#[test]
fn guids_are_written_and_recognized() {
    let text = guid_to_string(&guid_bytes(), 0);
    assert_eq!(text, "EBD0A0A2-B9E5-4433-87C0-68B6B72699C7");
    assert_eq!(guid_to_string(&guid_bytes(), 1), "");
    assert_eq!(fs_type_from_gpt_guid(&text), "Microsoft Basic Data (FAT32/NTFS/exFAT)");
    assert_eq!(
        fs_type_from_gpt_guid("c12a7328-f81f-11d2-ba4b-00a0c93ec93b"),
        "EFI System (FAT32)"
    );
    assert_eq!(gpt_type_text("c12a7328-f81f-11d2-ba4b-00a0c93ec93b"), "Unknown");
    assert_eq!(gpt_type_text("0FC63DAF-8483-4772-8E79-3D69D8477DE4"), "Linux filesystem");
    assert_eq!(gpt_type_text("0657FD6D-A4AB-43C4-84E5-0933C84B4F4F"), "Linux swap");
    assert_eq!(gpt_type_text("E6D6D379-F507-44C2-A23C-238F2A3DF928"), "Linux LVM");
    assert_eq!(gpt_type_text("A19D880F-05FC-4D3B-A006-743F0F84911E"), "Linux RAID");
    assert_eq!(gpt_type_text("BFC0C1A0-604D-46C1-99EA-097E43B8F539"), "Linux /boot (ext)");
    assert_eq!(gpt_type_text("933AC7E1-2EB4-4F13-B844-0E14E2AEF915"), "Linux /home (ext)");
    assert_eq!(gpt_type_text("3B8F8425-20E0-4F3B-907F-1A25A76F98E8"), "Linux /root (ext)");
    assert_eq!(gpt_type_text("D3BFE2DE-3DAF-11DF-BA40-E3A556D89593"), "Intel Rapid Start");
    assert_eq!(gpt_type_text("DE94BBA4-06D1-4D40-A16A-BFD50179D6AC"), "Windows Recovery");
}

#[test]
fn gpt_headers_are_read() {
    let header = read_gpt_header(&gpt_header_sector(2, 128, 0)).unwrap();
    assert_eq!((header.entries_lba, header.count, header.entry_size), (2, 128, 128));
    assert_eq!(header.request(), Some(Request { offset: 1024, len: 16384 }));
    let odd = GptHeader { entries_lba: 3, count: 3, entry_size: 200 };
    assert_eq!(odd.request(), Some(Request { offset: 1536, len: 1024 }));
    let many = GptHeader { entries_lba: 1, count: 5000, entry_size: 128 };
    assert_eq!(many.request(), Some(Request { offset: 512, len: 65536 }));
    let none = GptHeader { entries_lba: u64::MAX, count: 0, entry_size: 128 };
    assert!(none.is_addressable());
    assert_eq!(none.request(), None);
    assert!(!GptHeader { count: 1, ..none }.is_addressable());
    let mut plain = gpt_header_sector(2, 128, 128);
    plain[0] = b'e';
    assert!(read_gpt_header(&plain).is_none());
}

#[test]
fn gpt_partitions_are_read() {
    let mut entries = gpt_entry(&guid_bytes(), 2048, 4095, "Data \u{1F600}").to_vec();
    entries.extend_from_slice(&[0u8; 128]);
    entries.extend_from_slice(&gpt_entry(&[1u8; 16], 9000, 10, ""));
    entries.resize(512, 0);
    let header = GptHeader { entries_lba: 2, count: 3, entry_size: 128 };
    let parts = parse_gpt(&entries, &header);
    assert_eq!(parts.len(), 2);
    assert_eq!(
        (parts[0].start_lba, parts[0].num_sectors, parts[0].fs_type_byte),
        (2048, 2048, 0)
    );
    assert_eq!(
        parts[0].label,
        "Partition 1: \"Data \u{1F600}\" - Microsoft Basic Data (FAT32/NTFS/exFAT) \
         (LBA 2048..4095, 2048 sectors)"
    );
    assert_eq!(parts[1].label, "Partition 3: Unknown (LBA 9000..10, 1 sectors)");
}

#[test]
fn gpt_names_end_at_a_zero_or_after_36_units() {
    let mut buf = vec![0x61u8, 0, 0x62, 0, 0, 0];
    assert_eq!(read_gpt_partition_name(&buf, 0), "ab");
    buf = [0x7Au8, 0].repeat(40);
    assert_eq!(read_gpt_partition_name(&buf, 0), "z".repeat(36));
}

#[test]
fn gpt_entries_that_cannot_be_read_are_told_apart() {
    let header = GptHeader { entries_lba: 2, count: 1, entry_size: 128 };
    let whole = gpt_entry(&guid_bytes(), 0, u64::MAX - 1, "n");
    assert!(try_parse_gpt(&whole, &header).is_some());
    let endless = gpt_entry(&guid_bytes(), 0, u64::MAX, "n");
    assert!(try_parse_gpt(&endless, &header).is_none());
    assert!(try_parse_gpt(&whole[..47], &header).is_none());
    assert!(try_parse_gpt(&whole[..57], &header).is_none());
    assert!(try_parse_gpt(&whole[..60], &header).is_some());
    assert_eq!(try_parse_gpt(&whole[..15], &header).unwrap().len(), 0);
}

#[test]
fn volumes_are_recognized_in_order() {
    let mut sector = [0u8; 512];
    assert!(check_boot_layout(&sector));
    assert!(probe_boot(&sector).is_none());
    sector.copy_from_slice(&exfat_volume()[..512]);
    let volume = probe_boot(&sector).unwrap();
    assert!(matches!(volume, Volume::Exfat(_)));
    assert_eq!(
        volume.describe(),
        "Detected: exFAT (bytes/sector=512, sectors/cluster=1, root cluster=2)"
    );
    let mut fat32 = [0u8; 512];
    fat32[11..13].copy_from_slice(&512u16.to_le_bytes());
    fat32[13] = 1;
    fat32[14..16].copy_from_slice(&32u16.to_le_bytes());
    fat32[16] = 2;
    fat32[32..36].copy_from_slice(&70000u32.to_le_bytes());
    fat32[36..40].copy_from_slice(&600u32.to_le_bytes());
    fat32[44..48].copy_from_slice(&2u32.to_le_bytes());
    fat32[510] = 0x55;
    fat32[511] = 0xAA;
    fat32[3..11].copy_from_slice(b"EXFAT   ");
    fat32[108] = 9;
    fat32[96..100].copy_from_slice(&2u32.to_le_bytes());
    let volume = probe_boot(&fat32).unwrap();
    assert!(matches!(volume, Volume::Fat32(_)));
    assert_eq!(volume.sector_len(), 512);
    assert_eq!(
        volume.describe(),
        "Detected: FAT32 (bytes/sector=512, sectors/cluster=1, root cluster=2)"
    );
    let mut ntfs = [0u8; 512];
    ntfs[3..11].copy_from_slice(b"NTFS    ");
    ntfs[11..13].copy_from_slice(&512u16.to_le_bytes());
    ntfs[13] = 8;
    ntfs[48..56].copy_from_slice(&0xC0000u64.to_le_bytes());
    ntfs[64] = 0xF6;
    let volume = probe_boot(&ntfs).unwrap();
    assert!(matches!(volume, Volume::Ntfs(_)));
    assert_eq!(
        volume.describe(),
        "Detected: NTFS (MFT at offset 0xC0000000, record size=1024)"
    );
    ntfs[64] = 0xE0;
    assert!(!check_boot_layout(&ntfs));
}

fn detected(image: &Image) -> Vec<Volume> {
    let mut walk = Walk::start(Detection::Boot);
    finish(&mut walk, image);
    walk.into_found()
}

#[test]
fn the_volume_on_a_device_is_detected() {
    let mut image = Image::new(4096);
    image.put(0, &exfat_volume());
    let found = detected(&image);
    assert!(matches!(found[..], [Volume::Exfat(_)]));
    assert!(found[0].filters_by_path());
    let mut image = Image::new(4096);
    image.put(0, &ext_volume());
    let found = detected(&image);
    assert!(matches!(found[..], [Volume::Ext(_)]));
    assert_eq!(found[0].describe(), "Detected: ext4 (block size=1024)");
    assert_eq!(found[0].sector_len(), 1024);
    assert!(detected(&Image::new(4096)).is_empty());
    assert!(detected(&Image::new(100)).is_empty());
    let mut bad = ext_volume();
    bad[1048] = 40;
    assert!(!Detection::Super.can_take(Some(&bad[..2048])));
    assert!(Detection::Super.can_take(Some(&ext_volume()[..2048])));
}

#[test]
fn a_volume_is_scanned_as_its_kind() {
    let image_bytes = exfat_volume();
    let mut image = Image::new(4096);
    image.put(0, &image_bytes);
    let mut sector = [0u8; 512];
    sector.copy_from_slice(&image_bytes[..512]);
    let volume = probe_boot(&sector).unwrap();
    assert!(volume.is_scannable());
    let mut walk = scan_volume(&volume);
    finish(&mut walk, &image);
    let files = walk.into_found();
    assert_eq!(files.len(), 1);
    assert_eq!((files[0].name.as_str(), files[0].size), ("f", 9));
    assert_eq!(files[0].start_address, 1536);
}

#[test]
fn a_disk_with_an_mbr_is_scanned() {
    let mut image = Image::new(1 << 20);
    image.put(
        0,
        &mbr(&[(0x07, 8, 8), (0x05, 100, 5), (0x83, 40, 8), (0x0B, 60, 8)]),
    );
    image.put(8 * 512, &exfat_volume());
    image.put(40 * 512, &ext_volume());
    let found = events(scan_disk(), &image);
    assert_eq!(
        lines(&found),
        vec![
            "Found 4 MBR partition(s):",
            "  Partition 1: NTFS/exFAT (LBA 8, 8 sectors, type 0x07)",
            "  Partition 2: Unknown (LBA 100, 5 sectors, type 0x05)",
            "  Partition 3: Linux ext (LBA 40, 8 sectors, type 0x83)",
            "  Partition 4: FAT32 (LBA 60, 8 sectors, type 0x0B)",
            "",
            "  exFAT detected",
            "file /f",
            "Skipping extended partition: Partition 2: Unknown (LBA 100, 5 sectors, type 0x05)",
            "  ext4 detected",
            "ext4 RootInode",
            "  No boot signature for Partition 4: FAT32 (LBA 60, 8 sectors, type 0x0B)",
        ]
    );
    let files = files_of(found);
    assert_eq!(files.len(), 1);
    assert_eq!(files[0].start_address, 8 * 512 + 1536);
}

#[test]
fn a_disk_with_a_gpt_is_scanned() {
    let mut image = Image::new(1 << 20);
    image.put(0, &mbr(&[(0xEE, 1, 1000)]));
    image.put(512, &gpt_header_sector(2, 2, 128));
    image.put(1024, &gpt_entry(&guid_bytes(), 16, 23, "one"));
    image.put(1024 + 128, &gpt_entry(&guid_bytes(), 32, 39, ""));
    image.put(16 * 512, &exfat_volume());
    let mut plain = [0u8; 512];
    plain[510] = 0x55;
    plain[511] = 0xAA;
    image.put(32 * 512, &plain);
    assert_eq!(
        lines(&events(scan_disk(), &image)),
        vec![
            "GPT protective MBR detected, parsing GPT table...",
            "GPT: 2 partition entries at LBA 2, entry size 128",
            "Found 2 GPT partition(s):",
            "  Partition 1: \"one\" - Microsoft Basic Data (FAT32/NTFS/exFAT) (LBA 16..23, 8 sectors)",
            "  Partition 2: Microsoft Basic Data (FAT32/NTFS/exFAT) (LBA 32..39, 8 sectors)",
            "",
            "  exFAT detected",
            "file /f",
            "  Unrecognized filesystem",
        ]
    );
}

#[test]
fn without_a_usable_gpt_the_mbr_has_to_do() {
    let tail = vec![
        "GPT parsing failed, falling back to MBR.",
        "Found 2 MBR partition(s):",
        "  Partition 1: GPT protective (LBA 1, 1000 sectors, type 0xEE)",
        "  Partition 2: NTFS/exFAT (LBA 8, 8 sectors, type 0x07)",
        "",
        "Skipping GPT protective MBR entry.",
        "  exFAT detected",
        "file /f",
    ];
    let start = "GPT protective MBR detected, parsing GPT table...";
    let mut image = Image::new(1 << 20);
    image.put(0, &mbr(&[(0xEE, 1, 1000), (0x07, 8, 8)]));
    image.put(8 * 512, &exfat_volume());
    let mut expected = vec![start, "No GPT signature found"];
    expected.extend(tail.clone());
    assert_eq!(lines(&events(scan_disk(), &image)), expected);
    image.broken.push(512);
    expected[1] = "Cannot read GPT header at LBA 1";
    assert_eq!(lines(&events(scan_disk(), &image)), expected);
    image.broken.clear();
    image.put(512, &gpt_header_sector(2, 0, 128));
    expected[1] = "GPT: 0 partition entries at LBA 2, entry size 128";
    assert_eq!(lines(&events(scan_disk(), &image)), expected);
    image.put(512, &gpt_header_sector(2, 4, 128));
    expected[1] = "GPT: 4 partition entries at LBA 2, entry size 128";
    assert_eq!(lines(&events(scan_disk(), &image)), expected);
    image.broken.push(1024);
    expected.insert(2, "Cannot read GPT partition entries");
    assert_eq!(lines(&events(scan_disk(), &image)), expected);
}

#[test]
fn an_empty_or_unreadable_disk_is_reported() {
    let mut image = Image::new(4096);
    assert_eq!(lines(&events(scan_disk(), &image)), vec!["No partitions found."]);
    image.broken.push(0);
    assert_eq!(lines(&events(scan_disk(), &image)), vec!["ERROR: Cannot read MBR"]);
}

#[test]
fn a_partition_is_scanned_on_its_own() {
    let mut image = Image::new(1 << 20);
    image.put(8 * 512, &exfat_volume());
    let part = |start: u64| Partition {
        start_lba: start,
        num_sectors: 8,
        fs_type_byte: 7,
        label: "it".to_string(),
    };
    assert_eq!(
        lines(&events(scan_partition(&part(8)), &image)),
        vec!["  exFAT detected", "file /f"]
    );
    assert_eq!(
        lines(&events(scan_partition(&part(1 << 30)), &image)),
        vec!["  Cannot read boot sector for it"]
    );
    assert_eq!(VolumeKind::Ntfs.name(), "NTFS");
    assert_eq!(VolumeKind::Fat32.name(), "FAT32");
}

#[test]
fn a_fat32_failure_within_a_disk_is_reported() {
    let mut boot = [0u8; 512];
    boot[11..13].copy_from_slice(&512u16.to_le_bytes());
    boot[13] = 1;
    boot[14..16].copy_from_slice(&32u16.to_le_bytes());
    boot[16] = 2;
    boot[32..36].copy_from_slice(&70000u32.to_le_bytes());
    boot[36..40].copy_from_slice(&600u32.to_le_bytes());
    boot[44..48].copy_from_slice(&2u32.to_le_bytes());
    boot[510] = 0x55;
    boot[511] = 0xAA;
    let mut image = Image::new(4096);
    image.put(0, &mbr(&[(0x0B, 2, 100)]));
    image.put(1024, &boot);
    let found = events(scan_disk(), &image);
    assert!(matches!(
        found.last(),
        Some(Event::Failed(VolumeKind::Fat32, Failure::Unreadable { offset: 631808 }))
    ));
    assert!(files_of(found).is_empty());
}
