use recovery::cli::{
    drive_of, filter_results, handle_results, is_disk_path, is_system_drive, matches_path,
    matches_search, parse_flag_str, parse_flag_value, parse_index, position, resolve_path,
    restoring_line, target_or_default, wants_help, Decision, FlagValue, IndexFlag,
};
use recovery::types::{is_directory, DeletedFile};

fn args(list: &[&str]) -> Vec<String> {
    list.iter().map(|a| a.to_string()).collect()
}

fn file(name: &str, path: &str, size: u64, start_address: u64) -> DeletedFile {
    DeletedFile {
        name: name.to_string(),
        size,
        start_address,
        fs_type: "FAT32".to_string(),
        path: path.to_string(),
        is_directory: false,
        resident_data: None,
        data_runs: Vec::new(),
    }
}

#[test]
fn flags_give_the_next_argument() {
    let list = args(&["recovery", "D:", "--output", "x.bin", "--output", "y.bin", "--search"]);
    assert_eq!(position(&list, "--output"), Some(2));
    assert_eq!(parse_flag_str(&list, "--output"), FlagValue::At(3));
    assert_eq!(parse_flag_str(&list, "--search"), FlagValue::Missing);
    assert_eq!(parse_flag_str(&list, "--restore"), FlagValue::Absent);
    assert_eq!(parse_flag_str(&Vec::new(), "--restore"), FlagValue::Absent);
}

#[test]
fn index_flags_give_a_number() {
    let list = args(&["recovery", "D:", "--restore", "12"]);
    assert_eq!(parse_flag_value(&list, "--restore"), IndexFlag::Index(12));
    assert_eq!(parse_flag_value(&list, "--other"), IndexFlag::Absent);
    let list = args(&["recovery", "D:", "--restore", "one"]);
    assert_eq!(parse_flag_value(&list, "--restore"), IndexFlag::Invalid(3));
    let list = args(&["recovery", "D:", "--restore"]);
    assert_eq!(parse_flag_value(&list, "--restore"), IndexFlag::Missing);
}

#[test]
fn indices_are_read_as_the_standard_library_reads_them() {
    let texts = [
        "0", "7", "007", "+5", "+", "", "-1", "-0", " 1", "1 ", "1_000", "0x10", "++1", "\u{663}",
        "18446744073709551615", "18446744073709551616", "99999999999999999999", "184467440737095516150",
    ];
    for text in texts {
        assert_eq!(parse_index(text), text.parse::<usize>().ok());
    }
    assert_eq!(parse_index(&usize::MAX.to_string()), Some(usize::MAX));
}

#[test]
fn help_is_asked_for() {
    assert!(wants_help(&args(&["recovery"])));
    assert!(wants_help(&Vec::new()));
    assert!(wants_help(&args(&["recovery", "D:", "--help"])));
    assert!(wants_help(&args(&["recovery", "-h"])));
    assert!(!wants_help(&args(&["recovery", "D:"])));
}

#[test]
fn drives_are_recognized() {
    assert_eq!(drive_of("d:\\x", Some("d:")), Some('D'));
    assert_eq!(drive_of("E:", Some("E:")), Some('E'));
    assert_eq!(drive_of("e", Some("e")), Some('E'));
    assert_eq!(drive_of("E::", Some("E::")), Some('E'));
    assert_eq!(drive_of("\\\\.\\D:", Some("\\\\.\\D:")), None);
    assert_eq!(drive_of("folder", Some("folder")), None);
    assert_eq!(drive_of("1:", Some("1:")), None);
    assert_eq!(drive_of("\u{E9}:", Some("\u{E9}:")), None);
    assert_eq!(drive_of("", None), None);
}

#[test]
fn paths_are_resolved() {
    let pair = |a: &str, b: &str| (a.to_string(), b.to_string());
    assert_eq!(resolve_path("/dev/sdb1", None, None), pair("/dev/sdb1", ""));
    assert_eq!(
        resolve_path("D:\\Users\\me\\", Some('D'), Some("\\Users\\me\\")),
        pair("\\\\.\\D:", "Users/me")
    );
    assert_eq!(resolve_path("D:", Some('D'), Some("")), pair("\\\\.\\D:", ""));
    assert_eq!(resolve_path("D:\\", Some('D'), Some("\\")), pair("\\\\.\\D:", ""));
    assert_eq!(resolve_path("d", Some('D'), None), pair("\\\\.\\D:", ""));
}

#[test]
fn whole_disks_are_recognized() {
    assert!(is_disk_path("\\\\.\\PhysicalDrive0"));
    assert!(is_disk_path("/dev/sdb"));
    assert!(is_disk_path("/dev/sdaa"));
    assert!(!is_disk_path("/dev/sdb1"));
    assert!(!is_disk_path("/dev/sd"));
    assert!(!is_disk_path("\\\\.\\D:"));
    assert!(!is_disk_path("/dev/nvme0n1"));
}

#[test]
fn the_system_drive_is_recognized() {
    assert!(is_system_drive("\\\\.\\C:"));
    assert!(is_system_drive("\\\\.\\c:"));
    assert!(!is_system_drive("\\\\.\\D:"));
    assert!(!is_system_drive("C:"));
}

#[test]
fn directories_match() {
    assert!(matches_path("anything", ""));
    assert!(matches_path("Users/me", "Users/me"));
    assert!(matches_path("Users/me/docs", "Users/me"));
    assert!(!matches_path("Users/meter", "Users/me"));
    assert!(!matches_path("Users", "Users/me"));
}

#[test]
fn searches_ignore_case() {
    assert!(matches_search("Report.DOCX", Some(".docx")));
    assert!(matches_search("report.docx", Some("PORT")));
    assert!(matches_search("anything", Some("")));
    assert!(matches_search("anything", None));
    assert!(!matches_search("report.doc", Some(".docx")));
    assert!(matches_search("\u{C9}T\u{C9}.txt", Some("\u{E9}t\u{E9}")));
}

#[test]
fn results_are_filtered() {
    let all = vec![
        file("a.txt", "docs", 1, 1),
        file("B.TXT", "docs/old", 1, 1),
        file("c.bin", "docs", 1, 1),
        file("d.txt", "other", 1, 1),
    ];
    let names = |files: Vec<DeletedFile>| -> Vec<String> {
        files.into_iter().map(|f| f.name).collect()
    };
    assert_eq!(
        names(filter_results(all.clone(), Some("docs"), Some(".txt"))),
        vec!["a.txt", "B.TXT"]
    );
    assert_eq!(
        names(filter_results(all.clone(), None, Some("TXT"))),
        vec!["a.txt", "B.TXT", "d.txt"]
    );
    assert_eq!(names(filter_results(all.clone(), Some(""), None)).len(), 4);
    assert!(filter_results(all, Some("none"), None).is_empty());
}

#[test]
fn results_are_shown_or_restored() {
    let mut files = vec![
        file("a", "", 10, 512),
        file("b", "", 10, 0),
        file("c", "", 0, 0),
        file("d", "", 10, 0),
    ];
    files[3].resident_data = Some(vec![1; 10]);
    assert_eq!(handle_results(&files, None), Decision::Show);
    assert_eq!(handle_results(&files, Some(0)), Decision::Restore(0));
    assert_eq!(handle_results(&files, Some(1)), Decision::NoAddress(1));
    assert_eq!(handle_results(&files, Some(2)), Decision::Empty(2));
    assert_eq!(handle_results(&files, Some(3)), Decision::Restore(3));
    assert_eq!(handle_results(&files, Some(4)), Decision::OutOfRange { last: 3 });
    assert_eq!(handle_results(&Vec::new(), Some(0)), Decision::OutOfRange { last: 0 });
}

#[test]
fn a_restore_has_a_target() {
    assert_eq!(target_or_default(None), "recovered.bin");
    assert_eq!(target_or_default(Some("out/x.bin")), "out/x.bin");
    assert_eq!(
        restoring_line(&file("a b", "", 1234, 0xABCDE), "t.bin"),
        "Restoring 'a b' (1234 bytes, address 0xABCDE) to 't.bin'..."
    );
}

#[test]
fn the_directory_bit_is_the_fifth() {
    for attr in 0..=255u8 {
        assert_eq!(is_directory(attr), attr & 0x10 != 0);
    }
}
