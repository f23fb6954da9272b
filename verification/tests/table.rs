use recovery::table::{render_table, sep_line};
use recovery::types::DeletedFile;

fn file(name: &str, path: &str, size: u64, start_address: u64, is_directory: bool) -> DeletedFile {
    DeletedFile {
        name: name.to_string(),
        size,
        start_address,
        fs_type: "FAT32".to_string(),
        path: path.to_string(),
        is_directory,
        resident_data: None,
        data_runs: Vec::new(),
    }
}

#[test]
fn separators_are_two_wider() {
    assert_eq!(sep_line(0), "--");
    assert_eq!(sep_line(5), "-------");
}

#[test]
fn an_empty_table_says_so() {
    assert_eq!(render_table(&Vec::new()), "\nNo deleted files found.\n");
}

#[test]
fn a_table_of_one_file() {
    let text = render_table(&vec![file("notes.txt", "", 1234567, 0x9A000, false)]);
    let expected = "\nDeleted Files:\n\nDeleted Files:\n\
        +--------------+-----------+---------+---------------+-------+------+\n\
        | Status       | Name      |    Size | Start Address | FS    | Path |\n\
        +--------------+-----------+---------+---------------+-------+------+\n\
        | Deleted      | notes.txt | 1234567 | 0x0009A000    | FAT32 |      |\n\
        +--------------+-----------+---------+---------------+-------+------+\n\
        \nFound 1 deleted entry.\n";
    assert_eq!(text, expected);
}

#[test]
fn rows_are_as_wide_as_the_widest() {
    let text = render_table(&vec![
        file("a", "x/y", 5, 0x1_2345_6789, false),
        file("directory", "", 0, 0, true),
    ]);
    let lines: Vec<&str> = text.lines().collect();
    assert_eq!(lines[5], "| Status       | Name      | Size | Start Address | FS    | Path |");
    assert_eq!(lines[7], "| Deleted      | a         |    5 | 0x123456789   | FAT32 | x/y  |");
    assert_eq!(lines[8], "| Deleted (Dir) | directory |    0 | 0x00000000    | FAT32 |      |");
    assert_eq!(lines[11], "Found 2 deleted entries.");
}

#[test]
fn long_names_and_paths_are_cut() {
    let name = "n".repeat(58) + "END";
    let path = "START".to_string() + &"p".repeat(40);
    let text = render_table(&vec![file(&name, &path, 0, 0, false)]);
    let row = text.lines().nth(7).unwrap();
    assert_eq!(
        row,
        format!(
            "| Deleted      | {}... |    0 | 0x00000000    | FAT32 | ...{} |",
            "n".repeat(57),
            "p".repeat(37)
        )
    );
    let whole = "n".repeat(60);
    assert!(render_table(&vec![file(&whole, "", 0, 0, false)]).contains(&whole));
}

#[test]
fn padding_counts_characters_and_widths_count_bytes() {
    let text = render_table(&vec![file("\u{E9}\u{E9}\u{E9}", "", 0, 0, false)]);
    let lines: Vec<&str> = text.lines().collect();
    assert_eq!(lines[5], "| Status       | Name   | Size | Start Address | FS    | Path |");
    assert_eq!(
        lines[7],
        "| Deleted      | \u{E9}\u{E9}\u{E9}    |    0 | 0x00000000    | FAT32 |      |"
    );
}

fn row_of(name: &str, path: &str) -> String {
    let text = render_table(&vec![file(name, path, 0, 0, false)]);
    text.lines().nth(7).unwrap().to_string()
}

#[test]
fn names_are_cut_between_characters() {
    let row = row_of(&"\u{E9}".repeat(31), "");
    let shown = format!("{}...", "\u{E9}".repeat(28));
    assert_eq!(
        row,
        format!("| Deleted      | {:60} |    0 | 0x00000000    | FAT32 |      |", shown)
    );
    let odd = "a".repeat(56) + &"\u{E9}".repeat(3);
    assert!(row_of(&odd, "").contains(&format!("| {}...  |", "a".repeat(56))));
    let even = "a".repeat(57) + &"\u{E9}".repeat(3);
    assert!(row_of(&even, "").contains(&format!("| {}... |", "a".repeat(57))));
    let wide = "a".repeat(55) + "\u{1F600}\u{1F600}";
    assert!(row_of(&wide, "").contains(&format!("| {}... ", "a".repeat(55))));
    let whole = "\u{E9}".repeat(30);
    assert!(row_of(&whole, "").contains(&whole));
}

#[test]
fn paths_are_cut_between_characters() {
    let whole = "xx".to_string() + "\u{E9}" + &"b".repeat(36);
    assert_eq!(whole.len(), 40);
    assert!(row_of("a", &whole).contains(&format!("| {} ", whole)));
    let cut = "xxx".to_string() + "\u{E9}" + &"b".repeat(36);
    assert!(row_of("a", &cut).ends_with(&format!("| ...{}  |", "b".repeat(36))));
    let even = "xxxx".to_string() + "\u{20AC}" + &"b".repeat(34);
    assert!(row_of("a", &even).ends_with(&format!("| ...\u{20AC}{}   |", "b".repeat(34))));
}
