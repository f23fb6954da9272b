use recovery::bytes::{array_of, is_power_of_two, tag_at, two_to_the};
use recovery::ext_scan::clean_name;
use recovery::text::{
    chars_of, contains_text, decode_utf16_lossy, is_ascii_punctuation, join_reversed, push_decimal,
    push_hex, same_text, starts_with,
};

#[test]
fn numbers_are_written() {
    for n in [0u64, 7, 10, 99, 100, 4096, u64::MAX] {
        let mut text = String::from("n=");
        push_decimal(&mut text, n);
        assert_eq!(text, format!("n={}", n));
        for width in [0usize, 1, 2, 8] {
            let mut text = String::new();
            push_hex(&mut text, n, width);
            assert_eq!(text, format!("{:01$X}", n, width));
        }
    }
}

#[test]
fn utf16_is_decoded_as_the_standard_library_does() {
    let cases: [&[u16]; 8] = [
        &[],
        &[0x61, 0x62],
        &[0xD83D, 0xDE00],
        &[0xD83D],
        &[0xDE00, 0x61],
        &[0xD83D, 0xD83D, 0xDE00],
        &[0xFFFF, 0xE000, 0xD7FF],
        &[0xDBFF, 0xDFFF, 0xD800, 0x20],
    ];
    for units in cases {
        assert_eq!(decode_utf16_lossy(units), String::from_utf16_lossy(units));
    }
    let all: Vec<u16> = (0..=0xFFFFu16).collect();
    assert_eq!(decode_utf16_lossy(&all), String::from_utf16_lossy(&all));
}

#[test]
fn texts_are_compared_and_searched() {
    assert!(same_text("a\u{E9}", "a\u{E9}"));
    assert!(!same_text("a", "ab"));
    assert!(starts_with("prefix", "pre") && !starts_with("pre", "prefix"));
    assert!(contains_text("haystack", "stack") && contains_text("", ""));
    assert!(!contains_text("haystack", "needle"));
    assert_eq!(chars_of("a\u{1F600}"), vec!['a', '\u{1F600}']);
}

#[test]
fn texts_are_joined_last_first() {
    let parts = vec!["c".to_string(), "b".to_string(), "a".to_string()];
    assert_eq!(join_reversed(&parts, "/"), "a/b/c");
    assert_eq!(join_reversed(&Vec::new(), "/"), "");
}

#[test]
fn ascii_punctuation_is_told_apart() {
    for code in 0..=0x24Fu32 {
        let c = char::from_u32(code).unwrap();
        assert_eq!(is_ascii_punctuation(c), c.is_ascii_punctuation());
    }
}

#[test]
fn letters_of_all_scripts_are_kept() {
    let text = "\u{4E2D}\u{6587}-\u{43F}\u{440}\u{438}\u{432}\u{435}\u{442}\u{2014}\u{B2}";
    let kept: String =
        text.chars().filter(|c| c.is_alphanumeric() || c.is_ascii_punctuation()).collect();
    assert_eq!(clean_name(text), kept);
}

#[test]
fn powers_of_two_are_told_apart() {
    for n in 0..=u16::MAX {
        assert_eq!(is_power_of_two(n), n.is_power_of_two());
    }
    assert_eq!(two_to_the(0), 1);
    assert_eq!(two_to_the(31), 0x8000_0000);
}

#[test]
fn tags_are_found_in_bytes() {
    assert!(tag_at(b"xxFILE", 2, "FILE"));
    assert!(!tag_at(b"xxFILE", 1, "FILE"));
    let array: [u8; 3] = array_of(&[1, 2, 3]);
    assert_eq!(array, [1, 2, 3]);
}
