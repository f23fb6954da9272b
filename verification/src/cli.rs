//! The command line: its flags, what is to be opened, which files are shown, and what is to be
//! done with them.

use vstd::prelude::*;
use vstd::utf8::*;
use crate::text::{
    ascii_lowercase, ascii_upper_char, ascii_uppercase, chars_of, contains_text, decimal, hex,
    lowercase, occurs_at, occurs_in, push_decimal, push_hex, same_text, starts_with, texts,
    to_lowercase, to_uppercase, uppercase,
};
use crate::types::{file_models, DeletedFile, FileModel};

verus! {

// ---------------------------------------------------------------------------------------------
// Flags
// ---------------------------------------------------------------------------------------------

/// Where a text first occurs among arguments, from index `i` on.
pub open spec fn position_from(args: Seq<Seq<char>>, text: Seq<char>, i: int) -> Option<int>
    decreases args.len() - i,
{
    if i < 0 || i >= args.len() {
        None
    } else if args[i] == text {
        Some(i)
    } else {
        position_from(args, text, i + 1)
    }
}

/// Where a text first occurs among arguments.
pub fn position(args: &Vec<String>, text: &str) -> (at: Option<usize>)
    ensures
        at is Some <==> position_from(texts(args@), text@, 0) is Some,
        at matches Some(i) ==> position_from(texts(args@), text@, 0) == Some(i as int) && i
            < args@.len(),
{
    let ghost all = texts(args@);
    let mut i: usize = 0;
    while i < args.len()
        invariant
            i <= args@.len(),
            all == texts(args@),
            position_from(all, text@, i as int) == position_from(all, text@, 0),
        decreases args@.len() - i,
    {
        if same_text(args[i].as_str(), text) {
            return Some(i);
        }
        i = i + 1;
    }
    None
}

/// What the arguments give for a flag.
#[derive(Debug, Clone, Copy, PartialEq, Eq, Structural)]
pub enum FlagValue {
    /// The flag is not there.
    Absent,
    /// The flag is the last argument.
    Missing,
    /// The value is the argument with this index.
    At(usize),
}

/// What the arguments give for a flag: the argument behind its first occurrence.
pub open spec fn flag_value(args: Seq<Seq<char>>, flag: Seq<char>) -> FlagValue {
    match position_from(args, flag, 0) {
        None => FlagValue::Absent,
        Some(i) => if i + 1 < args.len() {
            FlagValue::At((i + 1) as usize)
        } else {
            FlagValue::Missing
        },
    }
}

/// What the arguments give for a flag that takes a text.
pub fn parse_flag_str(args: &Vec<String>, flag: &str) -> (value: FlagValue)
    ensures
        value == flag_value(texts(args@), flag@),
        value matches FlagValue::At(i) ==> i < args@.len(),
{
    match position(args, flag) {
        None => FlagValue::Absent,
        Some(i) => if i < args.len() - 1 {
            FlagValue::At(i + 1)
        } else {
            FlagValue::Missing
        },
    }
}

/// The number that decimal digits stand for.
pub open spec fn digits_value(s: Seq<char>) -> Option<nat>
    decreases s.len(),
{
    if s.len() == 0 {
        Some(0)
    } else {
        match digits_value(s.drop_last()) {
            Some(n) => if '0' <= s.last() <= '9' {
                Some(10 * n + (s.last() as nat - '0' as nat) as nat)
            } else {
                None
            },
            None => None,
        }
    }
}

/// A text without a plus sign before it.
pub open spec fn unsigned(s: Seq<char>) -> Seq<char> {
    if s.len() > 0 && s[0] == '+' {
        s.skip(1)
    } else {
        s
    }
}

/// The index that a text stands for: decimal digits, at least one, with or without a plus sign
/// before them, of a number that an index can have.
pub open spec fn index_value(s: Seq<char>) -> Option<usize> {
    match digits_value(unsigned(s)) {
        Some(n) => if unsigned(s).len() > 0 && n <= usize::MAX {
            Some(n as usize)
        } else {
            None
        },
        None => None,
    }
}

proof fn lemma_digits_grow(s: Seq<char>, k: int)
    requires
        0 <= k <= s.len(),
        digits_value(s) is Some,
    ensures
        digits_value(s.take(k)) is Some,
        digits_value(s.take(k))->0 <= digits_value(s)->0,
    decreases s.len() - k,
{
    if k < s.len() {
        lemma_digits_grow(s, k + 1);
        assert(s.take(k + 1).drop_last() =~= s.take(k));
    } else {
        assert(s.take(k) =~= s);
    }
}

/// Reads an index.
pub fn parse_index(s: &str) -> (index: Option<usize>)
    ensures
        index == index_value(s@),
{
    let chars = chars_of(s);
    let start: usize = if chars.len() > 0 && chars[0] == '+' {
        1
    } else {
        0
    };
    let ghost digits = s@.skip(start as int);
    assert(s@.skip(0) =~= s@);
    if start == chars.len() {
        return None;
    }
    let mut value: usize = 0;
    let mut i: usize = start;
    assert(digits.take(0) =~= seq![]);
    while i < chars.len()
        invariant
            chars@ == s@,
            start <= i <= chars@.len(),
            digits == s@.skip(start as int),
            digits == unsigned(s@),
            digits_value(digits.take(i - start)) == Some(value as nat),
        decreases chars@.len() - i,
    {
        let c: char = chars[i];
        let ghost now = digits.take(i - start + 1);
        assert(now.drop_last() =~= digits.take(i - start));
        assert(now.last() == c);
        if c < '0' || c > '9' {
            proof {
                assert(digits_value(now) is None);
                if digits_value(digits) is Some {
                    lemma_digits_grow(digits, i - start + 1);
                }
            }
            return None;
        }
        let d: usize = (c as u32 - 0x30) as usize;
        if value > usize::MAX / 10 || (value * 10) > usize::MAX - d {
            proof {
                assert(digits_value(now)->0 > usize::MAX);
                if digits_value(digits) is Some {
                    lemma_digits_grow(digits, i - start + 1);
                }
            }
            return None;
        }
        value = value * 10 + d;
        i = i + 1;
    }
    assert(digits.take(digits.len() as int) =~= digits);
    Some(value)
}

/// An index is read back from its decimal digits.
pub proof fn law_index_recovers(n: usize)
    ensures
        index_value(decimal(n as nat)) == Some(n),
{
    lemma_decimal_digits(n as nat);
}

proof fn lemma_decimal_digits(n: nat)
    ensures
        digits_value(decimal(n)) == Some(n),
        decimal(n).len() > 0,
        '0' <= decimal(n)[0] <= '9',
    decreases n,
{
    let s = decimal(n);
    if n >= 10 {
        lemma_decimal_digits(n / 10);
        assert(s.drop_last() =~= decimal(n / 10));
    } else {
        assert(s.drop_last() =~= seq![]);
        assert(digits_value(s.drop_last()) == Some(0nat));
    }
}

/// What the arguments give for a flag that takes an index.
#[derive(Debug, Clone, Copy, PartialEq, Eq, Structural)]
pub enum IndexFlag {
    /// The flag is not there.
    Absent,
    /// The flag is the last argument.
    Missing,
    /// The argument with this index is not an index.
    Invalid(usize),
    /// The index that is given.
    Index(usize),
}

/// What the arguments give for a flag that takes an index.
pub open spec fn index_flag(args: Seq<Seq<char>>, flag: Seq<char>) -> IndexFlag {
    match flag_value(args, flag) {
        FlagValue::Absent => IndexFlag::Absent,
        FlagValue::Missing => IndexFlag::Missing,
        FlagValue::At(i) => match index_value(args[i as int]) {
            Some(n) => IndexFlag::Index(n),
            None => IndexFlag::Invalid(i),
        },
    }
}

/// What the arguments give for a flag that takes an index.
pub fn parse_flag_value(args: &Vec<String>, flag: &str) -> (value: IndexFlag)
    ensures
        value == index_flag(texts(args@), flag@),
        value matches IndexFlag::Invalid(i) ==> i < args@.len(),
{
    match parse_flag_str(args, flag) {
        FlagValue::Absent => IndexFlag::Absent,
        FlagValue::Missing => IndexFlag::Missing,
        FlagValue::At(i) => match parse_index(args[i].as_str()) {
            Some(n) => IndexFlag::Index(n),
            None => IndexFlag::Invalid(i),
        },
    }
}

/// Whether help is asked for: by a flag, or by giving no path.
pub open spec fn help_wanted(args: Seq<Seq<char>>) -> bool {
    args.len() < 2 || args.contains("--help"@) || args.contains("-h"@)
}

proof fn lemma_position(args: Seq<Seq<char>>, text: Seq<char>, i: int)
    requires
        0 <= i <= args.len(),
    ensures
        position_from(args, text, i) is Some <==> exists|k: int|
            i <= k < args.len() && args[k] == text,
    decreases args.len() - i,
{
    if i < args.len() && args[i] != text {
        lemma_position(args, text, i + 1);
    }
}

/// Tells whether help is asked for.
pub fn wants_help(args: &Vec<String>) -> (answer: bool)
    ensures
        answer == help_wanted(texts(args@)),
{
    proof {
        lemma_position(texts(args@), "--help"@, 0);
        lemma_position(texts(args@), "-h"@, 0);
    }
    args.len() < 2 || position(args, "--help").is_some() || position(args, "-h").is_some()
}

// ---------------------------------------------------------------------------------------------
// What is opened
// ---------------------------------------------------------------------------------------------

/// A text without the colons at its end.
pub open spec fn without_colons(s: Seq<char>) -> Seq<char>
    decreases s.len(),
{
    if s.len() > 0 && s.last() == ':' {
        without_colons(s.drop_last())
    } else {
        s
    }
}

/// Whether a character is an ASCII letter.
pub open spec fn ascii_letter(c: char) -> bool {
    'A' <= c <= 'Z' || 'a' <= c <= 'z'
}

/// The drive that a path names: the letter, in upper case, that is all there is to its first
/// component but for colons. A path of a device, `\\.\`, names none.
pub open spec fn drive_named(input: Seq<char>, first: Option<Seq<char>>) -> Option<char> {
    match first {
        Some(component) => {
            let name = without_colons(component);
            if !occurs_at(input, "\\\\.\\"@, 0) && name.len() == 1 && ascii_letter(name[0]) {
                Some(ascii_upper_char(name[0]))
            } else {
                None
            }
        },
        None => None,
    }
}

/// The drive that a path with this first component names.
pub fn drive_of(input: &str, first: Option<&str>) -> (drive: Option<char>)
    ensures
        drive == drive_named(
            input@,
            match first {
                Some(component) => Some(component@),
                None => None,
            },
        ),
{
    let component = match first {
        Some(component) => component,
        None => {
            return None;
        },
    };
    if starts_with(input, "\\\\.\\") {
        return None;
    }
    let chars = chars_of(component);
    let mut n: usize = chars.len();
    assert(chars@.take(n as int) =~= component@);
    while n > 0 && chars[n - 1] == ':'
        invariant
            n <= chars@.len(),
            without_colons(chars@.take(n as int)) == without_colons(component@),
        decreases n,
    {
        assert(chars@.take(n as int).drop_last() =~= chars@.take(n - 1));
        n = n - 1;
    }
    assert(without_colons(component@) == chars@.take(n as int));
    if n != 1 {
        return None;
    }
    let c: char = chars[0];
    if 'A' <= c && c <= 'Z' {
        Some(c)
    } else if 'a' <= c && c <= 'z' {
        Some((c as u8 - 0x20) as char)
    } else {
        None
    }
}

/// The device of a drive.
pub open spec fn drive_device(drive: char) -> Seq<char> {
    "\\\\.\\"@ + seq![drive] + ":"@
}

/// A character with a slash in place of a backslash.
pub open spec fn slashed(c: char) -> char {
    if c == '\\' {
        '/'
    } else {
        c
    }
}

/// A text without the slashes before it.
pub open spec fn without_leading(s: Seq<char>) -> Seq<char>
    decreases s.len(),
{
    if s.len() > 0 && s[0] == '/' {
        without_leading(s.skip(1))
    } else {
        s
    }
}

/// A text without the slashes behind it.
pub open spec fn without_trailing(s: Seq<char>) -> Seq<char>
    decreases s.len(),
{
    if s.len() > 0 && s.last() == '/' {
        without_trailing(s.drop_last())
    } else {
        s
    }
}

/// The directory that a path on a drive names: with slashes, but none before or behind it.
pub open spec fn directory_named(rest: Seq<char>) -> Seq<char> {
    without_trailing(without_leading(rest.map_values(|c: char| slashed(c))))
}

fn directory_of(rest: &str) -> (directory: String)
    ensures
        directory@ == directory_named(rest@),
{
    let chars = chars_of(rest);
    let ghost all = rest@.map_values(|c: char| slashed(c));
    let mut from: usize = 0;
    assert(all.skip(0) =~= all);
    while from < chars.len() && (chars[from] == '/' || chars[from] == '\\')
        invariant
            chars@ == rest@,
            all == rest@.map_values(|c: char| slashed(c)),
            from <= chars@.len(),
            without_leading(all.skip(from as int)) == without_leading(all),
        decreases chars@.len() - from,
    {
        assert(all.skip(from as int).skip(1) =~= all.skip(from + 1));
        from = from + 1;
    }
    let ghost led = all.skip(from as int);
    assert(without_leading(all) == led);
    let mut to: usize = chars.len();
    assert(led.take(to - from) =~= led);
    while to > from && (chars[to - 1] == '/' || chars[to - 1] == '\\')
        invariant
            chars@ == rest@,
            all == rest@.map_values(|c: char| slashed(c)),
            led == all.skip(from as int),
            from <= to <= chars@.len(),
            without_trailing(led.take(to - from)) == without_trailing(led),
        decreases to,
    {
        assert(led.take(to - from).drop_last() =~= led.take(to - from - 1));
        to = to - 1;
    }
    assert(without_trailing(led) == led.take(to - from));
    let mut directory = String::new();
    let mut i: usize = from;
    while i < to
        invariant
            chars@ == rest@,
            all == rest@.map_values(|c: char| slashed(c)),
            led == all.skip(from as int),
            from <= i <= to <= chars@.len(),
            directory@ =~= led.take(i - from),
        decreases to - i,
    {
        let c: char = chars[i];
        directory.push(
            if c == '\\' {
                '/'
            } else {
                c
            },
        );
        i = i + 1;
    }
    directory
}

/// The device that is opened for a path, and the directory in it to which what is shown is
/// limited; no directory stands for no limit. Only a path that names a drive is resolved; `rest`
/// is what follows the drive in it, where that is known.
pub fn resolve_path(input: &str, drive: Option<char>, rest: Option<&str>) -> (resolved: (
    String,
    String,
))
    ensures
        resolved.0@ == (match drive {
            Some(letter) => drive_device(letter),
            None => input@,
        }),
        resolved.1@ == (match (drive, rest) {
            (Some(_), Some(path)) => directory_named(path@),
            _ => Seq::empty(),
        }),
{
    match drive {
        Some(letter) => {
            let mut device = String::new();
            device.append("\\\\.\\");
            device.push(letter);
            device.append(":");
            assert(device@ =~= drive_device(letter));
            let directory = match rest {
                Some(path) => directory_of(path),
                None => String::new(),
            };
            (device, directory)
        },
        None => (input.to_owned(), String::new()),
    }
}

/// Whether a path is that of a whole disk: a physical drive on Windows, or a disk without a
/// partition number on Linux.
pub open spec fn disk_path(path: Seq<char>) -> bool {
    ||| occurs_at(path, "\\\\.\\PhysicalDrive"@, 0)
    ||| occurs_at(path, "/dev/sd"@, 0) && path.len() > 7 && forall|i: int|
        7 <= i < path.len() ==> 'a' <= #[trigger] path[i] <= 'z'
}

/// Tells whether a path is that of a whole disk.
pub fn is_disk_path(path: &str) -> (answer: bool)
    ensures
        answer == disk_path(path@),
{
    if starts_with(path, "\\\\.\\PhysicalDrive") {
        return true;
    }
    if !starts_with(path, "/dev/sd") {
        return false;
    }
    let chars = chars_of(path);
    if chars.len() <= 7 {
        return false;
    }
    let mut i: usize = 7;
    while i < chars.len()
        invariant
            chars@ == path@,
            !occurs_at(path@, "\\\\.\\PhysicalDrive"@, 0),
            7 <= i <= chars@.len(),
            forall|j: int| 7 <= j < i ==> 'a' <= #[trigger] path@[j] <= 'z',
        decreases chars@.len() - i,
    {
        if chars[i] < 'a' || chars[i] > 'z' {
            assert(!('a' <= path@[i as int] <= 'z'));
            return false;
        }
        i = i + 1;
    }
    true
}

/// Tells whether a path, in upper or lower case, is that of the system drive.
pub fn is_system_drive(path: &str) -> (answer: bool)
    ensures
        answer == occurs_at(uppercase(path@), "\\\\.\\C:"@, 0),
        is_ascii_chars(path@) ==> answer == occurs_at(ascii_uppercase(path@), "\\\\.\\C:"@, 0),
{
    let upper = to_uppercase(path);
    starts_with(upper.as_str(), "\\\\.\\C:")
}

// ---------------------------------------------------------------------------------------------
// Which files are shown
// ---------------------------------------------------------------------------------------------

/// Whether a directory is the one that is asked for or lies in it; without one asked for, every
/// directory is.
pub open spec fn path_matches(path: Seq<char>, filter: Seq<char>) -> bool {
    filter.len() == 0 || path == filter || occurs_at(path, filter + "/"@, 0)
}

/// Tells whether a directory is the one that is asked for or lies in it.
pub fn matches_path(path: &str, filter: &str) -> (answer: bool)
    ensures
        answer == path_matches(path@, filter@),
{
    if filter.is_empty() {
        return true;
    }
    let mut inside = filter.to_owned();
    inside.append("/");
    same_text(path, filter) || starts_with(path, inside.as_str())
}

/// Whether a name contains the text that is searched for, in upper or lower case; without one
/// searched for, every name does.
pub open spec fn search_matches(name: Seq<char>, search: Option<Seq<char>>) -> bool {
    match search {
        None => true,
        Some(pattern) => occurs_in(lowercase(name), lowercase(pattern)),
    }
}

/// A text, where there is one, as contracts speak of it.
pub open spec fn text_model(text: Option<&str>) -> Option<Seq<char>> {
    match text {
        Some(t) => Some(t@),
        None => None,
    }
}

/// Tells whether a name contains the text that is searched for, in upper or lower case.
pub fn matches_search(name: &str, search: Option<&str>) -> (answer: bool)
    ensures
        answer == search_matches(name@, text_model(search)),
        search matches Some(pattern) ==> (is_ascii_chars(name@) && is_ascii_chars(pattern@)
            ==> answer == occurs_in(ascii_lowercase(name@), ascii_lowercase(pattern@))),
{
    match search {
        None => true,
        Some(pattern) => {
            let lower = to_lowercase(name);
            let wanted = to_lowercase(pattern);
            contains_text(lower.as_str(), wanted.as_str())
        },
    }
}

/// Among ASCII texts a search does not tell upper from lower case, neither in what is searched for
/// nor in where it is searched.
pub proof fn law_search_ignores_case(name: Seq<char>, pattern: Seq<char>)
    requires
        is_ascii_chars(name),
        is_ascii_chars(pattern),
    ensures
        ascii_lowercase(ascii_uppercase(name)) == ascii_lowercase(name),
        occurs_in(ascii_lowercase(name), ascii_lowercase(ascii_uppercase(pattern))) == occurs_in(
            ascii_lowercase(name),
            ascii_lowercase(pattern),
        ),
        occurs_in(ascii_lowercase(ascii_uppercase(name)), ascii_lowercase(pattern)) == occurs_in(
            ascii_lowercase(name),
            ascii_lowercase(pattern),
        ),
{
    assert(ascii_lowercase(ascii_uppercase(name)) =~= ascii_lowercase(name));
    assert(ascii_lowercase(ascii_uppercase(pattern)) =~= ascii_lowercase(pattern));
}

/// A search finds every name of which what is searched for is a part, in whichever case.
pub proof fn law_search_finds_parts(before: Seq<char>, pattern: Seq<char>, after: Seq<char>)
    ensures
        occurs_in(ascii_lowercase(before + pattern + after), ascii_lowercase(pattern)),
{
    let hay = ascii_lowercase(before + pattern + after);
    let needle = ascii_lowercase(pattern);
    assert(hay.subrange(before.len() as int, (before.len() + needle.len()) as int) =~= needle);
    assert(occurs_at(hay, needle, before.len() as int));
}

/// Whether a file is shown.
pub open spec fn wanted(
    file: FileModel,
    directory: Option<Seq<char>>,
    search: Option<Seq<char>>,
) -> bool {
    (directory matches Some(d) ==> path_matches(file.path, d)) && search_matches(file.name, search)
}

/// The files that are shown: in the order in which they were found, those in the directory that is
/// asked for, where that is looked at, with a name that contains what is searched for.
pub fn filter_results(
    files: Vec<DeletedFile>,
    directory: Option<&str>,
    search: Option<&str>,
) -> (shown: Vec<DeletedFile>)
    ensures
        file_models(shown@) == file_models(files@).filter(
            |f: FileModel| wanted(f, text_model(directory), text_model(search)),
        ),
{
    let ghost all = file_models(files@);
    let ghost before = files@;
    let ghost keep = |f: FileModel| wanted(f, text_model(directory), text_model(search));
    let mut shown: Vec<DeletedFile> = Vec::new();
    assert(file_models(shown@) =~= all.take(0).filter(keep)) by {
        assert(all.take(0) =~= seq![]);
        reveal(Seq::filter);
    }
    for file in it: files
        invariant
            it.seq() == before,
            all == file_models(before),
            keep == |f: FileModel| wanted(f, text_model(directory), text_model(search)),
            file_models(shown@) == all.take(it.index()).filter(keep),
    {
        proof {
            assert(all.take(it.index() + 1).drop_last() =~= all.take(it.index()));
            assert(all.take(it.index() + 1).last() == file@);
            reveal(Seq::filter);
        }
        let inside: bool = match directory {
            Some(d) => matches_path(file.path.as_str(), d),
            None => true,
        };
        if inside && matches_search(file.name.as_str(), search) {
            let ghost had = shown@;
            shown.push(file);
            assert(file_models(shown@) =~= file_models(had).push(file@));
        }
    }
    assert(all.take(all.len() as int) =~= all);
    shown
}

// ---------------------------------------------------------------------------------------------
// What is done with them
// ---------------------------------------------------------------------------------------------

/// What is done with the files that were found.
#[derive(Debug, Clone, Copy, PartialEq, Eq, Structural)]
pub enum Decision {
    /// They are shown.
    Show,
    /// There is no file with the index that is asked for; the last has this one, if there is any.
    OutOfRange { last: usize },
    /// The file with this index cannot be restored: it is not known where its contents are.
    NoAddress(usize),
    /// The file with this index is empty.
    Empty(usize),
    /// The file with this index is restored.
    Restore(usize),
}

/// What is done with the files that were found, when the one with the index `restore` is to be
/// restored or, without such an index, all are to be shown.
pub open spec fn decision(files: Seq<FileModel>, restore: Option<usize>) -> Decision {
    match restore {
        None => Decision::Show,
        Some(i) => if i >= files.len() {
            Decision::OutOfRange {
                last: if files.len() == 0 {
                    0
                } else {
                    (files.len() - 1) as usize
                },
            }
        } else {
            let file = files[i as int];
            if file.start_address == 0 && file.resident_data is None && file.size > 0 {
                Decision::NoAddress(i)
            } else if file.size == 0 {
                Decision::Empty(i)
            } else {
                Decision::Restore(i)
            }
        },
    }
}

/// Decides what is done with the files that were found.
pub fn handle_results(files: &Vec<DeletedFile>, restore: Option<usize>) -> (what: Decision)
    ensures
        what == decision(file_models(files@), restore),
{
    let i: usize = match restore {
        None => {
            return Decision::Show;
        },
        Some(i) => i,
    };
    let n: usize = files.len();
    if i >= n {
        return Decision::OutOfRange {
            last: if n == 0 {
                0
            } else {
                n - 1
            },
        };
    }
    let file = &files[i];
    assert(file_models(files@)[i as int] == file@);
    if file.start_address == 0 && file.resident_data.is_none() && file.size > 0 {
        Decision::NoAddress(i)
    } else if file.size == 0 {
        Decision::Empty(i)
    } else {
        Decision::Restore(i)
    }
}

/// Where a file is restored to, unless a place is given.
pub fn target_or_default(output: Option<&str>) -> (target: String)
    ensures
        target@ == (match output {
            Some(path) => path@,
            None => "recovered.bin"@,
        }),
{
    match output {
        Some(path) => path.to_owned(),
        None => "recovered.bin".to_owned(),
    }
}

/// The line that tells what is about to be restored, and to where.
pub fn restoring_line(file: &DeletedFile, target: &str) -> (line: String)
    ensures
        line@ == "Restoring '"@ + file.name@ + "' ("@ + decimal(file.size as nat)
            + " bytes, address 0x"@ + hex(file.start_address as nat, 1) + ") to '"@ + target@
            + "'..."@,
{
    let mut line = String::new();
    line.append("Restoring '");
    line.append(file.name.as_str());
    line.append("' (");
    push_decimal(&mut line, file.size);
    line.append(" bytes, address 0x");
    push_hex(&mut line, file.start_address, 1);
    line.append(") to '");
    line.append(target);
    line.append("'...");
    assert(line@ =~= "Restoring '"@ + file.name@ + "' ("@ + decimal(file.size as nat)
        + " bytes, address 0x"@ + hex(file.start_address as nat, 1) + ") to '"@ + target@
        + "'..."@);
    line
}

/// A file is restored only if it holds something and it is known where: an address, or the
/// contents themselves. Without an index nothing is restored.
pub proof fn law_only_restorable_files_are_restored(files: Seq<FileModel>, restore: Option<usize>)
    ensures
        decision(files, restore) matches Decision::Restore(i) ==> {
            &&& restore == Some(i)
            &&& i < files.len()
            &&& files[i as int].size > 0
            &&& files[i as int].start_address != 0 || files[i as int].resident_data is Some
        },
        decision(files, restore) is Show <==> restore is None,
{
}

} // verus!
