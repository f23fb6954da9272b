//! The table of deleted files.

use vstd::prelude::*;
use vstd::utf8::*;
use crate::text::{decimal, hex, push_decimal, push_hex};
use crate::types::{file_models, DeletedFile, FileModel};

verus! {

// ---------------------------------------------------------------------------------------------
// Padding
// ---------------------------------------------------------------------------------------------

/// A character, so many times.
pub open spec fn repeated(c: char, n: int) -> Seq<char> {
    Seq::new(
        (if n > 0 {
            n
        } else {
            0
        }) as nat,
        |i: int| c,
    )
}

/// A text with blanks behind it up to a width.
pub open spec fn padded(s: Seq<char>, width: int) -> Seq<char> {
    s + repeated(' ', width - s.len())
}

/// A text with blanks before it up to a width.
pub open spec fn right_aligned(s: Seq<char>, width: int) -> Seq<char> {
    repeated(' ', width - s.len()) + s
}

fn push_repeated(out: &mut String, c: char, n: usize)
    ensures
        final(out)@ == old(out)@ + repeated(c, n as int),
{
    let ghost before = out@;
    let mut i: usize = 0;
    while i < n
        invariant
            i <= n,
            out@ =~= before + repeated(c, i as int),
        decreases n - i,
    {
        out.push(c);
        i = i + 1;
    }
}

fn push_padded(out: &mut String, s: &str, width: usize)
    ensures
        final(out)@ == old(out)@ + padded(s@, width as int),
{
    out.append(s);
    let n: usize = s.unicode_len();
    push_repeated(
        out,
        ' ',
        if n < width {
            width - n
        } else {
            0
        },
    );
    assert(out@ =~= old(out)@ + padded(s@, width as int));
}

fn push_right_aligned(out: &mut String, s: &str, width: usize)
    ensures
        final(out)@ == old(out)@ + right_aligned(s@, width as int),
{
    let n: usize = s.unicode_len();
    push_repeated(
        out,
        ' ',
        if n < width {
            width - n
        } else {
            0
        },
    );
    out.append(s);
    assert(out@ =~= old(out)@ + right_aligned(s@, width as int));
}

/// A horizontal line over a column of a width, with one more on each side.
pub open spec fn separator(len: int) -> Seq<char> {
    repeated('-', len + 2)
}

/// A horizontal line over a column of a width.
pub fn sep_line(len: usize) -> (line: String)
    requires
        len + 2 <= usize::MAX,
    ensures
        line@ == separator(len as int),
{
    let mut line = String::new();
    push_repeated(&mut line, '-', len + 2);
    assert(line@ =~= separator(len as int));
    line
}

// ---------------------------------------------------------------------------------------------
// Columns
// ---------------------------------------------------------------------------------------------

/// The most bytes of a name that are shown.
pub const MAX_NAME_WIDTH: usize = 60;

/// The most bytes of a path that are shown.
pub const MAX_PATH_WIDTH: usize = 40;

/// The width of the column that says what was deleted.
pub const STATUS_WIDTH: usize = 12;

/// The number of bytes in a text.
pub open spec fn byte_len(s: Seq<char>) -> int {
    encode_utf8(s).len() as int
}

/// A number in the form of an address.
pub open spec fn address_text(address: u64) -> Seq<char> {
    "0x"@ + hex(address as nat, 8)
}

/// The greater of two numbers.
pub open spec fn greater(a: int, b: int) -> int {
    if a >= b {
        a
    } else {
        b
    }
}

/// The smaller of two numbers.
pub open spec fn smaller(a: int, b: int) -> int {
    if a <= b {
        a
    } else {
        b
    }
}

/// The greatest of numbers, but not less than `least`.
pub open spec fn widest(lens: Seq<int>, least: int) -> int
    decreases lens.len(),
{
    if lens.len() == 0 {
        least
    } else {
        greater(widest(lens.drop_last(), least), lens.last())
    }
}

/// The widths of the columns.
pub struct Widths {
    pub name: int,
    pub size: int,
    pub address: int,
    pub fs: int,
    pub path: int,
}

/// The widths of the columns: each as wide as its title and its widest text, but names and paths
/// no wider than they are shown.
pub open spec fn widths(files: Seq<FileModel>) -> Widths {
    Widths {
        name: smaller(
            widest(files.map_values(|f: FileModel| byte_len(f.name)), 4),
            MAX_NAME_WIDTH as int,
        ),
        size: widest(files.map_values(|f: FileModel| decimal(f.size as nat).len() as int), 4),
        address: widest(
            files.map_values(|f: FileModel| address_text(f.start_address).len() as int),
            13,
        ),
        fs: widest(files.map_values(|f: FileModel| byte_len(f.fs_type)), 2),
        path: smaller(
            widest(files.map_values(|f: FileModel| byte_len(f.path)), 4),
            MAX_PATH_WIDTH as int,
        ),
    }
}

/// The longest beginning of a text that takes no more than `room` bytes.
pub open spec fn beginning(s: Seq<char>, room: int) -> Seq<char>
    decreases s.len(),
{
    if s.len() == 0 || byte_len(s) <= room {
        s
    } else {
        beginning(s.drop_last(), room)
    }
}

/// The longest end of a text that takes no more than `room` bytes.
pub open spec fn ending(s: Seq<char>, room: int) -> Seq<char>
    decreases s.len(),
{
    if s.len() == 0 || byte_len(s) <= room {
        s
    } else {
        ending(s.drop_first(), room)
    }
}

/// The name as it is shown: with dots in place of what is too much at its end. No character is cut
/// in two.
pub open spec fn shown_name(name: Seq<char>) -> Seq<char> {
    if byte_len(name) > MAX_NAME_WIDTH {
        beginning(name, MAX_NAME_WIDTH - 3) + "..."@
    } else {
        name
    }
}

/// The path as it is shown: with dots in place of what is too much at its beginning. No character
/// is cut in two.
pub open spec fn shown_path(path: Seq<char>) -> Seq<char> {
    if byte_len(path) > MAX_PATH_WIDTH {
        "..."@ + ending(path, MAX_PATH_WIDTH - 3)
    } else {
        path
    }
}

proof fn lemma_encode_concat(a: Seq<char>, b: Seq<char>)
    ensures
        encode_utf8(a + b) == encode_utf8(a) + encode_utf8(b),
    decreases a.len(),
{
    if a.len() == 0 {
        assert(a + b =~= b);
        assert(encode_utf8(a) + encode_utf8(b) =~= encode_utf8(b));
    } else {
        lemma_encode_concat(a.drop_first(), b);
        assert((a + b).drop_first() =~= a.drop_first() + b);
        assert((a + b)[0] == a[0]);
        assert(encode_utf8(a + b) =~= encode_utf8(a) + encode_utf8(b));
    }
}

/// The bytes of a text are those of its characters.
proof fn lemma_byte_len_splits(s: Seq<char>)
    requires
        s.len() > 0,
    ensures
        byte_len(s) == byte_len(seq![s[0]]) + byte_len(s.drop_first()),
        byte_len(s) == byte_len(s.drop_last()) + byte_len(seq![s.last()]),
{
    lemma_encode_concat(seq![s[0]], s.drop_first());
    lemma_encode_concat(s.drop_last(), seq![s.last()]);
    assert(seq![s[0]] + s.drop_first() =~= s);
    assert(s.drop_last() + seq![s.last()] =~= s);
}

/// The number of bytes in a character.
pub open spec fn char_bytes(c: char) -> int {
    if c as u32 <= 0x7F {
        1
    } else if c as u32 <= 0x7FF {
        2
    } else if c as u32 <= 0xFFFF {
        3
    } else {
        4
    }
}

proof fn lemma_char_bytes(c: char)
    ensures
        byte_len(seq![c]) == char_bytes(c),
{
    reveal_with_fuel(encode_utf8, 2);
    char_is_scalar(c);
    assert(seq![c].drop_first() =~= seq![]);
}

proof fn lemma_beginning(s: Seq<char>, room: int)
    requires
        room >= 0,
    ensures
        byte_len(beginning(s, room)) <= room,
        beginning(s, room).len() <= s.len(),
        beginning(s, room) == s.take(beginning(s, room).len() as int),
        beginning(s, room).len() < s.len() ==> byte_len(
            s.take(beginning(s, room).len() as int + 1),
        ) > room,
    decreases s.len(),
{
    if s.len() > 0 && byte_len(s) > room {
        lemma_beginning(s.drop_last(), room);
        let k = beginning(s, room).len() as int;
        assert(s.drop_last().take(k) =~= s.take(k));
        if k + 1 < s.len() {
            assert(s.drop_last().take(k + 1) =~= s.take(k + 1));
        } else {
            assert(s.take(k + 1) =~= s);
        }
    } else {
        assert(s.take(s.len() as int) =~= s);
    }
}

proof fn lemma_ending(s: Seq<char>, room: int)
    requires
        room >= 0,
    ensures
        byte_len(ending(s, room)) <= room,
        ending(s, room).len() <= s.len(),
        ending(s, room) == s.skip(s.len() - ending(s, room).len()),
        ending(s, room).len() < s.len() ==> byte_len(
            s.skip(s.len() - ending(s, room).len() - 1),
        ) > room,
    decreases s.len(),
{
    if s.len() > 0 && byte_len(s) > room {
        lemma_ending(s.drop_first(), room);
        let k = s.len() - ending(s, room).len();
        assert(s.drop_first().skip(k - 1) =~= s.skip(k));
        if k > 1 {
            assert(s.drop_first().skip(k - 2) =~= s.skip(k - 1));
        } else {
            assert(s.skip(0) =~= s);
        }
    } else {
        assert(s.skip(0) =~= s);
    }
}

/// A name is shown in no more bytes than there is room for: whole, or, where it is longer, its
/// beginning with dots behind it. Of a longer name so many characters are shown that one more
/// would leave no room for the dots.
pub proof fn law_shown_name_fits(name: Seq<char>)
    ensures
        byte_len(shown_name(name)) <= 60,
        byte_len(name) <= 60 ==> shown_name(name) == name,
        byte_len(name) > 60 ==> exists|k: int|
            0 <= k < name.len() && shown_name(name) == #[trigger] name.take(k) + "..."@
                && byte_len(name.take(k + 1)) > 57,
{
    if byte_len(name) > MAX_NAME_WIDTH {
        let kept = beginning(name, MAX_NAME_WIDTH - 3);
        lemma_beginning(name, MAX_NAME_WIDTH - 3);
        lemma_encode_concat(kept, "..."@);
        reveal_strlit("...");
        is_ascii_chars_encode_utf8("..."@);
        if kept.len() == name.len() {
            assert(kept =~= name);
        }
        assert(shown_name(name) == name.take(kept.len() as int) + "..."@);
    }
}

/// A path is shown in no more bytes than there is room for: whole, or, where it is longer, its end
/// with dots before it. Of a longer path so many characters are shown that one more would leave no
/// room for the dots.
pub proof fn law_shown_path_fits(path: Seq<char>)
    ensures
        byte_len(shown_path(path)) <= 40,
        byte_len(path) <= 40 ==> shown_path(path) == path,
        byte_len(path) > 40 ==> exists|k: int|
            0 < k <= path.len() && shown_path(path) == "..."@ + #[trigger] path.skip(k)
                && byte_len(path.skip(k - 1)) > 37,
{
    if byte_len(path) > MAX_PATH_WIDTH {
        let kept = ending(path, MAX_PATH_WIDTH - 3);
        lemma_ending(path, MAX_PATH_WIDTH - 3);
        lemma_encode_concat("..."@, kept);
        reveal_strlit("...");
        is_ascii_chars_encode_utf8("..."@);
        if kept.len() == path.len() {
            assert(kept =~= path);
        }
        assert(shown_path(path) == "..."@ + path.skip(path.len() - kept.len()));
    }
}

// ---------------------------------------------------------------------------------------------
// The table
// ---------------------------------------------------------------------------------------------

/// A horizontal line over all columns.
pub open spec fn rule(w: Widths) -> Seq<char> {
    "+"@ + separator(STATUS_WIDTH as int) + "+"@ + separator(w.name) + "+"@ + separator(w.size)
        + "+"@ + separator(w.address) + "+"@ + separator(w.fs) + "+"@ + separator(w.path) + "+"@
}

/// A line of texts in their columns.
pub open spec fn row(
    w: Widths,
    status: Seq<char>,
    name: Seq<char>,
    size: Seq<char>,
    address: Seq<char>,
    fs: Seq<char>,
    path: Seq<char>,
) -> Seq<char> {
    "| "@ + padded(status, STATUS_WIDTH as int) + " | "@ + padded(name, w.name) + " | "@
        + right_aligned(size, w.size) + " | "@ + padded(address, w.address) + " | "@ + padded(
        fs,
        w.fs,
    ) + " | "@ + padded(path, w.path) + " |\n"@
}

/// The line of titles.
pub open spec fn title_row(w: Widths) -> Seq<char> {
    row(w, "Status"@, "Name"@, "Size"@, "Start Address"@, "FS"@, "Path"@)
}

/// The line of a file.
pub open spec fn file_row(w: Widths, file: FileModel) -> Seq<char> {
    row(
        w,
        if file.is_directory {
            "Deleted (Dir)"@
        } else {
            "Deleted"@
        },
        shown_name(file.name),
        decimal(file.size as nat),
        address_text(file.start_address),
        file.fs_type,
        shown_path(file.path),
    )
}

/// The lines of files.
pub open spec fn file_rows(w: Widths, files: Seq<FileModel>) -> Seq<char>
    decreases files.len(),
{
    if files.len() == 0 {
        seq![]
    } else {
        file_rows(w, files.drop_last()) + file_row(w, files.last())
    }
}

/// The table of files, with its heading and the count of the files.
pub open spec fn table_text(files: Seq<FileModel>) -> Seq<char> {
    if files.len() == 0 {
        "\nNo deleted files found.\n"@
    } else {
        let w = widths(files);
        "\nDeleted Files:\n\nDeleted Files:\n"@ + rule(w) + "\n"@ + title_row(w) + rule(w) + "\n"@
            + file_rows(w, files) + rule(w) + "\n\nFound "@ + decimal(files.len())
            + " deleted entr"@ + (if files.len() == 1 {
            "y"@
        } else {
            "ies"@
        }) + ".\n"@
    }
}

/// The widths of the columns, as numbers that a machine holds.
struct Columns {
    name: usize,
    size: usize,
    address: usize,
    fs: usize,
    path: usize,
}

impl Columns {
    spec fn model(self) -> Widths {
        Widths {
            name: self.name as int,
            size: self.size as int,
            address: self.address as int,
            fs: self.fs as int,
            path: self.path as int,
        }
    }
}

fn bytes_in(s: &str) -> (n: usize)
    ensures
        n == byte_len(s@),
{
    s.as_bytes().len()
}

fn decimal_of(n: u64) -> (text: String)
    ensures
        text@ == decimal(n as nat),
{
    let mut text = String::new();
    push_decimal(&mut text, n);
    assert(text@ =~= decimal(n as nat));
    text
}

fn address_of(n: u64) -> (text: String)
    ensures
        text@ == address_text(n),
{
    let mut text = String::new();
    text.append("0x");
    push_hex(&mut text, n, 8);
    assert(text@ =~= address_text(n));
    text
}

fn larger(a: usize, b: usize) -> (m: usize)
    ensures
        m == greater(a as int, b as int),
{
    if a >= b {
        a
    } else {
        b
    }
}

fn measure(files: &Vec<DeletedFile>) -> (columns: Columns)
    ensures
        columns.model() == widths(file_models(files@)),
{
    let ghost all = file_models(files@);
    let ghost names = all.map_values(|f: FileModel| byte_len(f.name));
    let ghost sizes = all.map_values(|f: FileModel| decimal(f.size as nat).len() as int);
    let ghost addresses = all.map_values(
        |f: FileModel| address_text(f.start_address).len() as int,
    );
    let ghost kinds = all.map_values(|f: FileModel| byte_len(f.fs_type));
    let ghost paths = all.map_values(|f: FileModel| byte_len(f.path));
    let mut name: usize = 4;
    let mut size: usize = 4;
    let mut address: usize = 13;
    let mut fs: usize = 2;
    let mut path: usize = 4;
    let mut i: usize = 0;
    assert(names.take(0) =~= seq![]);
    assert(sizes.take(0) =~= seq![]);
    assert(addresses.take(0) =~= seq![]);
    assert(kinds.take(0) =~= seq![]);
    assert(paths.take(0) =~= seq![]);
    while i < files.len()
        invariant
            i <= files@.len(),
            all == file_models(files@),
            names == all.map_values(|f: FileModel| byte_len(f.name)),
            sizes == all.map_values(|f: FileModel| decimal(f.size as nat).len() as int),
            addresses == all.map_values(
                |f: FileModel| address_text(f.start_address).len() as int,
            ),
            kinds == all.map_values(|f: FileModel| byte_len(f.fs_type)),
            paths == all.map_values(|f: FileModel| byte_len(f.path)),
            name == widest(names.take(i as int), 4),
            size == widest(sizes.take(i as int), 4),
            address == widest(addresses.take(i as int), 13),
            fs == widest(kinds.take(i as int), 2),
            path == widest(paths.take(i as int), 4),
        decreases files@.len() - i,
    {
        let f = &files[i];
        assert(all[i as int] == f@);
        assert(names.take(i + 1).drop_last() =~= names.take(i as int));
        assert(sizes.take(i + 1).drop_last() =~= sizes.take(i as int));
        assert(addresses.take(i + 1).drop_last() =~= addresses.take(i as int));
        assert(kinds.take(i + 1).drop_last() =~= kinds.take(i as int));
        assert(paths.take(i + 1).drop_last() =~= paths.take(i as int));
        name = larger(name, bytes_in(f.name.as_str()));
        size = larger(size, decimal_of(f.size).as_str().unicode_len());
        address = larger(address, address_of(f.start_address).as_str().unicode_len());
        fs = larger(fs, bytes_in(f.fs_type.as_str()));
        path = larger(path, bytes_in(f.path.as_str()));
        i = i + 1;
    }
    assert(names.take(i as int) =~= names);
    assert(sizes.take(i as int) =~= sizes);
    assert(addresses.take(i as int) =~= addresses);
    assert(kinds.take(i as int) =~= kinds);
    assert(paths.take(i as int) =~= paths);
    Columns {
        name: if name < MAX_NAME_WIDTH {
            name
        } else {
            MAX_NAME_WIDTH
        },
        size,
        address,
        fs,
        path: if path < MAX_PATH_WIDTH {
            path
        } else {
            MAX_PATH_WIDTH
        },
    }
}

fn push_separator(out: &mut String, len: usize)
    ensures
        final(out)@ == old(out)@ + separator(len as int),
{
    push_repeated(out, '-', len);
    push_repeated(out, '-', 2);
    assert(out@ =~= old(out)@ + separator(len as int));
}

fn push_rule(out: &mut String, columns: &Columns)
    ensures
        final(out)@ == old(out)@ + rule(columns.model()),
{
    out.append("+");
    push_separator(out, STATUS_WIDTH);
    out.append("+");
    push_separator(out, columns.name);
    out.append("+");
    push_separator(out, columns.size);
    out.append("+");
    push_separator(out, columns.address);
    out.append("+");
    push_separator(out, columns.fs);
    out.append("+");
    push_separator(out, columns.path);
    out.append("+");
    assert(out@ =~= old(out)@ + rule(columns.model()));
}

fn push_row(
    out: &mut String,
    columns: &Columns,
    status: &str,
    name: &str,
    size: &str,
    address: &str,
    fs: &str,
    path: &str,
)
    ensures
        final(out)@ == old(out)@ + row(
            columns.model(),
            status@,
            name@,
            size@,
            address@,
            fs@,
            path@,
        ),
{
    out.append("| ");
    push_padded(out, status, STATUS_WIDTH);
    out.append(" | ");
    push_padded(out, name, columns.name);
    out.append(" | ");
    push_right_aligned(out, size, columns.size);
    out.append(" | ");
    push_padded(out, address, columns.address);
    out.append(" | ");
    push_padded(out, fs, columns.fs);
    out.append(" | ");
    push_padded(out, path, columns.path);
    out.append(" |\n");
    assert(out@ =~= old(out)@ + row(
        columns.model(),
        status@,
        name@,
        size@,
        address@,
        fs@,
        path@,
    ));
}

fn bytes_of_char(c: char) -> (n: usize)
    ensures
        n == char_bytes(c),
{
    let code: u32 = c as u32;
    if code <= 0x7F {
        1
    } else if code <= 0x7FF {
        2
    } else if code <= 0xFFFF {
        3
    } else {
        4
    }
}

/// The longest beginning of a text that takes no more than `room` bytes.
fn beginning_of(s: &str, room: usize) -> (kept: &str)
    ensures
        kept@ == beginning(s@, room as int),
{
    let mut count: usize = s.unicode_len();
    let mut left: usize = bytes_in(s);
    assert(s@.take(count as int) =~= s@);
    while count > 0 && left > room
        invariant
            count <= s@.len(),
            left == byte_len(s@.take(count as int)),
            beginning(s@, room as int) == beginning(s@.take(count as int), room as int),
        decreases count,
    {
        proof {
            let rest = s@.take(count as int);
            lemma_byte_len_splits(rest);
            lemma_char_bytes(rest.last());
            assert(rest.drop_last() =~= s@.take(count - 1));
        }
        count = count - 1;
        left = left - bytes_of_char(s.get_char(count));
    }
    assert(s@.subrange(0, count as int) =~= s@.take(count as int));
    s.substring_char(0, count)
}

/// The longest end of a text that takes no more than `room` bytes.
fn ending_of(s: &str, room: usize) -> (kept: &str)
    ensures
        kept@ == ending(s@, room as int),
{
    let n: usize = s.unicode_len();
    let mut from: usize = 0;
    let mut left: usize = bytes_in(s);
    assert(s@.skip(0) =~= s@);
    while from < n && left > room
        invariant
            n == s@.len(),
            from <= n,
            left == byte_len(s@.skip(from as int)),
            ending(s@, room as int) == ending(s@.skip(from as int), room as int),
        decreases n - from,
    {
        proof {
            let rest = s@.skip(from as int);
            lemma_byte_len_splits(rest);
            lemma_char_bytes(rest[0]);
            assert(rest.drop_first() =~= s@.skip(from + 1));
        }
        left = left - bytes_of_char(s.get_char(from));
        from = from + 1;
    }
    assert(s@.subrange(from as int, n as int) =~= s@.skip(from as int));
    s.substring_char(from, n)
}

fn name_to_show(name: &str) -> (shown: String)
    ensures
        shown@ == shown_name(name@),
{
    if bytes_in(name) > MAX_NAME_WIDTH {
        let mut shown = beginning_of(name, MAX_NAME_WIDTH - 3).to_owned();
        shown.append("...");
        shown
    } else {
        name.to_owned()
    }
}

fn path_to_show(path: &str) -> (shown: String)
    ensures
        shown@ == shown_path(path@),
{
    if bytes_in(path) > MAX_PATH_WIDTH {
        let mut shown = "...".to_owned();
        shown.append(ending_of(path, MAX_PATH_WIDTH - 3));
        shown
    } else {
        path.to_owned()
    }
}

fn push_file_row(out: &mut String, columns: &Columns, file: &DeletedFile)
    ensures
        final(out)@ == old(out)@ + file_row(columns.model(), file@),
{
    let status = if file.is_directory {
        "Deleted (Dir)"
    } else {
        "Deleted"
    };
    let name = name_to_show(file.name.as_str());
    let size = decimal_of(file.size);
    let address = address_of(file.start_address);
    let path = path_to_show(file.path.as_str());
    push_row(
        out,
        columns,
        status,
        name.as_str(),
        size.as_str(),
        address.as_str(),
        file.fs_type.as_str(),
        path.as_str(),
    );
}

/// Writes the table of files.
pub fn render_table(files: &Vec<DeletedFile>) -> (text: String)
    ensures
        text@ == table_text(file_models(files@)),
{
    let ghost all = file_models(files@);
    let n: usize = files.len();
    if n == 0 {
        return "\nNo deleted files found.\n".to_owned();
    }
    let columns = measure(files);
    let ghost w = columns.model();
    let mut text = String::new();
    text.append("\nDeleted Files:\n\nDeleted Files:\n");
    push_rule(&mut text, &columns);
    text.append("\n");
    push_row(&mut text, &columns, "Status", "Name", "Size", "Start Address", "FS", "Path");
    push_rule(&mut text, &columns);
    text.append("\n");
    let ghost head = text@;
    assert(head =~= "\nDeleted Files:\n\nDeleted Files:\n"@ + rule(w) + "\n"@ + title_row(w) + rule(
        w,
    ) + "\n"@);
    let mut i: usize = 0;
    assert(all.take(0) =~= seq![]);
    while i < n
        invariant
            n == files@.len(),
            all == file_models(files@),
            w == columns.model(),
            i <= n,
            text@ =~= head + file_rows(w, all.take(i as int)),
        decreases n - i,
    {
        assert(all[i as int] == files@[i as int]@);
        assert(all.take(i + 1).drop_last() =~= all.take(i as int));
        assert(all.take(i + 1).last() == all[i as int]);
        push_file_row(&mut text, &columns, &files[i]);
        i = i + 1;
    }
    assert(all.take(n as int) =~= all);
    push_rule(&mut text, &columns);
    text.append("\n\nFound ");
    push_decimal(&mut text, n as u64);
    text.append(" deleted entr");
    text.append(
        if n == 1 {
            "y"
        } else {
            "ies"
        },
    );
    text.append(".\n");
    assert(text@ =~= table_text(all));
    text
}

} // verus!
