//! How the table of deleted files is laid out.

use vstd::prelude::*;
use crate::table::{
    address_text, byte_len, file_row, file_rows, padded, right_aligned, row, rule, separator,
    shown_name, shown_path, table_text, title_row, widest, widths, Widths,
};
use crate::text::{decimal, hex};
use crate::types::FileModel;

verus! {

/// A text in a column stands at its left with blanks behind it, or at its right with blanks before
/// it, as many as the column is wider; one that is wider than its column is kept whole.
pub proof fn law_texts_fill_their_column(s: Seq<char>, width: int, i: int)
    ensures
        padded(s, width).len() == if s.len() < width {
            width
        } else {
            s.len() as int
        },
        right_aligned(s, width).len() == padded(s, width).len(),
        padded(s, width).take(s.len() as int) == s,
        right_aligned(s, width).skip(right_aligned(s, width).len() - s.len()) == s,
        s.len() <= i < padded(s, width).len() ==> padded(s, width)[i] == ' ',
        0 <= i < right_aligned(s, width).len() - s.len() ==> right_aligned(s, width)[i] == ' ',
        width >= 0 ==> separator(width).len() == width + 2,
        0 <= i < separator(width).len() ==> separator(width)[i] == '-',
{
    assert(padded(s, width).take(s.len() as int) =~= s);
    assert(right_aligned(s, width).skip(right_aligned(s, width).len() - s.len()) =~= s);
}

proof fn lemma_widest(lens: Seq<int>, least: int)
    ensures
        widest(lens, least) >= least,
        forall|i: int| 0 <= i < lens.len() ==> widest(lens, least) >= #[trigger] lens[i],
        widest(lens, least) == least || lens.contains(widest(lens, least)),
    decreases lens.len(),
{
    if lens.len() > 0 {
        let rest = lens.drop_last();
        lemma_widest(rest, least);
        let w = widest(lens, least);
        assert forall|i: int| 0 <= i < lens.len() implies w >= #[trigger] lens[i] by {
            if i < rest.len() {
                assert(rest[i] == lens[i]);
            }
        }
        if w == lens.last() {
            assert(lens[lens.len() - 1] == w);
        } else if w != least {
            let i = choose|i: int| 0 <= i < rest.len() && rest[i] == w;
            assert(lens[i] == w);
        }
    }
}

/// A column is as wide as its title and as every text in it, but names take 60 and paths 40 at most.
pub proof fn law_columns_hold_their_texts(files: Seq<FileModel>, k: int)
    requires
        0 <= k < files.len(),
    ensures
        ({
            let w = widths(files);
            let f = files[k];
            &&& 4 <= w.name <= 60 && (w.name >= byte_len(f.name) || w.name == 60)
            &&& 4 <= w.path <= 40 && (w.path >= byte_len(f.path) || w.path == 40)
            &&& w.size >= 4 && w.size >= decimal(f.size as nat).len()
            &&& w.address >= 13 && w.address >= 2 + hex(f.start_address as nat, 8).len()
            &&& w.fs >= 2 && w.fs >= byte_len(f.fs_type)
        }),
{
    let names = files.map_values(|f: FileModel| byte_len(f.name));
    let sizes = files.map_values(|f: FileModel| decimal(f.size as nat).len() as int);
    let addresses = files.map_values(|f: FileModel| address_text(f.start_address).len() as int);
    let kinds = files.map_values(|f: FileModel| byte_len(f.fs_type));
    let paths = files.map_values(|f: FileModel| byte_len(f.path));
    lemma_widest(names, 4);
    lemma_widest(sizes, 4);
    lemma_widest(addresses, 13);
    lemma_widest(kinds, 2);
    lemma_widest(paths, 4);
    reveal_strlit("0x");
    assert(names[k] == byte_len(files[k].name));
    assert(sizes[k] == decimal(files[k].size as nat).len());
    assert(addresses[k] == address_text(files[k].start_address).len());
    assert(kinds[k] == byte_len(files[k].fs_type));
    assert(paths[k] == byte_len(files[k].path));
}

/// No column is wider than is needed: each is as wide as its title, as its limit or as one of the
/// texts in it.
pub proof fn law_columns_are_no_wider(files: Seq<FileModel>)
    ensures
        ({
            let w = widths(files);
            &&& w.name == 4 || w.name == 60 || exists|k: int|
                0 <= k < files.len() && w.name == byte_len((#[trigger] files[k]).name)
            &&& w.path == 4 || w.path == 40 || exists|k: int|
                0 <= k < files.len() && w.path == byte_len((#[trigger] files[k]).path)
            &&& w.size == 4 || exists|k: int|
                0 <= k < files.len() && w.size == decimal(
                    (#[trigger] files[k]).size as nat,
                ).len()
            &&& w.address == 13 || exists|k: int|
                0 <= k < files.len() && w.address == 2 + hex(
                    (#[trigger] files[k]).start_address as nat,
                    8,
                ).len()
            &&& w.fs == 2 || exists|k: int|
                0 <= k < files.len() && w.fs == byte_len((#[trigger] files[k]).fs_type)
        }),
{
    let names = files.map_values(|f: FileModel| byte_len(f.name));
    let sizes = files.map_values(|f: FileModel| decimal(f.size as nat).len() as int);
    let addresses = files.map_values(|f: FileModel| address_text(f.start_address).len() as int);
    let kinds = files.map_values(|f: FileModel| byte_len(f.fs_type));
    let paths = files.map_values(|f: FileModel| byte_len(f.path));
    lemma_widest(names, 4);
    lemma_widest(sizes, 4);
    lemma_widest(addresses, 13);
    lemma_widest(kinds, 2);
    lemma_widest(paths, 4);
    reveal_strlit("0x");
    let w = widths(files);
    if w.name != 4 && w.name != 60 {
        let k = choose|k: int| 0 <= k < names.len() && names[k] == w.name;
        assert(w.name == byte_len(files[k].name));
    }
    if w.path != 4 && w.path != 40 {
        let k = choose|k: int| 0 <= k < paths.len() && paths[k] == w.path;
        assert(w.path == byte_len(files[k].path));
    }
    if w.size != 4 {
        let k = choose|k: int| 0 <= k < sizes.len() && sizes[k] == w.size;
        assert(w.size == decimal(files[k].size as nat).len());
    }
    if w.address != 13 {
        let k = choose|k: int| 0 <= k < addresses.len() && addresses[k] == w.address;
        assert(w.address == 2 + hex(files[k].start_address as nat, 8).len());
    }
    if w.fs != 2 {
        let k = choose|k: int| 0 <= k < kinds.len() && kinds[k] == w.fs;
        assert(w.fs == byte_len(files[k].fs_type));
    }
}

/// A row has the six texts of a file in its columns, numbers at the right and all others at the left:
/// what was deleted, the name, the size, the address, the file system and the path.
pub proof fn law_row_of_a_file(w: Widths, file: FileModel)
    ensures
        file_row(w, file) == "| "@ + padded(
            if file.is_directory {
                "Deleted (Dir)"@
            } else {
                "Deleted"@
            },
            12,
        ) + " | "@ + padded(shown_name(file.name), w.name) + " | "@ + right_aligned(
            decimal(file.size as nat),
            w.size,
        ) + " | "@ + padded("0x"@ + hex(file.start_address as nat, 8), w.address) + " | "@ + padded(
            file.fs_type,
            w.fs,
        ) + " | "@ + padded(shown_path(file.path), w.path) + " |\n"@,
{
}

/// The rows of files follow one another in the order of the files, one for each.
pub proof fn law_rows_follow_the_files(w: Widths, files: Seq<FileModel>, file: FileModel)
    ensures
        file_rows(w, seq![]).len() == 0,
        file_rows(w, files.push(file)) == file_rows(w, files) + file_row(w, file),
{
    assert(files.push(file).drop_last() =~= files);
}

/// The table has its rows between two lines, under the titles, and the number of files behind them;
/// without files it says that there are none.
pub proof fn law_table(files: Seq<FileModel>)
    ensures
        files.len() == 0 ==> table_text(files) == "\nNo deleted files found.\n"@,
        files.len() > 0 ==> ({
            let w = widths(files);
            let bar = "+"@ + separator(12) + "+"@ + separator(w.name) + "+"@ + separator(w.size)
                + "+"@ + separator(w.address) + "+"@ + separator(w.fs) + "+"@ + separator(w.path)
                + "+"@;
            &&& rule(w) == bar
            &&& title_row(w) == row(
                w,
                "Status"@,
                "Name"@,
                "Size"@,
                "Start Address"@,
                "FS"@,
                "Path"@,
            )
            &&& exists|head: Seq<char>|
                table_text(files) == #[trigger] (head + file_rows(w, files)) + rule(w)
                    + "\n\nFound "@ + decimal(files.len()) + " deleted entr"@ + (if files.len()
                    == 1 {
                    "y"@
                } else {
                    "ies"@
                }) + ".\n"@ && head == "\nDeleted Files:\n\nDeleted Files:\n"@ + rule(w) + "\n"@
                    + title_row(w) + rule(w) + "\n"@
        }),
{
    if files.len() > 0 {
        let w = widths(files);
        let head = "\nDeleted Files:\n\nDeleted Files:\n"@ + rule(w) + "\n"@ + title_row(w) + rule(
            w,
        ) + "\n"@;
        assert(table_text(files) == head + file_rows(w, files) + rule(w) + "\n\nFound "@ + decimal(
            files.len(),
        ) + " deleted entr"@ + (if files.len() == 1 {
            "y"@
        } else {
            "ies"@
        }) + ".\n"@);
    }
}

} // verus!
