//! How arguments are understood, which files are shown, and what is done with them.

use vstd::prelude::*;
use crate::cli::{
    decision, digits_value, directory_named, disk_path, drive_device, drive_named, flag_value,
    help_wanted, index_flag, index_value, path_matches, position_from, search_matches, slashed,
    unsigned, wanted, without_colons, without_leading, without_trailing, Decision, FlagValue,
    IndexFlag,
};
use crate::text::{ascii_upper_char, lowercase, occurs_at, occurs_in};
use crate::text_laws::law_occurrence;
use crate::types::FileModel;

verus! {

// ---------------------------------------------------------------------------------------------
// Flags
// ---------------------------------------------------------------------------------------------

proof fn lemma_position(args: Seq<Seq<char>>, text: Seq<char>, i: int, k: int)
    requires
        0 <= i <= k <= args.len(),
        forall|j: int| i <= j < k ==> #[trigger] args[j] != text,
        k < args.len() ==> args[k] == text,
    ensures
        position_from(args, text, i) == if k < args.len() {
            Some(k)
        } else {
            None
        },
    decreases k - i,
{
    if i < k {
        assert(args[i] != text);
        lemma_position(args, text, i + 1, k);
    }
}

/// The value of a flag is the argument behind its first occurrence; a flag that comes last lacks
/// its value.
pub proof fn law_flag_value(args: Seq<Seq<char>>, flag: Seq<char>, k: int)
    requires
        0 <= k < args.len() <= usize::MAX,
        args[k] == flag,
        forall|j: int| 0 <= j < k ==> #[trigger] args[j] != flag,
    ensures
        k + 1 < args.len() ==> flag_value(args, flag) == FlagValue::At((k + 1) as usize),
        k + 1 == args.len() ==> flag_value(args, flag) == FlagValue::Missing,
{
    lemma_position(args, flag, 0, k);
}

/// A flag that is not among the arguments has no value.
pub proof fn law_absent_flag(args: Seq<Seq<char>>, flag: Seq<char>)
    requires
        !args.contains(flag),
    ensures
        flag_value(args, flag) == FlagValue::Absent,
        index_flag(args, flag) == IndexFlag::Absent,
{
    assert forall|j: int| 0 <= j < args.len() implies #[trigger] args[j] != flag by {}
    lemma_position(args, flag, 0, args.len() as int);
}

/// Digits are read from the left, each adding to ten times those before it; any other character
/// makes a text no number, wherever it stands.
pub proof fn law_digits(s: Seq<char>, c: char, d: int)
    ensures
        digits_value(seq![]) == Some(0nat),
        0 <= d < 10 && c == "0123456789"@[d] ==> digits_value(s.push(c)) == (match digits_value(s) {
            Some(n) => Some((10 * n + d) as nat),
            None => None,
        }),
        !"0123456789"@.contains(c) ==> digits_value(s.push(c)) is None,
{
    reveal_strlit("0123456789");
    assert(s.push(c).drop_last() =~= s);
    assert(s.push(c).last() == c);
    if '0' <= c <= '9' {
        let k = c as int - '0' as int;
        assert("0123456789"@[k] == c);
    }
}

/// An index is a number that a machine holds, with at least one digit and a plus sign before it or
/// none.
pub proof fn law_index(s: Seq<char>, n: nat)
    requires
        s.len() > 0,
        s[0] != '+',
        digits_value(s) == Some(n),
    ensures
        n <= usize::MAX ==> index_value(s) == Some(n as usize) && index_value(seq!['+'] + s)
            == Some(n as usize),
        n > usize::MAX ==> index_value(s) is None && index_value(seq!['+'] + s) is None,
        index_value(seq![]) is None,
        index_value(seq!['+']) is None,
{
    assert((seq!['+'] + s).skip(1) =~= s);
    assert(seq!['+'].skip(1) =~= Seq::<char>::empty());
}

/// A text that is no number, with or without a plus sign before it, is no index.
pub proof fn law_no_index(s: Seq<char>)
    requires
        digits_value(unsigned(s)) is None,
    ensures
        index_value(s) is None,
        s.len() == 0 || s[0] != '+' ==> unsigned(s) == s,
        s.len() > 0 && s[0] == '+' ==> unsigned(s) == s.skip(1),
{
}

/// The index that a flag gives is the one that its value is read as, and a value that is none is
/// pointed out.
pub proof fn law_index_flag(args: Seq<Seq<char>>, flag: Seq<char>)
    ensures
        flag_value(args, flag) matches FlagValue::At(i) ==> index_flag(args, flag) == (
        match index_value(args[i as int]) {
            Some(n) => IndexFlag::Index(n),
            None => IndexFlag::Invalid(i),
        }),
        flag_value(args, flag) is Missing ==> index_flag(args, flag) == IndexFlag::Missing,
{
}

/// Help is shown where it is asked for, or where there is no path.
pub proof fn law_help(args: Seq<Seq<char>>)
    ensures
        help_wanted(args) <==> args.len() < 2 || exists|i: int|
            0 <= i < args.len() && (#[trigger] args[i] == "--help"@ || args[i] == "-h"@),
{
}

// ---------------------------------------------------------------------------------------------
// Paths
// ---------------------------------------------------------------------------------------------

/// A drive is named by a first component of one letter, with colons behind it or none, in a path
/// that is not that of a device already; in upper case.
pub proof fn law_drive(input: Seq<char>, letter: char, colons: nat)
    requires
        letter != ':',
    ensures
        ({
            let first = seq![letter] + Seq::new(colons, |i: int| ':');
            let device = exists|after: Seq<char>| input == #[trigger] ("\\\\.\\"@ + after);
            drive_named(input, Some(first)) == if !device && (0x41 <= letter as u32 <= 0x5A || 0x61
                <= letter as u32 <= 0x7A) {
                Some(ascii_upper_char(letter))
            } else {
                None
            }
        }),
        drive_named(input, None) is None,
{
    lemma_without_colons(seq![letter], colons);
    assert(without_colons(seq![letter]) == seq![letter]);
    law_occurrence(input, "\\\\.\\"@);
}

proof fn lemma_without_colons(s: Seq<char>, colons: nat)
    ensures
        without_colons(s + Seq::new(colons, |i: int| ':')) == without_colons(s),
    decreases colons,
{
    let all = s + Seq::new(colons, |i: int| ':');
    if colons > 0 {
        lemma_without_colons(s, (colons - 1) as nat);
        assert(all.drop_last() =~= s + Seq::new((colons - 1) as nat, |i: int| ':'));
        assert(all.last() == ':');
    } else {
        assert(all =~= s);
    }
}

/// A first component of any other length names no drive.
pub proof fn law_no_drive(input: Seq<char>, name: Seq<char>)
    requires
        name.len() != 1,
        name.len() > 0 ==> name.last() != ':',
    ensures
        drive_named(input, Some(name)) is None,
{
}

/// The device of a drive has its letter behind the prefix of devices, and a colon.
pub proof fn law_drive_device(drive: char)
    ensures
        drive_device(drive) == seq!['\\', '\\', '.', '\\', drive, ':'],
{
    reveal_strlit("\\\\.\\");
    reveal_strlit(":");
    assert(drive_device(drive) =~= seq!['\\', '\\', '.', '\\', drive, ':']);
}

/// A directory is the rest of a path with slashes for backslashes, and without slashes before and
/// behind it.
pub proof fn law_directory_of_a_path(inner: Seq<char>, before: nat, after: nat)
    requires
        inner.len() > 0,
        inner[0] != '/',
        inner[0] != '\\',
        inner.last() != '/',
        inner.last() != '\\',
    ensures
        directory_named(
            Seq::new(before, |i: int| '\\') + inner + Seq::new(after, |i: int| '/'),
        ) == inner.map_values(
            |c: char|
                if c == '\\' {
                    '/'
                } else {
                    c
                },
        ),
{
    let rest = Seq::new(before, |i: int| '\\') + inner + Seq::new(after, |i: int| '/');
    let all = rest.map_values(|c: char| slashed(c));
    let middle = inner.map_values(|c: char| slashed(c));
    let ends = Seq::new(after, |i: int| '/');
    assert(all =~= Seq::new(before, |i: int| '/') + (middle + ends));
    lemma_without_leading(before, middle + ends);
    assert((middle + ends)[0] == middle[0]);
    assert(without_leading(middle + ends) == middle + ends);
    lemma_without_trailing(middle, after);
    assert(middle.last() == inner.last());
    assert(without_trailing(middle) == middle);
    assert(middle =~= inner.map_values(
        |c: char|
            if c == '\\' {
                '/'
            } else {
                c
            },
    ));
}

proof fn lemma_without_leading(n: nat, s: Seq<char>)
    ensures
        without_leading(Seq::new(n, |i: int| '/') + s) == without_leading(s),
    decreases n,
{
    let all = Seq::new(n, |i: int| '/') + s;
    if n > 0 {
        lemma_without_leading((n - 1) as nat, s);
        assert(all.skip(1) =~= Seq::new((n - 1) as nat, |i: int| '/') + s);
        assert(all[0] == '/');
    } else {
        assert(all =~= s);
    }
}

proof fn lemma_without_trailing(s: Seq<char>, n: nat)
    ensures
        without_trailing(s + Seq::new(n, |i: int| '/')) == without_trailing(s),
    decreases n,
{
    let all = s + Seq::new(n, |i: int| '/');
    if n > 0 {
        lemma_without_trailing(s, (n - 1) as nat);
        assert(all.drop_last() =~= s + Seq::new((n - 1) as nat, |i: int| '/'));
        assert(all.last() == '/');
    } else {
        assert(all =~= s);
    }
}

/// A whole disk is named by the prefix of physical drives, with anything behind it.
pub proof fn law_physical_drives_are_disks(rest: Seq<char>)
    ensures
        disk_path("\\\\.\\PhysicalDrive"@ + rest),
{
    let all = "\\\\.\\PhysicalDrive"@ + rest;
    let prefix = "\\\\.\\PhysicalDrive"@;
    assert(all.subrange(0, prefix.len() as int) =~= prefix);
    assert(occurs_at(all, prefix, 0));
}

/// A whole disk is named by the prefix of disks with letters behind it, and at least one; a number
/// behind the letters names a partition.
pub proof fn law_disks_have_letters(rest: Seq<char>)
    ensures
        disk_path("/dev/sd"@ + rest) <==> rest.len() > 0 && forall|i: int|
            0 <= i < rest.len() ==> 'a' <= #[trigger] rest[i] <= 'z',
{
    reveal_strlit("/dev/sd");
    let prefix = "/dev/sd"@;
    let all = prefix + rest;
    assert(all.subrange(0, prefix.len() as int) =~= prefix);
    assert(occurs_at(all, prefix, 0));
    lemma_no_physical_drive(all);
    if disk_path(all) {
        assert forall|i: int| 0 <= i < rest.len() implies 'a' <= #[trigger] rest[i] <= 'z' by {
            assert('a' <= all[7 + i] <= 'z');
        }
    }
    if rest.len() > 0 && forall|i: int|
        0 <= i < rest.len() ==> 'a' <= #[trigger] rest[i] <= 'z' {
        assert forall|i: int| 7 <= i < all.len() implies 'a' <= #[trigger] all[i] <= 'z' by {
            assert(all[i] == rest[i - 7]);
        }
    }
}

/// A path with neither prefix is not that of a disk.
pub proof fn law_disks_have_a_prefix(path: Seq<char>)
    requires
        disk_path(path),
    ensures
        exists|rest: Seq<char>| path == #[trigger] ("\\\\.\\PhysicalDrive"@ + rest) || path == (
        "/dev/sd"@ + rest),
{
    law_occurrence(path, "\\\\.\\PhysicalDrive"@);
    law_occurrence(path, "/dev/sd"@);
    if !occurs_at(path, "\\\\.\\PhysicalDrive"@, 0) {
        let rest = choose|rest: Seq<char>| path == #[trigger] ("/dev/sd"@ + rest);
        assert("\\\\.\\PhysicalDrive"@ + rest == "\\\\.\\PhysicalDrive"@ + rest);
    }
}

proof fn lemma_no_physical_drive(path: Seq<char>)
    requires
        path.len() > 0,
        path[0] == '/',
    ensures
        !occurs_at(path, "\\\\.\\PhysicalDrive"@, 0),
{
    reveal_strlit("\\\\.\\PhysicalDrive");
    let prefix = "\\\\.\\PhysicalDrive"@;
    assert(prefix[0] == '\\');
    if occurs_at(path, prefix, 0) {
        assert(path.subrange(0, prefix.len() as int)[0] == path[0]);
    }
}

// ---------------------------------------------------------------------------------------------
// Which files are shown
// ---------------------------------------------------------------------------------------------

/// A directory filter lets through what is in the directory and what is anywhere below it, and
/// nothing else; without one everything is let through.
pub proof fn law_path_filter(path: Seq<char>, filter: Seq<char>)
    ensures
        path_matches(path, filter) <==> filter.len() == 0 || path == filter || exists|
            below: Seq<char>,
        | path == #[trigger] (filter + seq!['/'] + below),
{
    reveal_strlit("/");
    assert("/"@ =~= seq!['/']);
    law_occurrence(path, filter + "/"@);
    if exists|after: Seq<char>| path == #[trigger] (filter + "/"@ + after) {
        let after = choose|after: Seq<char>| path == #[trigger] (filter + "/"@ + after);
        assert(path == filter + seq!['/'] + after);
    }
}

/// A search lets through the names that contain what is searched for, both in lower case; without
/// one everything is let through. A file is shown where both filters let it through.
pub proof fn law_filters(
    file: FileModel,
    directory: Option<Seq<char>>,
    search: Option<Seq<char>>,
)
    ensures
        search is None ==> search_matches(file.name, search),
        search matches Some(pattern) ==> (search_matches(file.name, search) <==> occurs_in(
            lowercase(file.name),
            lowercase(pattern),
        )),
        wanted(file, directory, search) <==> (directory is None || path_matches(
            file.path,
            directory->0,
        )) && search_matches(file.name, search),
{
}

// ---------------------------------------------------------------------------------------------
// What is done with them
// ---------------------------------------------------------------------------------------------

/// Without an index the files are shown. An index beyond the last is refused with the last one. A
/// file that holds something, but of which neither the address nor the contents are known, is not
/// restored, nor is an empty one; every other file is.
pub proof fn law_decision(files: Seq<FileModel>, i: usize)
    requires
        files.len() <= usize::MAX,
    ensures
        decision(files, None) == Decision::Show,
        i >= files.len() && files.len() > 0 ==> decision(files, Some(i)) == (Decision::OutOfRange {
            last: (files.len() - 1) as usize,
        }),
        files.len() == 0 ==> decision(files, Some(i)) == (Decision::OutOfRange { last: 0 }),
        i < files.len() ==> {
            let file = files[i as int];
            let known = file.start_address != 0 || file.resident_data is Some;
            &&& file.size > 0 && known ==> decision(files, Some(i)) == Decision::Restore(i)
            &&& file.size > 0 && !known ==> decision(files, Some(i)) == Decision::NoAddress(i)
            &&& file.size == 0 ==> decision(files, Some(i)) == Decision::Empty(i)
        },
{
}

} // verus!
