//! What numbers and texts look like when they are written out, and what is read of damaged ones.

use vstd::prelude::*;
use crate::text::{
    ascii_lower_char, ascii_lowercase, ascii_upper_char, ascii_uppercase, decimal, hex, joined,
    occurs_at, occurs_in, utf16_lossy,
};

verus! {

/// The characters of the digits.
pub open spec fn digit_char(d: int) -> char {
    "0123456789ABCDEF"@[d]
}

/// A number is written in decimal with its last digit last, behind the digits of the rest, and
/// without zeros before it.
pub proof fn law_decimal_digits(n: nat, d: int)
    requires
        0 <= d < 10,
    ensures
        decimal(d as nat) == seq![digit_char(d)],
        n > 0 ==> decimal((10 * n + d) as nat) == decimal(n).push(digit_char(d)),
{
    reveal_strlit("0123456789ABCDEF");
}

/// A number is written in hexadecimal with its last digit last, in upper case, and with zeros before
/// it up to the width, but none beyond.
pub proof fn law_hex_digits(n: nat, d: int, width: nat)
    requires
        0 <= d < 16,
    ensures
        hex(d as nat, 0) == seq![digit_char(d)],
        hex(d as nat, 1) == seq![digit_char(d)],
        n > 0 || width > 0 ==> hex((16 * n + d) as nat, width + 1) == hex(n, width).push(
            digit_char(d),
        ),
        n > 0 ==> hex((16 * n + d) as nat, 0) == hex(n, 0).push(digit_char(d)),
{
    reveal_strlit("0123456789ABCDEF");
}

/// A number in hexadecimal is at least as wide as is asked for.
pub proof fn law_hex_is_padded(n: nat, width: nat)
    ensures
        hex(n, width).len() >= width,
        hex(n, width).len() > width && width > 0 ==> hex(n, width)[0] != '0',
    decreases n + width,
{
    if !(n < 16 && width <= 1) {
        let left = if width == 0 {
            0
        } else {
            (width - 1) as nat
        };
        law_hex_is_padded(n / 16, left);
        if left == 0 {
            lemma_hex_leads(n / 16);
        }
    }
}

proof fn lemma_hex_leads(n: nat)
    ensures
        n > 0 ==> hex(n, 0)[0] != '0',
        hex(n, 0).len() > 0,
    decreases n,
{
    if n >= 16 {
        lemma_hex_leads(n / 16);
    }
}

/// A unit of UTF-16 that is half of a pair without the other half is read as the replacement
/// character, and what follows it as if it stood alone.
pub proof fn law_lone_halves_are_replaced(unit: u16, rest: Seq<u16>)
    requires
        0xD800 <= unit <= 0xDFFF,
        unit >= 0xDC00 || rest.len() == 0 || rest[0] < 0xDC00 || rest[0] > 0xDFFF,
    ensures
        utf16_lossy(seq![unit] + rest) == seq!['\u{FFFD}'] + utf16_lossy(rest),
{
    let units = seq![unit] + rest;
    assert(units.skip(1) =~= rest);
    assert(units[0] == unit);
}

/// Texts are joined one behind another, with the separator between each two and nowhere else.
pub proof fn law_joined(parts: Seq<Seq<char>>, last: Seq<char>, sep: Seq<char>)
    ensures
        joined(seq![], sep) == Seq::<char>::empty(),
        joined(parts.push(last), sep) == if parts.len() == 0 {
            last
        } else {
            joined(parts, sep) + sep + last
        },
{
    let all = parts.push(last);
    assert(all.drop_last() =~= parts);
    assert(all.last() == last);
}

/// A text occurs in another exactly where that other is the text with something before and behind.
pub proof fn law_occurrence(hay: Seq<char>, needle: Seq<char>)
    ensures
        occurs_in(hay, needle) <==> exists|before: Seq<char>, after: Seq<char>|
            hay == #[trigger] (before + needle + after),
        occurs_at(hay, needle, 0) <==> exists|after: Seq<char>| hay == #[trigger] (needle + after),
{
    if occurs_in(hay, needle) {
        let at = choose|at: int| occurs_at(hay, needle, at);
        let before = hay.take(at);
        let after = hay.skip(at + needle.len());
        assert(hay =~= before + needle + after);
    }
    if exists|before: Seq<char>, after: Seq<char>| hay == #[trigger] (before + needle + after) {
        let (before, after) = choose|before: Seq<char>, after: Seq<char>|
            hay == #[trigger] (before + needle + after);
        assert(hay.subrange(before.len() as int, (before.len() + needle.len()) as int) =~= needle);
        assert(occurs_at(hay, needle, before.len() as int));
    }
    if occurs_at(hay, needle, 0) {
        let after = hay.skip(needle.len() as int);
        assert(hay.subrange(0, needle.len() as int) =~= needle);
        assert(hay =~= needle + after);
    }
    if exists|after: Seq<char>| hay == #[trigger] (needle + after) {
        let after = choose|after: Seq<char>| hay == #[trigger] (needle + after);
        assert(hay.subrange(0, needle.len() as int) =~= needle);
    }
}

/// Letters of ASCII change their case and come back; other characters are kept.
pub proof fn law_case_of_letters(k: int, c: char)
    requires
        0 <= k < 26,
    ensures
        ascii_lower_char("ABCDEFGHIJKLMNOPQRSTUVWXYZ"@[k]) == "abcdefghijklmnopqrstuvwxyz"@[k],
        ascii_upper_char("abcdefghijklmnopqrstuvwxyz"@[k]) == "ABCDEFGHIJKLMNOPQRSTUVWXYZ"@[k],
        !(0x41 <= c as u32 <= 0x5A) ==> ascii_lower_char(c) == c,
        !(0x61 <= c as u32 <= 0x7A) ==> ascii_upper_char(c) == c,
        ascii_lowercase(seq![c]) == seq![ascii_lower_char(c)],
        ascii_uppercase(seq![c]) == seq![ascii_upper_char(c)],
{
    reveal_strlit("ABCDEFGHIJKLMNOPQRSTUVWXYZ");
    reveal_strlit("abcdefghijklmnopqrstuvwxyz");
    assert(ascii_lowercase(seq![c]) =~= seq![ascii_lower_char(c)]);
    assert(ascii_uppercase(seq![c]) =~= seq![ascii_upper_char(c)]);
}

/// The case of a text is that of its characters, each in its place.
pub proof fn law_case_of_texts(s: Seq<char>, c: char)
    ensures
        ascii_lowercase(s.push(c)) == ascii_lowercase(s).push(ascii_lower_char(c)),
        ascii_uppercase(s.push(c)) == ascii_uppercase(s).push(ascii_upper_char(c)),
        ascii_lowercase(s).len() == s.len(),
        ascii_uppercase(s).len() == s.len(),
{
    assert(ascii_lowercase(s.push(c)) =~= ascii_lowercase(s).push(ascii_lower_char(c)));
    assert(ascii_uppercase(s.push(c)) =~= ascii_uppercase(s).push(ascii_upper_char(c)));
}

} // verus!
