//! Hexadecimal digits and the separators that may stand between them.

use vstd::prelude::*;

verus! {

/// `-`, `:` and `.` separate groups of digits and carry no value.
pub open spec fn is_separator(c: char) -> bool {
    c == '-' || c == ':' || c == '.'
}

/// The digits `0`-`9`, `a`-`f` and `A`-`F`.
pub open spec fn is_hex_digit(c: char) -> bool {
    ('0' <= c <= '9') || ('a' <= c <= 'f') || ('A' <= c <= 'F')
}

/// The number between 0 and 15 that a hexadecimal digit stands for, in either case.
pub open spec fn hex_digit_value(c: char) -> int
    recommends
        is_hex_digit(c),
{
    if '0' <= c <= '9' {
        c as int - '0' as int
    } else if 'a' <= c <= 'f' {
        c as int - 'a' as int + 10
    } else {
        c as int - 'A' as int + 10
    }
}

/// The upper-case digit for a number between 0 and 15.
pub open spec fn upper_hex_digit(v: int) -> char
    recommends
        0 <= v < 16,
{
    if v < 10 {
        ('0' as int + v) as char
    } else {
        ('A' as int + v - 10) as char
    }
}

/// A byte as text: its high half and then its low half, each as an upper-case digit.
pub open spec fn hex_pair(b: u8) -> Seq<char> {
    seq![upper_hex_digit(b as int / 16), upper_hex_digit(b as int % 16)]
}

/// Every element is a hexadecimal digit.
pub open spec fn all_hex_digits(s: Seq<char>) -> bool {
    forall|i: int| 0 <= i < s.len() ==> is_hex_digit(#[trigger] s[i])
}

/// An upper-case digit is a digit, it is no separator, and it stands for the
/// number it was made from.
pub proof fn lemma_upper_hex_digit(v: int)
    requires
        0 <= v < 16,
    ensures
        is_hex_digit(upper_hex_digit(v)),
        !is_separator(upper_hex_digit(v)),
        hex_digit_value(upper_hex_digit(v)) == v,
{
}

/// The text for the number `v`, one upper-case digit.
pub(crate) fn upper_hex_digit_str(v: u8) -> (s: &'static str)
    requires
        v < 16,
    ensures
        s@ == seq![upper_hex_digit(v as int)],
{
    let table = "0123456789ABCDEF";
    proof {
        reveal_strlit("0123456789ABCDEF");
    }
    let i: usize = v as usize;
    table.substring_ascii(i, i + 1)
}

} // verus!
