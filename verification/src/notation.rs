//! The textual notations of an address: upper-case hexadecimal digits, two
//! per byte, in groups that a separator keeps apart.

use vstd::prelude::*;
use crate::digits::{hex_pair, upper_hex_digit_str};

verus! {

/// The bytes as digit pairs in their order, with `sep` before every byte
/// whose index is a positive multiple of `group`.
pub open spec fn grouped_hex(bytes: Seq<u8>, group: int, sep: char) -> Seq<char>
    recommends
        group > 0,
    decreases bytes.len(),
{
    if bytes.len() == 0 {
        Seq::empty()
    } else {
        let last = bytes.len() - 1;
        let before = grouped_hex(bytes.drop_last(), group, sep);
        if last > 0 && last % group == 0 {
            before.push(sep) + hex_pair(bytes[last])
        } else {
            before + hex_pair(bytes[last])
        }
    }
}

/// Canonical form: the bytes joined with `-`, as in `AA-BB-CC-DD-EE-FF`.
pub open spec fn canonical_text(bytes: Seq<u8>) -> Seq<char> {
    grouped_hex(bytes, 1, '-')
}

/// Colon form: the bytes joined with `:`, as in `AA:BB:CC:DD:EE:FF`.
pub open spec fn colon_text(bytes: Seq<u8>) -> Seq<char> {
    grouped_hex(bytes, 1, ':')
}

/// Dot form: consecutive pairs of bytes joined with `.`, as in `AABB.CCDD.EEFF`.
pub open spec fn dot_text(bytes: Seq<u8>) -> Seq<char> {
    grouped_hex(bytes, 2, '.')
}

/// Writes `bytes` as upper-case digit pairs, with `sep` between groups of
/// `group` bytes.
pub(crate) fn format_grouped(bytes: &[u8], group: usize, sep: &str) -> (text: String)
    requires
        group > 0,
        sep@.len() == 1,
    ensures
        text@ == grouped_hex(bytes@, group as int, sep@[0]),
{
    let mut text = String::new();
    let mut i: usize = 0;
    while i < bytes.len()
        invariant
            i <= bytes.len(),
            group > 0,
            sep@.len() == 1,
            text@ == grouped_hex(bytes@.take(i as int), group as int, sep@[0]),
        decreases bytes.len() - i,
    {
        if i > 0 && i % group == 0 {
            text.append(sep);
        }
        let b: u8 = bytes[i];
        text.append(upper_hex_digit_str(b / 16));
        text.append(upper_hex_digit_str(b % 16));
        proof {
            assert(bytes@.take(i + 1).drop_last() =~= bytes@.take(i as int));
        }
        i += 1;
    }
    proof {
        assert(bytes@.take(i as int) =~= bytes@);
    }
    text
}

} // verus!
