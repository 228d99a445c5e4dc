//! What holds between writing an address and reading it back.

use vstd::prelude::*;
use vstd::std_specs::convert::TryFromSpec;
use crate::digits::{
    all_hex_digits, hex_digit_value, hex_pair, is_hex_digit, is_separator, lemma_upper_hex_digit,
    upper_hex_digit,
};
use crate::address::{EUI48, EUI64};
use crate::error::Error;
use crate::notation::{canonical_text, colon_text, dot_text, grouped_hex};
use crate::parse::{decode_pairs, parsed_octets, strip_separators};

verus! {

/// Going one number up, the quotient by `group` goes up by one exactly at
/// the multiples of `group`.
proof fn lemma_quotient_step(i: int, group: int)
    by (nonlinear_arith)
    requires
        i >= 1,
        group >= 1,
    ensures
        i / group == (i - 1) / group + (if i % group == 0 {
            1int
        } else {
            0int
        }),
        i / group >= 0,
{
    if (i - 1) % group + 1 < group {
        assert(i / group == (i - 1) / group && i % group == (i - 1) % group + 1);
    }
}

/// Where everything stands in a notation: byte `i` has its two digits at
/// `2 * i + i / group` and right after, with a separator just before them
/// where `i` is a positive multiple of `group`, and nothing else is in the
/// text. So the text begins and ends with a digit.
pub proof fn lemma_grouped_hex_shape(bytes: Seq<u8>, group: int, sep: char)
    requires
        group >= 1,
    ensures
        grouped_hex(bytes, group, sep).len() == (if bytes.len() == 0 {
            0
        } else {
            2 * bytes.len() + (bytes.len() - 1) / group
        }),
        forall|i: int|
            0 <= i < bytes.len() ==> {
                &&& grouped_hex(bytes, group, sep)[2 * i + i / group] == upper_hex_digit(
                    #[trigger] bytes[i] as int / 16,
                )
                &&& grouped_hex(bytes, group, sep)[2 * i + i / group + 1] == upper_hex_digit(
                    bytes[i] as int % 16,
                )
                &&& (i > 0 && i % group == 0) ==> grouped_hex(bytes, group, sep)[2 * i + i / group
                    - 1] == sep
            },
    decreases bytes.len(),
{
    let text = grouped_hex(bytes, group, sep);
    if bytes.len() > 0 {
        let last = bytes.len() - 1;
        let front = bytes.drop_last();
        let before = grouped_hex(front, group, sep);
        lemma_grouped_hex_shape(front, group, sep);
        if last > 0 {
            lemma_quotient_step(last, group);
        }
        assert(before.len() + (if last > 0 && last % group == 0 {
            1int
        } else {
            0int
        }) == 2 * last + last / group);
        assert forall|i: int| 0 <= i < bytes.len() implies {
            &&& text[2 * i + i / group] == upper_hex_digit(#[trigger] bytes[i] as int / 16)
            &&& text[2 * i + i / group + 1] == upper_hex_digit(bytes[i] as int % 16)
            &&& (i > 0 && i % group == 0) ==> text[2 * i + i / group - 1] == sep
        } by {
            if i < last {
                assert(front[i] == bytes[i]);
                if i > 0 {
                    lemma_quotient_step(i, group);
                }
                lemma_quotient_bound(i, last, group);
            }
        }
    }
}

/// The quotient by `group` does not go down as the number goes up.
proof fn lemma_quotient_bound(i: int, j: int, group: int)
    by (nonlinear_arith)
    requires
        0 <= i <= j,
        group >= 1,
    ensures
        0 <= i / group <= j / group,
{
}

/// The digit pairs of the bytes, one after the other, with nothing between them.
pub open spec fn hex_text(bytes: Seq<u8>) -> Seq<char> {
    Seq::new(
        2 * bytes.len(),
        |i: int|
            if i % 2 == 0 {
                upper_hex_digit(bytes[i / 2] as int / 16)
            } else {
                upper_hex_digit(bytes[i / 2] as int % 16)
            },
    )
}

/// The digits of a run of bytes are those of all but the last, then the
/// pair of the last.
proof fn lemma_hex_text_step(bytes: Seq<u8>)
    requires
        bytes.len() > 0,
    ensures
        hex_text(bytes) == hex_text(bytes.drop_last()) + hex_pair(bytes.last()),
{
    let whole = hex_text(bytes);
    let parts = hex_text(bytes.drop_last()) + hex_pair(bytes.last());
    assert forall|i: int| 0 <= i < whole.len() implies whole[i] == parts[i] by {
        if i < 2 * (bytes.len() - 1) {
            assert(bytes.drop_last()[i / 2] == bytes[i / 2]);
        } else {
            assert(i / 2 == bytes.len() - 1);
        }
    }
}

/// Dropping the separators from a digit pair leaves the pair.
proof fn lemma_strip_hex_pair(b: u8)
    ensures
        strip_separators(hex_pair(b)) == hex_pair(b),
{
    let keep = |c: char| !is_separator(c);
    let hi = upper_hex_digit(b as int / 16);
    let lo = upper_hex_digit(b as int % 16);
    let none = Seq::<char>::empty();
    lemma_upper_hex_digit(b as int / 16);
    lemma_upper_hex_digit(b as int % 16);
    none.lemma_filter_len(keep);
    none.lemma_filter_push(hi, keep);
    none.push(hi).lemma_filter_push(lo, keep);
    assert(none.push(hi).push(lo) =~= hex_pair(b));
}

/// Without its separators, a notation is the digit pairs of its bytes.
pub proof fn lemma_strip_grouped_hex(bytes: Seq<u8>, group: int, sep: char)
    requires
        is_separator(sep),
    ensures
        strip_separators(grouped_hex(bytes, group, sep)) == hex_text(bytes),
    decreases bytes.len(),
{
    let keep = |c: char| !is_separator(c);
    if bytes.len() == 0 {
        Seq::<char>::empty().lemma_filter_len(keep);
        assert(strip_separators(grouped_hex(bytes, group, sep)) =~= hex_text(bytes));
    } else {
        let last = bytes.len() - 1;
        let before = grouped_hex(bytes.drop_last(), group, sep);
        lemma_strip_grouped_hex(bytes.drop_last(), group, sep);
        lemma_hex_text_step(bytes);
        lemma_strip_hex_pair(bytes[last]);
        before.lemma_filter_push(sep, keep);
        Seq::filter_distributes_over_add(before, hex_pair(bytes[last]), keep);
        Seq::filter_distributes_over_add(before.push(sep), hex_pair(bytes[last]), keep);
    }
}

/// The digit pairs of bytes are digits, two for each byte, and spell those bytes.
pub proof fn lemma_decode_hex_text(bytes: Seq<u8>)
    ensures
        all_hex_digits(hex_text(bytes)),
        hex_text(bytes).len() == 2 * bytes.len(),
        decode_pairs(hex_text(bytes)) == bytes,
{
    let text = hex_text(bytes);
    assert forall|i: int| 0 <= i < text.len() implies is_hex_digit(#[trigger] text[i]) by {
        lemma_upper_hex_digit(bytes[i / 2] as int / 16);
        lemma_upper_hex_digit(bytes[i / 2] as int % 16);
    }
    let decoded = decode_pairs(text);
    assert forall|i: int| 0 <= i < bytes.len() implies decoded[i] == bytes[i] by {
        lemma_upper_hex_digit(bytes[i] as int / 16);
        lemma_upper_hex_digit(bytes[i] as int % 16);
    }
    assert(decoded =~= bytes);
}

/// Writing bytes in groups kept apart by a separator, and reading the text
/// back as an address of that many bytes, gives the bytes again.
pub proof fn lemma_round_trip(bytes: Seq<u8>, group: int, sep: char)
    requires
        is_separator(sep),
    ensures
        parsed_octets(grouped_hex(bytes, group, sep), bytes.len()) == Ok::<Seq<u8>, Error>(bytes),
{
    lemma_strip_grouped_hex(bytes, group, sep);
    lemma_decode_hex_text(bytes);
}

/// Reading back the canonical form of an address gives its bytes.
pub proof fn lemma_round_trip_canonical(bytes: Seq<u8>)
    ensures
        parsed_octets(canonical_text(bytes), bytes.len()) == Ok::<Seq<u8>, Error>(bytes),
{
    lemma_round_trip(bytes, 1, '-');
}

/// Reading back the colon form of an address gives its bytes.
pub proof fn lemma_round_trip_colon(bytes: Seq<u8>)
    ensures
        parsed_octets(colon_text(bytes), bytes.len()) == Ok::<Seq<u8>, Error>(bytes),
{
    lemma_round_trip(bytes, 1, ':');
}

/// Reading back the dot form of an address gives its bytes.
pub proof fn lemma_round_trip_dot(bytes: Seq<u8>)
    ensures
        parsed_octets(dot_text(bytes), bytes.len()) == Ok::<Seq<u8>, Error>(bytes),
{
    lemma_round_trip(bytes, 2, '.');
}

/// Writing an address, reading it back, and doing both once more gives the
/// same bytes both times: those that were written first.
pub proof fn lemma_reparse_is_stable(bytes: Seq<u8>, group: int, sep: char)
    requires
        is_separator(sep),
    ensures
        ({
            let first = parsed_octets(grouped_hex(bytes, group, sep), bytes.len());
            &&& first == Ok::<Seq<u8>, Error>(bytes)
            &&& parsed_octets(grouped_hex(first->Ok_0, group, sep), bytes.len()) == first
        }),
{
    lemma_round_trip(bytes, group, sep);
}

/// Text that is read as an address has as many bytes as were asked for.
pub proof fn lemma_parsed_len(text: Seq<char>, n: nat)
    ensures
        parsed_octets(text, n) matches Ok(octets) ==> octets.len() == n,
{
}

/// Only the characters that are no separators decide what a text means.
pub proof fn lemma_separators_do_not_matter(a: Seq<char>, b: Seq<char>, n: nat)
    requires
        strip_separators(a) == strip_separators(b),
    ensures
        parsed_octets(a, n) == parsed_octets(b, n),
{
}

/// The three notations of the same bytes are read alike.
pub proof fn lemma_notations_agree(bytes: Seq<u8>, n: nat)
    ensures
        parsed_octets(canonical_text(bytes), n) == parsed_octets(colon_text(bytes), n),
        parsed_octets(canonical_text(bytes), n) == parsed_octets(dot_text(bytes), n),
{
    lemma_strip_grouped_hex(bytes, 1, '-');
    lemma_strip_grouped_hex(bytes, 1, ':');
    lemma_strip_grouped_hex(bytes, 2, '.');
}

/// Text that is an address of one size is refused as an address of any
/// other size, for its length.
pub proof fn lemma_other_size_is_refused(text: Seq<char>, n: nat, m: nat)
    requires
        parsed_octets(text, n) is Ok,
        n != m,
    ensures
        parsed_octets(text, m) == Err::<Seq<u8>, Error>(Error::InvalidStringLength),
{
}

/// The letter in lower case, where it is an upper-case ASCII letter.
pub open spec fn ascii_lower(c: char) -> char {
    if 'A' <= c <= 'Z' {
        (c as int + 32) as char
    } else {
        c
    }
}

/// The letter in upper case, where it is a lower-case ASCII letter.
pub open spec fn ascii_upper(c: char) -> char {
    if 'a' <= c <= 'z' {
        (c as int - 32) as char
    } else {
        c
    }
}

/// A change of characters that leaves separators, digits and their values
/// as they were.
pub open spec fn keeps_digits(f: spec_fn(char) -> char) -> bool {
    forall|c: char|
        {
            &&& is_separator(#[trigger] f(c)) == is_separator(c)
            &&& is_hex_digit(f(c)) == is_hex_digit(c)
            &&& is_hex_digit(c) ==> hex_digit_value(f(c)) == hex_digit_value(c)
        }
}

/// Dropping separators before or after such a change comes to the same.
proof fn lemma_strip_mapped(text: Seq<char>, f: spec_fn(char) -> char)
    requires
        keeps_digits(f),
    ensures
        strip_separators(text.map_values(f)) == strip_separators(text).map_values(f),
    decreases text.len(),
{
    let keep = |c: char| !is_separator(c);
    if text.len() == 0 {
        text.lemma_filter_len(keep);
        text.map_values(f).lemma_filter_len(keep);
    } else {
        let front = text.drop_last();
        let c = text.last();
        lemma_strip_mapped(front, f);
        assert(text =~= front.push(c));
        assert(text.map_values(f) =~= front.map_values(f).push(f(c)));
        front.lemma_filter_push(c, keep);
        front.map_values(f).lemma_filter_push(f(c), keep);
        if !is_separator(c) {
            assert(front.filter(keep).push(c).map_values(f) =~= front.filter(keep).map_values(
                f,
            ).push(f(c)));
        }
    }
}

/// Such a change does not alter what a text means.
pub proof fn lemma_parse_mapped(text: Seq<char>, f: spec_fn(char) -> char, n: nat)
    requires
        keeps_digits(f),
    ensures
        parsed_octets(text.map_values(f), n) == parsed_octets(text, n),
{
    lemma_strip_mapped(text, f);
    let digits = strip_separators(text);
    let mapped = digits.map_values(f);
    if all_hex_digits(digits) {
        assert(all_hex_digits(mapped));
        assert(decode_pairs(mapped) =~= decode_pairs(digits));
    } else {
        let i = choose|i: int| 0 <= i < digits.len() && !is_hex_digit(digits[i]);
        assert(!is_hex_digit(mapped[i]));
    }
}

/// The text with its upper-case ASCII letters in lower case.
pub open spec fn lower_case(text: Seq<char>) -> Seq<char> {
    text.map_values(|c: char| ascii_lower(c))
}

/// The text with its lower-case ASCII letters in upper case.
pub open spec fn upper_case(text: Seq<char>) -> Seq<char> {
    text.map_values(|c: char| ascii_upper(c))
}

/// Case does not matter: a text, the same text in lower case and the same
/// text in upper case all mean the same.
pub proof fn lemma_case_does_not_matter(text: Seq<char>, n: nat)
    ensures
        parsed_octets(lower_case(text), n) == parsed_octets(text, n),
        parsed_octets(upper_case(text), n) == parsed_octets(text, n),
        parsed_octets(lower_case(text), n) == parsed_octets(upper_case(text), n),
{
    let lower = |c: char| ascii_lower(c);
    let upper = |c: char| ascii_upper(c);
    lemma_parse_mapped(text, lower, n);
    lemma_parse_mapped(text, upper, n);
}

/// An EUI-48 written in any of the three notations and read back is the
/// same address.
pub proof fn lemma_eui48_round_trip(eui: EUI48, text: &str)
    requires
        text@ == canonical_text(eui@) || text@ == colon_text(eui@) || text@ == dot_text(eui@),
    ensures
        EUI48::try_from_spec(text) == Ok::<EUI48, Error>(eui),
{
    eui.lemma_len();
    lemma_round_trip_canonical(eui@);
    lemma_round_trip_colon(eui@);
    lemma_round_trip_dot(eui@);
    EUI48::lemma_of_octets(eui@);
    eui.lemma_same_bytes(EUI48::of_octets(eui@));
}

/// An EUI-64 written in any of the three notations and read back is the
/// same address.
pub proof fn lemma_eui64_round_trip(eui: EUI64, text: &str)
    requires
        text@ == canonical_text(eui@) || text@ == colon_text(eui@) || text@ == dot_text(eui@),
    ensures
        EUI64::try_from_spec(text) == Ok::<EUI64, Error>(eui),
{
    eui.lemma_len();
    lemma_round_trip_canonical(eui@);
    lemma_round_trip_colon(eui@);
    lemma_round_trip_dot(eui@);
    EUI64::lemma_of_octets(eui@);
    eui.lemma_same_bytes(EUI64::of_octets(eui@));
}

/// Text that is an EUI-48 is refused as an EUI-64 for its length, and text
/// that is an EUI-64 is refused as an EUI-48.
pub proof fn lemma_sizes_are_kept_apart(text: &str)
    ensures
        EUI48::try_from_spec(text) is Ok ==> EUI64::try_from_spec(text) == Err::<EUI64, Error>(
            Error::InvalidStringLength,
        ),
        EUI64::try_from_spec(text) is Ok ==> EUI48::try_from_spec(text) == Err::<EUI48, Error>(
            Error::InvalidStringLength,
        ),
{
}

} // verus!
