//! Text as the bytes that encode it. The decoder reads bytes, one character
//! for each; the address notations are defined over characters. For text
//! made of digits and separators the two views agree, and any other
//! character shows up among the bytes as something that is no digit.

use vstd::prelude::*;
use vstd::utf8::{encode_scalar, encode_utf8};
use crate::digits::{all_hex_digits, is_hex_digit, is_separator};
use crate::parse::strip_separators;

verus! {

/// Each byte read as the character with that code.
pub open spec fn bytes_as_chars(bytes: Seq<u8>) -> Seq<char> {
    Seq::new(bytes.len(), |i: int| bytes[i] as char)
}

/// The bytes without those that encode a separator.
pub open spec fn strip_separator_bytes(bytes: Seq<u8>) -> Seq<u8> {
    bytes.filter(|b: u8| !is_separator(b as char))
}

/// A sequence in two parts is all digits when both parts are.
proof fn lemma_all_hex_digits_concat(a: Seq<char>, b: Seq<char>)
    ensures
        all_hex_digits(a + b) <==> all_hex_digits(a) && all_hex_digits(b),
{
    if all_hex_digits(a + b) {
        assert forall|i: int| 0 <= i < a.len() implies is_hex_digit(#[trigger] a[i]) by {
            assert((a + b)[i] == a[i]);
        }
        assert forall|i: int| 0 <= i < b.len() implies is_hex_digit(#[trigger] b[i]) by {
            assert((a + b)[a.len() + i] == b[i]);
        }
    }
}

/// Reading bytes as characters goes through concatenation.
proof fn lemma_bytes_as_chars_concat(a: Seq<u8>, b: Seq<u8>)
    ensures
        bytes_as_chars(a + b) == bytes_as_chars(a) + bytes_as_chars(b),
{
    assert(bytes_as_chars(a + b) =~= bytes_as_chars(a) + bytes_as_chars(b));
}

/// A character below 128 is encoded as the one byte with its code.
proof fn lemma_encode_ascii(c: char)
    requires
        c as u32 <= 0x7f,
    ensures
        encode_scalar(c as u32) == seq![c as u8],
{
    let v = c as u32;
    assert(((v & 0x7f) as u8) == v as u8) by (bit_vector)
        requires
            v <= 0x7f,
    ;
}

/// A character from 128 on is encoded as bytes that are all 128 or more.
proof fn lemma_encode_non_ascii(c: char)
    requires
        c as u32 > 0x7f,
    ensures
        encode_scalar(c as u32).len() >= 2,
        forall|i: int|
            0 <= i < encode_scalar(c as u32).len() ==> #[trigger] encode_scalar(c as u32)[i]
                >= 0x80,
{
    let v = c as u32;
    assert(0xC0u8 | ((v >> 6) & 0x1F) as u8 >= 0x80) by (bit_vector);
    assert(0xE0u8 | ((v >> 12) & 0x0F) as u8 >= 0x80) by (bit_vector);
    assert(0xF0u8 | ((v >> 18) & 0x7) as u8 >= 0x80) by (bit_vector);
    assert(0x80u8 | (v & 0x3F) as u8 >= 0x80) by (bit_vector);
    assert(0x80u8 | ((v >> 6) & 0x3F) as u8 >= 0x80) by (bit_vector);
    assert(0x80u8 | ((v >> 12) & 0x3F) as u8 >= 0x80) by (bit_vector);
}

/// One character and its encoding: after the separators are dropped, either
/// both are the same digit or nothing at all, or neither is all digits.
proof fn lemma_strip_one(c: char)
    ensures
        all_hex_digits(bytes_as_chars(strip_separator_bytes(encode_scalar(c as u32))))
            <==> all_hex_digits(strip_separators(seq![c])),
        all_hex_digits(strip_separators(seq![c])) ==> bytes_as_chars(
            strip_separator_bytes(encode_scalar(c as u32)),
        ) == strip_separators(seq![c]),
{
    let keep_char = |c: char| !is_separator(c);
    let keep_byte = |b: u8| !is_separator(b as char);
    let encoded = encode_scalar(c as u32);
    let kept_bytes = strip_separator_bytes(encoded);
    let kept_chars = strip_separators(seq![c]);
    Seq::<char>::empty().lemma_filter_push(c, keep_char);
    assert(Seq::<char>::empty().filter(keep_char) =~= Seq::<char>::empty()) by {
        Seq::<char>::empty().lemma_filter_len(keep_char);
    }
    if c as u32 <= 0x7f {
        lemma_encode_ascii(c);
        Seq::<u8>::empty().lemma_filter_push(c as u8, keep_byte);
        assert(Seq::<u8>::empty().filter(keep_byte) =~= Seq::<u8>::empty()) by {
            Seq::<u8>::empty().lemma_filter_len(keep_byte);
        }
        assert(bytes_as_chars(kept_bytes) =~= kept_chars);
    } else {
        lemma_encode_non_ascii(c);
        assert(!is_hex_digit(kept_chars[0]));
        let b = encoded[0];
        assert(keep_byte(b));
        encoded.lemma_filter_contains(keep_byte, 0);
        let j = choose|j: int| 0 <= j < kept_bytes.len() && kept_bytes[j] == b;
        assert(!is_hex_digit(bytes_as_chars(kept_bytes)[j]));
    }
}

/// Dropping the separators from the encoding of a text, and from the text
/// itself, leaves digits only in the same cases, and then leaves the same
/// digits.
pub proof fn lemma_strip_encoded(text: Seq<char>)
    ensures
        all_hex_digits(bytes_as_chars(strip_separator_bytes(encode_utf8(text))))
            <==> all_hex_digits(strip_separators(text)),
        all_hex_digits(strip_separators(text)) ==> bytes_as_chars(
            strip_separator_bytes(encode_utf8(text)),
        ) == strip_separators(text),
    decreases text.len(),
{
    let keep_char = |c: char| !is_separator(c);
    let keep_byte = |b: u8| !is_separator(b as char);
    if text.len() == 0 {
        assert(strip_separators(text).len() == 0) by {
            text.lemma_filter_len(keep_char);
        }
        assert(strip_separator_bytes(encode_utf8(text)).len() == 0) by {
            encode_utf8(text).lemma_filter_len(keep_byte);
        }
        assert(bytes_as_chars(strip_separator_bytes(encode_utf8(text))) =~= strip_separators(
            text,
        ));
    } else {
        let c = text[0];
        let rest = text.drop_first();
        let head_bytes = encode_scalar(c as u32);
        let rest_bytes = encode_utf8(rest);
        lemma_strip_one(c);
        lemma_strip_encoded(rest);
        assert(text =~= seq![c] + rest);
        Seq::filter_distributes_over_add(seq![c], rest, keep_char);
        Seq::filter_distributes_over_add(head_bytes, rest_bytes, keep_byte);
        lemma_bytes_as_chars_concat(
            strip_separator_bytes(head_bytes),
            strip_separator_bytes(rest_bytes),
        );
        lemma_all_hex_digits_concat(
            bytes_as_chars(strip_separator_bytes(head_bytes)),
            bytes_as_chars(strip_separator_bytes(rest_bytes)),
        );
        lemma_all_hex_digits_concat(strip_separators(seq![c]), strip_separators(rest));
    }
}

} // verus!
