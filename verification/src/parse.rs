//! From text to bytes: separators are dropped wherever they stand, and what
//! is left must be hexadecimal digits, two for each byte.

use vstd::prelude::*;
use crate::digits::{all_hex_digits, hex_digit_value, is_hex_digit, is_separator};
use crate::encoding::{bytes_as_chars, lemma_strip_encoded, strip_separator_bytes};
use crate::error::Error;

verus! {

/// The text without its separators.
pub open spec fn strip_separators(text: Seq<char>) -> Seq<char> {
    text.filter(|c: char| !is_separator(c))
}

/// The bytes that the digits spell, two digits for each, the high half first.
pub open spec fn decode_pairs(digits: Seq<char>) -> Seq<u8>
    recommends
        all_hex_digits(digits),
{
    Seq::new(
        digits.len() / 2,
        |i: int| (16 * hex_digit_value(digits[2 * i]) + hex_digit_value(digits[2 * i + 1])) as u8,
    )
}

/// What `text` means as an address of `n` bytes.
///
/// A character that is neither separator nor digit is reported first,
/// wherever it stands; then digits that do not pair up; then a number of
/// bytes other than `n`.
pub open spec fn parsed_octets(text: Seq<char>, n: nat) -> Result<Seq<u8>, Error> {
    let digits = strip_separators(text);
    if !all_hex_digits(digits) {
        Err(Error::InvalidHexCharacter)
    } else if digits.len() % 2 != 0 {
        Err(Error::OddLength)
    } else if digits.len() / 2 != n {
        Err(Error::InvalidStringLength)
    } else {
        Ok(decode_pairs(digits))
    }
}

/// Decodes with `hex::decode`, which reads each byte of `data` as one
/// character. As its source has it: an odd number of bytes is refused before
/// any byte is looked at; otherwise the bytes are read from the left, two at
/// a time, and the first that is no hexadecimal digit is reported with its
/// place; otherwise each pair gives one byte, sixteen times the value of its
/// first digit plus the value of its second.
#[verifier::external_body]
fn decode_hex(data: &[u8]) -> (r: Result<Vec<u8>, hex::FromHexError>)
    ensures
        match r {
            Ok(octets) => {
                &&& data@.len() % 2 == 0
                &&& all_hex_digits(bytes_as_chars(data@))
                &&& octets@ == decode_pairs(bytes_as_chars(data@))
            },
            Err(hex::FromHexError::OddLength) => data@.len() % 2 != 0,
            Err(hex::FromHexError::InvalidHexCharacter { c, index }) => {
                &&& data@.len() % 2 == 0
                &&& index < data@.len()
                &&& c == data@[index as int] as char
                &&& !is_hex_digit(c)
                &&& all_hex_digits(bytes_as_chars(data@.take(index as int)))
            },
            Err(hex::FromHexError::InvalidStringLength) => false,
        },
{
    hex::decode(data)
}

/// Copies `raw` without the bytes that encode a separator.
fn without_separators(raw: &[u8]) -> (digits: Vec<u8>)
    ensures
        digits@ == strip_separator_bytes(raw@),
{
    let ghost keep = |b: u8| !is_separator(b as char);
    let mut digits: Vec<u8> = Vec::new();
    let mut i: usize = 0;
    proof {
        raw@.take(0).lemma_filter_len(keep);
    }
    while i < raw.len()
        invariant
            i <= raw.len(),
            keep == |b: u8| !is_separator(b as char),
            digits@ == raw@.take(i as int).filter(keep),
        decreases raw.len() - i,
    {
        let b: u8 = raw[i];
        proof {
            raw@.take(i as int).lemma_filter_push(b, keep);
            assert(raw@.take(i as int).push(b) =~= raw@.take(i + 1));
        }
        // The codes of `-`, `:` and `.`.
        if b != 0x2d && b != 0x3a && b != 0x2e {
            digits.push(b);
        }
        i += 1;
    }
    proof {
        assert(raw@.take(i as int) =~= raw@);
    }
    digits
}

/// Whether every byte is the code of a hexadecimal digit.
fn is_hex_text(data: &[u8]) -> (yes: bool)
    ensures
        yes == all_hex_digits(bytes_as_chars(data@)),
{
    let mut i: usize = 0;
    while i < data.len()
        invariant
            i <= data.len(),
            all_hex_digits(bytes_as_chars(data@.take(i as int))),
        decreases data.len() - i,
    {
        let b: u8 = data[i];
        // The codes of `0` to `9`, of `A` to `F` and of `a` to `f`.
        let digit = (0x30 <= b && b <= 0x39) || (0x41 <= b && b <= 0x46) || (0x61 <= b && b
            <= 0x66);
        if !digit {
            proof {
                assert(bytes_as_chars(data@)[i as int] == b as char);
            }
            return false;
        }
        proof {
            let next = bytes_as_chars(data@.take(i + 1));
            assert forall|j: int| 0 <= j < next.len() implies is_hex_digit(#[trigger] next[j]) by {
                if j < i {
                    assert(bytes_as_chars(data@.take(i as int))[j] == next[j]);
                }
            }
        }
        i += 1;
    }
    proof {
        assert(data@.take(i as int) =~= data@);
    }
    true
}

/// Reads `text` as an address of `n` bytes, in any of the notations and with
/// separators wherever they stand.
///
/// The digits are decoded by the `hex` crate. It refuses an odd number of
/// them without looking at any, while here a character that is no digit is
/// reported before everything else; so when it finds the number odd, the
/// characters are looked at once more.
pub fn parse_octets(text: &str, n: usize) -> (r: Result<Vec<u8>, Error>)
    ensures
        match r {
            Ok(octets) => parsed_octets(text@, n as nat) == Ok::<Seq<u8>, Error>(octets@),
            Err(e) => parsed_octets(text@, n as nat) == Err::<Seq<u8>, Error>(e),
        },
{
    let digits = without_separators(text.as_bytes());
    proof {
        lemma_strip_encoded(text@);
    }
    match decode_hex(digits.as_slice()) {
        Ok(octets) => {
            if octets.len() != n {
                Err(Error::InvalidStringLength)
            } else {
                Ok(octets)
            }
        },
        Err(e) => {
            proof {
                if let hex::FromHexError::InvalidHexCharacter { c, index } = e {
                    assert(bytes_as_chars(digits@)[index as int] == c);
                }
            }
            match Error::from(e) {
                Error::OddLength => {
                    if is_hex_text(digits.as_slice()) {
                        Err(Error::OddLength)
                    } else {
                        Err(Error::InvalidHexCharacter)
                    }
                },
                kind => Err(kind),
            }
        },
    }
}

} // verus!
