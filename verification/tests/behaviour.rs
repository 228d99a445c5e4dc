use eui::parse::parse_octets;
use eui::{Error, EUI, EUI48, EUI64};
use std::convert::TryFrom;

const SIX: [u8; 6] = [0x0A, 0x1B, 0x2C, 0x3D, 0x4E, 0x5F];
const EIGHT: [u8; 8] = [0x00, 0xFF, 0x0A, 0x1B, 0x2C, 0x3D, 0x4E, 0x5F];

#[test]
fn to_bytes_hands_out_the_bytes_in_order() {
    assert_eq!(EUI48::new(SIX).to_bytes(), &SIX[..]);
    assert_eq!(EUI64::new(EIGHT).to_bytes(), &EIGHT[..]);
}

#[test]
fn addresses_are_equal_when_all_bytes_are() {
    assert_eq!(EUI48::new(SIX), EUI48::new(SIX));
    assert_ne!(EUI48::new(SIX), EUI48::new([0x0A, 0x1B, 0x2C, 0x3D, 0x4E, 0x5E]));
    assert_ne!(EUI48::new(SIX), EUI48::new([0x1A, 0x1B, 0x2C, 0x3D, 0x4E, 0x5F]));
    assert_eq!(EUI64::new(EIGHT), EUI64::new(EIGHT));
    assert_ne!(EUI64::new(EIGHT), EUI64::new([0x00, 0xFF, 0x0A, 0x1B, 0x2C, 0x3D, 0x4E, 0x5E]));
}

#[test]
fn digits_are_upper_case_and_padded() {
    let eui = EUI48::new([0x00, 0x01, 0x0f, 0xa0, 0xab, 0xff]);
    assert_eq!(eui.to_canonical_fmt(), "00-01-0F-A0-AB-FF");
    assert_eq!(eui.to_colon_fmt(), "00:01:0F:A0:AB:FF");
    assert_eq!(eui.to_dot_fmt(), "0001.0FA0.ABFF");
}

#[test]
fn every_digit_is_written() {
    let low = EUI64::new([0x01, 0x23, 0x45, 0x67, 0x89, 0xAB, 0xCD, 0xEF]);
    assert_eq!(low.to_canonical_fmt(), "01-23-45-67-89-AB-CD-EF");
    let high = EUI64::new([0x10, 0x32, 0x54, 0x76, 0x98, 0xBA, 0xDC, 0xFE]);
    assert_eq!(high.to_dot_fmt(), "1032.5476.98BA.DCFE");
}

#[test]
fn notations_have_the_expected_length() {
    let six = EUI48::new(SIX);
    assert_eq!(six.to_canonical_fmt().len(), 17);
    assert_eq!(six.to_colon_fmt().len(), 17);
    assert_eq!(six.to_dot_fmt().len(), 14);
    let eight = EUI64::new(EIGHT);
    assert_eq!(eight.to_canonical_fmt().len(), 23);
    assert_eq!(eight.to_colon_fmt().len(), 23);
    assert_eq!(eight.to_dot_fmt().len(), 19);
}

#[test]
fn round_trip_eui48() {
    let values: [[u8; 6]; 4] = [SIX, [0; 6], [0xFF; 6], [0x00, 0x09, 0x0A, 0x9F, 0xA0, 0xF9]];
    for bytes in values {
        let eui = EUI48::new(bytes);
        assert_eq!(EUI48::try_from(eui.to_canonical_fmt().as_str()), Ok(EUI48::new(bytes)));
        assert_eq!(EUI48::try_from(eui.to_colon_fmt().as_str()), Ok(EUI48::new(bytes)));
        assert_eq!(EUI48::try_from(eui.to_dot_fmt().as_str()), Ok(EUI48::new(bytes)));
    }
}

#[test]
fn round_trip_eui64() {
    let values: [[u8; 8]; 3] = [EIGHT, [0; 8], [0xFF; 8]];
    for bytes in values {
        let eui = EUI64::new(bytes);
        assert_eq!(EUI64::try_from(eui.to_canonical_fmt().as_str()), Ok(EUI64::new(bytes)));
        assert_eq!(EUI64::try_from(eui.to_colon_fmt().as_str()), Ok(EUI64::new(bytes)));
        assert_eq!(EUI64::try_from(eui.to_dot_fmt().as_str()), Ok(EUI64::new(bytes)));
    }
}

#[test]
fn round_trip_every_byte_value() {
    for b in 0..=255u8 {
        let bytes = [b, b.wrapping_add(1), b.wrapping_mul(3), !b, b ^ 0x5A, b.rotate_left(4)];
        let text = EUI48::new(bytes).to_canonical_fmt();
        assert_eq!(EUI48::try_from(text.as_str()).unwrap().to_bytes(), &bytes[..]);
    }
}

#[test]
fn the_three_notations_parse_alike() {
    let a = EUI48::try_from("0A-1B-2C-3D-4E-5F").unwrap();
    let b = EUI48::try_from("0A:1B:2C:3D:4E:5F").unwrap();
    let c = EUI48::try_from("0A1B.2C3D.4E5F").unwrap();
    assert_eq!(a, b);
    assert_eq!(b, c);
    assert_eq!(a.to_bytes(), &SIX[..]);
}

#[test]
fn lower_case_parses_like_upper_case() {
    assert_eq!(EUI48::try_from("0a-1b-2c-3d-4e-5f"), EUI48::try_from("0A-1B-2C-3D-4E-5F"));
    assert_eq!(EUI48::try_from("0a-1b-2c-3d-4e-5f"), Ok(EUI48::new(SIX)));
    assert_eq!(EUI48::try_from("0a-1B-2c-3D-4e-5F"), Ok(EUI48::new(SIX)));
    assert_eq!(
        EUI64::try_from("00:ff:0a:1b:2c:3d:4e:5f"),
        EUI64::try_from("00:FF:0A:1B:2C:3D:4E:5F")
    );
    assert_eq!(EUI48::try_from("0a-1b-2c-3d-4x-5f"), EUI48::try_from("0A-1B-2C-3D-4X-5F"));
}

#[test]
fn a_string_of_one_size_is_refused_as_the_other() {
    assert!(EUI48::try_from("0A-1B-2C-3D-4E-5F").is_ok());
    assert_eq!(EUI64::try_from("0A-1B-2C-3D-4E-5F"), Err(Error::InvalidStringLength));
    assert!(EUI64::try_from("00-FF-0A-1B-2C-3D-4E-5F").is_ok());
    assert_eq!(EUI48::try_from("00-FF-0A-1B-2C-3D-4E-5F"), Err(Error::InvalidStringLength));
}

#[test]
fn writing_and_reading_twice_changes_nothing() {
    let first = EUI48::try_from(EUI48::new(SIX).to_canonical_fmt().as_str()).unwrap();
    let second = EUI48::try_from(first.to_canonical_fmt().as_str()).unwrap();
    assert_eq!(first.to_bytes(), &SIX[..]);
    assert_eq!(second.to_bytes(), &SIX[..]);
    let first = EUI64::try_from(EUI64::new(EIGHT).to_dot_fmt().as_str()).unwrap();
    let second = EUI64::try_from(first.to_dot_fmt().as_str()).unwrap();
    assert_eq!(first.to_bytes(), &EIGHT[..]);
    assert_eq!(second.to_bytes(), &EIGHT[..]);
}

#[test]
fn separators_may_stand_anywhere() {
    let want = Ok(EUI48::new(SIX));
    assert_eq!(EUI48::try_from("0A1B2C3D4E5F"), want);
    assert_eq!(EUI48::try_from("-0A-1B-2C-3D-4E-5F-"), want);
    assert_eq!(EUI48::try_from("0A--1B::2C..3D-4E-5F"), want);
    assert_eq!(EUI48::try_from("0-A1B:2C.3D4E5.F"), want);
    assert_eq!(EUI48::try_from("0A-1B:2C.3D-4E:5F"), want);
    assert_eq!(EUI48::try_from(".:-0A1B2C3D4E5F-:."), want);
}

#[test]
fn other_characters_are_no_separators() {
    assert_eq!(EUI48::try_from("0A 1B 2C 3D 4E 5F"), Err(Error::InvalidHexCharacter));
    assert_eq!(EUI48::try_from("0A_1B_2C_3D_4E_5F"), Err(Error::InvalidHexCharacter));
    assert_eq!(EUI48::try_from("0x0A1B2C3D4E5F"), Err(Error::InvalidHexCharacter));
    assert_eq!(EUI48::try_from("0A-1B-2C-3D-4E-5G"), Err(Error::InvalidHexCharacter));
    assert_eq!(EUI48::try_from("0A-1B-2C-3D-4E-5g"), Err(Error::InvalidHexCharacter));
    assert_eq!(EUI48::try_from("0A-1B-2C-3D-4E-5/"), Err(Error::InvalidHexCharacter));
    assert_eq!(EUI48::try_from("0A-1B-2C-3D-4E-5@"), Err(Error::InvalidHexCharacter));
    assert_eq!(EUI48::try_from("0A-1B-2C-3D-4E-5`"), Err(Error::InvalidHexCharacter));
}

#[test]
fn characters_outside_ascii_are_no_digits() {
    assert_eq!(EUI48::try_from("0A-1B-2C-3D-4E-5\u{e9}"), Err(Error::InvalidHexCharacter));
    assert_eq!(EUI48::try_from("\u{ff10}A-1B-2C-3D-4E-5F"), Err(Error::InvalidHexCharacter));
    assert_eq!(EUI48::try_from("0A\u{2013}1B"), Err(Error::InvalidHexCharacter));
    assert_eq!(EUI48::try_from("\u{1f600}"), Err(Error::InvalidHexCharacter));
    assert_eq!(parse_octets("0\u{e9}", 1), Err(Error::InvalidHexCharacter));
}

#[test]
fn a_bad_character_is_reported_before_a_wrong_length() {
    assert_eq!(EUI48::try_from("0A-1B-zz"), Err(Error::InvalidHexCharacter));
    assert_eq!(EUI48::try_from("0A-1B-2C-3D-4E-5F-6x"), Err(Error::InvalidHexCharacter));
    assert_eq!(EUI64::try_from("xx"), Err(Error::InvalidHexCharacter));
}

#[test]
fn a_bad_character_is_reported_before_an_odd_count() {
    assert_eq!(EUI48::try_from("0A-1B-2C-3D-4x-5"), Err(Error::InvalidHexCharacter));
    assert_eq!(EUI48::try_from("0x1"), Err(Error::InvalidHexCharacter));
    assert_eq!(EUI48::try_from("0A-1B-2C-3D-4E-5F-x"), Err(Error::InvalidHexCharacter));
    assert_eq!(EUI64::try_from("g"), Err(Error::InvalidHexCharacter));
}

#[test]
fn an_odd_count_is_reported_before_a_wrong_length() {
    assert_eq!(EUI48::try_from("0"), Err(Error::OddLength));
    assert_eq!(EUI48::try_from("0A-1B-2C-3D-4E-5F-6"), Err(Error::OddLength));
    assert_eq!(EUI64::try_from("0A1"), Err(Error::OddLength));
}

#[test]
fn wrong_lengths_are_refused() {
    assert_eq!(EUI48::try_from(""), Err(Error::InvalidStringLength));
    assert_eq!(EUI48::try_from("-:."), Err(Error::InvalidStringLength));
    assert_eq!(EUI48::try_from("0A"), Err(Error::InvalidStringLength));
    assert_eq!(EUI48::try_from("0A-1B-2C-3D-4E-5F-60"), Err(Error::InvalidStringLength));
    assert_eq!(EUI64::try_from(""), Err(Error::InvalidStringLength));
    assert_eq!(EUI64::try_from("00-FF-0A-1B-2C-3D-4E-5F-60"), Err(Error::InvalidStringLength));
}

#[test]
fn each_pair_of_digits_gives_one_byte() {
    assert_eq!(parse_octets("0A", 1), Ok(vec![10]));
    assert_eq!(parse_octets("a0", 1), Ok(vec![160]));
    assert_eq!(parse_octets("fF", 1), Ok(vec![255]));
    assert_eq!(parse_octets("00", 1), Ok(vec![0]));
    assert_eq!(parse_octets("7f", 1), Ok(vec![127]));
    assert_eq!(parse_octets("0A1B", 2), Ok(vec![0x0A, 0x1B]));
    assert_eq!(parse_octets("30-31", 2), Ok(vec![0x30, 0x31]));
    assert_eq!(parse_octets("0123456789abcdefABCDEF", 11).unwrap().len(), 11);
}

#[test]
fn parse_octets_takes_any_size() {
    assert_eq!(parse_octets("", 0), Ok(vec![]));
    assert_eq!(parse_octets(":", 0), Ok(vec![]));
    assert_eq!(parse_octets("", 1), Err(Error::InvalidStringLength));
    assert_eq!(parse_octets("0A:1B:2C", 3), Ok(vec![0x0A, 0x1B, 0x2C]));
    assert_eq!(parse_octets("0A:1B:2C", 2), Err(Error::InvalidStringLength));
    assert_eq!(parse_octets("0A:1B:2", 3), Err(Error::OddLength));
    assert_eq!(parse_octets("0A:1B:2C:", 4), Err(Error::InvalidStringLength));
    assert_eq!(parse_octets("0A:1B:2?", 3), Err(Error::InvalidHexCharacter));
}

#[test]
fn decoder_errors_become_errors_of_the_library() {
    let bad = hex::FromHexError::InvalidHexCharacter { c: 'x', index: 3 };
    assert_eq!(Error::from(bad), Error::InvalidHexCharacter);
    assert_eq!(Error::from(hex::FromHexError::OddLength), Error::OddLength);
    assert_eq!(Error::from(hex::FromHexError::InvalidStringLength), Error::InvalidStringLength);
}

#[test]
fn errors_can_be_copied_and_compared() {
    let e = Error::OddLength;
    let f = e;
    assert_eq!(e, f);
    assert_ne!(Error::OddLength, Error::InvalidStringLength);
    assert_ne!(Error::InvalidHexCharacter, Error::InvalidStringLength);
    assert_eq!(format!("{:?}", Error::InvalidHexCharacter), "InvalidHexCharacter");
}
