//! The ways in which turning text into an address can fail.

use vstd::prelude::*;
use vstd::std_specs::convert::FromSpecImpl;

verus! {

/// The error type of `hex::decode`, declared with the variants and fields
/// that the `hex` crate gives it, so that verified code can tell them apart.
#[verifier::external_type_specification]
pub struct ExFromHexError(hex::FromHexError);

/// Why a string is not an address.
#[derive(Debug, Clone, Copy, PartialEq, Eq, Structural)]
pub enum Error {
    /// After the separators are removed, some character is not a hexadecimal digit.
    InvalidHexCharacter,
    /// The digits are valid and pair up, but they do not make the number of
    /// bytes that the address type holds.
    InvalidStringLength,
    /// The digits are valid, but their number is odd.
    OddLength,
}

impl From<hex::FromHexError> for Error {
    /// The decoder's error without what it carries: each kind becomes the
    /// kind of the same name.
    fn from(e: hex::FromHexError) -> (r: Error) {
        match e {
            hex::FromHexError::InvalidHexCharacter { .. } => Error::InvalidHexCharacter,
            hex::FromHexError::InvalidStringLength => Error::InvalidStringLength,
            hex::FromHexError::OddLength => Error::OddLength,
        }
    }
}

impl FromSpecImpl<hex::FromHexError> for Error {
    open spec fn obeys_from_spec() -> bool {
        true
    }

    open spec fn from_spec(e: hex::FromHexError) -> Error {
        match e {
            hex::FromHexError::InvalidHexCharacter { .. } => Error::InvalidHexCharacter,
            hex::FromHexError::InvalidStringLength => Error::InvalidStringLength,
            hex::FromHexError::OddLength => Error::OddLength,
        }
    }
}

} // verus!
