//! IEEE EUI-48 and EUI-64 hardware addresses, such as MAC addresses.
//!
//! An address is six or eight bytes. It can be written in three notations,
//! all in upper-case hexadecimal with two digits for each byte:
//!
//! - canonical, `0A-1B-2C-3D-4E-5F`;
//! - colon, `0A:1B:2C:3D:4E:5F`;
//! - dot, `0A1B.2C3D.4E5F`.
//!
//! Reading is permissive: `-`, `:` and `.` are dropped wherever they stand,
//! and digits of either case are taken. What is left must be exactly two
//! digits for each byte of the address, or the text is refused with an
//! [`Error`] that says why.
//!
//! The modules: [`address`] holds the two types and the trait they share,
//! [`notation`] says what each notation is, [`parse`] says what a text
//! means and reads it, [`digits`] defines the digits and separators,
//! [`encoding`] relates a text to the bytes that encode it, [`error`] holds
//! the error type, and [`laws`] proves what holds between writing and
//! reading.

pub mod address;
pub mod digits;
pub mod encoding;
pub mod error;
pub mod laws;
pub mod notation;
pub mod parse;

pub use address::{EUI, EUI48, EUI64};
pub use error::Error;
