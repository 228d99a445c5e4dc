//! The two address types and what they have in common.

use vstd::prelude::*;
use vstd::std_specs::cmp::PartialEqSpecImpl;
use vstd::std_specs::convert::TryFromSpecImpl;
use crate::error::Error;
use crate::notation::{canonical_text, colon_text, dot_text, format_grouped};
use crate::parse::{parse_octets, parsed_octets};

verus! {

/// A 48-bit extended unique identifier: six bytes, such as a MAC address.
#[derive(Debug)]
pub struct EUI48([u8; 6]);

/// A 64-bit extended unique identifier: eight bytes.
#[derive(Debug)]
pub struct EUI64([u8; 8]);

/// What every address can do: hand out its bytes and write them in each of
/// the three notations. The view of an address is the sequence of its bytes.
pub trait EUI: View<V = Seq<u8>> {
    /// The bytes of the address, in order.
    fn to_bytes(&self) -> (bytes: &[u8])
        ensures
            bytes@ == self@,
    ;

    /// The address in canonical form, `AA-BB-CC-DD-EE-FF`.
    fn to_canonical_fmt(&self) -> (text: String)
        ensures
            text@ == canonical_text(self@),
    {
        proof {
            reveal_strlit("-");
        }
        format_grouped(self.to_bytes(), 1, "-")
    }

    /// The address in colon form, `AA:BB:CC:DD:EE:FF`.
    fn to_colon_fmt(&self) -> (text: String)
        ensures
            text@ == colon_text(self@),
    {
        proof {
            reveal_strlit(":");
        }
        format_grouped(self.to_bytes(), 1, ":")
    }

    /// The address in dot form, `AABB.CCDD.EEFF`. The bytes must pair up.
    fn to_dot_fmt(&self) -> (text: String)
        requires
            self@.len() % 2 == 0,
        ensures
            text@ == dot_text(self@),
    {
        proof {
            reveal_strlit(".");
        }
        format_grouped(self.to_bytes(), 2, ".")
    }
}

/// Whether two runs of bytes are the same.
fn same_bytes(a: &[u8], b: &[u8]) -> (same: bool)
    ensures
        same == (a@ == b@),
{
    if a.len() != b.len() {
        return false;
    }
    let mut i: usize = 0;
    while i < a.len()
        invariant
            a.len() == b.len(),
            i <= a.len(),
            forall|j: int| 0 <= j < i ==> a@[j] == b@[j],
        decreases a.len() - i,
    {
        if a[i] != b[i] {
            return false;
        }
        i += 1;
    }
    proof {
        assert(a@ =~= b@);
    }
    true
}

impl View for EUI48 {
    type V = Seq<u8>;

    closed spec fn view(&self) -> Seq<u8> {
        self.0@
    }
}

impl EUI48 {
    /// The address whose bytes are the first six of `octets`.
    pub closed spec fn of_octets(octets: Seq<u8>) -> EUI48 {
        EUI48([octets[0], octets[1], octets[2], octets[3], octets[4], octets[5]])
    }

    /// An address has six bytes.
    pub broadcast proof fn lemma_len(self)
        ensures
            #[trigger] self@.len() == 6,
    {
    }

    /// Addresses with the same bytes are the same address.
    pub proof fn lemma_same_bytes(self, other: EUI48)
        requires
            self@ == other@,
        ensures
            self == other,
    {
        assert(self.0 =~= other.0);
    }

    /// Six bytes make the address that has them as its bytes.
    pub broadcast proof fn lemma_of_octets(octets: Seq<u8>)
        requires
            octets.len() == 6,
        ensures
            #[trigger] Self::of_octets(octets)@ == octets,
    {
    }

    /// The address made of these six bytes.
    pub fn new(bytes: [u8; 6]) -> (eui: EUI48)
        ensures
            eui@ == bytes@,
    {
        EUI48(bytes)
    }
}

impl EUI for EUI48 {
    fn to_bytes(&self) -> (bytes: &[u8]) {
        &self.0
    }
}

impl PartialEq for EUI48 {
    fn eq(&self, other: &EUI48) -> (same: bool) {
        same_bytes(&self.0, &other.0)
    }
}

impl PartialEqSpecImpl for EUI48 {
    open spec fn obeys_eq_spec() -> bool {
        true
    }

    open spec fn eq_spec(&self, other: &EUI48) -> bool {
        self@ == other@
    }
}

impl<'a> TryFrom<&'a str> for EUI48 {
    type Error = Error;

    /// Reads an address from any of the three notations.
    fn try_from(text: &'a str) -> (r: Result<EUI48, Error>)
        ensures
            match r {
                Ok(eui) => parsed_octets(text@, 6) == Ok::<Seq<u8>, Error>(eui@),
                Err(e) => parsed_octets(text@, 6) == Err::<Seq<u8>, Error>(e),
            },
    {
        match parse_octets(text, 6) {
            Ok(octets) => {
                let eui = EUI48(
                    [octets[0], octets[1], octets[2], octets[3], octets[4], octets[5]],
                );
                proof {
                    assert(eui@ =~= octets@);
                    eui.lemma_same_bytes(Self::of_octets(octets@));
                }
                Ok(eui)
            },
            Err(e) => Err(e),
        }
    }
}

impl<'a> TryFromSpecImpl<&'a str> for EUI48 {
    open spec fn obeys_try_from_spec() -> bool {
        true
    }

    open spec fn try_from_spec(text: &'a str) -> Result<EUI48, Error> {
        match parsed_octets(text@, 6) {
            Ok(octets) => Ok(EUI48::of_octets(octets)),
            Err(e) => Err(e),
        }
    }
}

impl View for EUI64 {
    type V = Seq<u8>;

    closed spec fn view(&self) -> Seq<u8> {
        self.0@
    }
}

impl EUI64 {
    /// The address whose bytes are the first eight of `octets`.
    pub closed spec fn of_octets(octets: Seq<u8>) -> EUI64 {
        EUI64(
            [
                octets[0],
                octets[1],
                octets[2],
                octets[3],
                octets[4],
                octets[5],
                octets[6],
                octets[7],
            ],
        )
    }

    /// An address has eight bytes.
    pub broadcast proof fn lemma_len(self)
        ensures
            #[trigger] self@.len() == 8,
    {
    }

    /// Addresses with the same bytes are the same address.
    pub proof fn lemma_same_bytes(self, other: EUI64)
        requires
            self@ == other@,
        ensures
            self == other,
    {
        assert(self.0 =~= other.0);
    }

    /// Eight bytes make the address that has them as its bytes.
    pub broadcast proof fn lemma_of_octets(octets: Seq<u8>)
        requires
            octets.len() == 8,
        ensures
            #[trigger] Self::of_octets(octets)@ == octets,
    {
    }

    /// The address made of these eight bytes.
    pub fn new(bytes: [u8; 8]) -> (eui: EUI64)
        ensures
            eui@ == bytes@,
    {
        EUI64(bytes)
    }
}

impl EUI for EUI64 {
    fn to_bytes(&self) -> (bytes: &[u8]) {
        &self.0
    }
}

impl PartialEq for EUI64 {
    fn eq(&self, other: &EUI64) -> (same: bool) {
        same_bytes(&self.0, &other.0)
    }
}

impl PartialEqSpecImpl for EUI64 {
    open spec fn obeys_eq_spec() -> bool {
        true
    }

    open spec fn eq_spec(&self, other: &EUI64) -> bool {
        self@ == other@
    }
}

impl<'a> TryFrom<&'a str> for EUI64 {
    type Error = Error;

    /// Reads an address from any of the three notations.
    fn try_from(text: &'a str) -> (r: Result<EUI64, Error>)
        ensures
            match r {
                Ok(eui) => parsed_octets(text@, 8) == Ok::<Seq<u8>, Error>(eui@),
                Err(e) => parsed_octets(text@, 8) == Err::<Seq<u8>, Error>(e),
            },
    {
        match parse_octets(text, 8) {
            Ok(octets) => {
                let eui = EUI64(
                    [
                        octets[0],
                        octets[1],
                        octets[2],
                        octets[3],
                        octets[4],
                        octets[5],
                        octets[6],
                        octets[7],
                    ],
                );
                proof {
                    assert(eui@ =~= octets@);
                    eui.lemma_same_bytes(Self::of_octets(octets@));
                }
                Ok(eui)
            },
            Err(e) => Err(e),
        }
    }
}

impl<'a> TryFromSpecImpl<&'a str> for EUI64 {
    open spec fn obeys_try_from_spec() -> bool {
        true
    }

    open spec fn try_from_spec(text: &'a str) -> Result<EUI64, Error> {
        match parsed_octets(text@, 8) {
            Ok(octets) => Ok(EUI64::of_octets(octets)),
            Err(e) => Err(e),
        }
    }
}

} // verus!
