//! Record identifiers: opaque, sortable, time-ordered ULID tokens, held
//! as their 128-bit integer value.

use vstd::prelude::*;

verus! {

/// Identifier of a stored identity record.
#[derive(Clone, Copy, PartialEq, Eq, Structural, Debug, Hash)]
pub struct UserRecordId(pub u128);

/// Identifier of a catalog record.
#[derive(Clone, Copy, PartialEq, Eq, Structural, Debug, Hash)]
pub struct MotherTongueRecordId(pub u128);

/// Why a ULID string failed to decode.
#[derive(Clone, Copy, PartialEq, Eq, Structural, Debug)]
pub enum IdDecodeError {
    /// The string is not exactly 26 characters long.
    InvalidLength,
    /// A character is outside the Crockford base32 alphabet.
    InvalidChar,
}

/// The value a ULID string decodes to, if it is a well-formed 26-character
/// Crockford base32 encoding; the result depends on the string alone.
pub uninterp spec fn ulid_decode(s: Seq<char>) -> Option<u128>;

/// Relies on `ulid::Ulid::new`: a fresh identifier built from the current
/// time and OS randomness. Nothing can be promised of the drawn value.
#[verifier::external_body]
pub(crate) fn fresh_ulid() -> u128 {
    ulid::Ulid::new().0
}

/// Relies on `ulid::Ulid::from_string`: decoding is a function of the
/// string alone, named by `ulid_decode`; the string is rejected when its
/// length is not 26 or a character is outside the alphabet, the two error
/// variants mapped one for one.
#[verifier::external_body]
fn ulid_from_string(s: &str) -> (r: Result<u128, IdDecodeError>)
    ensures
        r matches Ok(v) ==> ulid_decode(s@) == Some(v),
        r is Err ==> ulid_decode(s@) is None,
{
    match ulid::Ulid::from_string(s) {
        Ok(u) => Ok(u.0),
        Err(ulid::DecodeError::InvalidLength) => Err(IdDecodeError::InvalidLength),
        Err(ulid::DecodeError::InvalidChar) => Err(IdDecodeError::InvalidChar),
    }
}

/// A ULID carried in its string form, as read back from storage; decoding
/// it may fail.
pub struct UlidWrapper(String);

impl View for UlidWrapper {
    type V = Seq<char>;

    closed spec fn view(&self) -> Seq<char> {
        self.0@
    }
}

impl UlidWrapper {
    /// Wraps a string that should hold a ULID encoding.
    pub fn new(s: String) -> (r: UlidWrapper)
        ensures
            r@ == s@,
    {
        UlidWrapper(s)
    }

    /// Decodes the held string to the identifier value.
    pub fn parse(&self) -> (r: Result<u128, IdDecodeError>)
        ensures
            r matches Ok(v) ==> ulid_decode(self@) == Some(v),
            r is Err ==> ulid_decode(self@) is None,
    {
        ulid_from_string(self.0.as_str())
    }
}

} // verus!
