//! Textual task identifiers.
//!
//! Identifiers are 128-bit universally-unique values; they cross the
//! surface as strings in their canonical hyphenated form. Parsing,
//! formatting and generation are done by the `uuid` crate.

use vstd::prelude::*;

verus! {

/// What parsing a string as an identifier yields: the 128-bit value the
/// string denotes, or nothing when it is not well-formed. The result is a
/// function of the characters alone.
pub uninterp spec fn parsed_uuid(s: Seq<char>) -> Option<u128>;

/// The canonical hyphenated text of an identifier, a function of the value
/// alone.
pub uninterp spec fn uuid_text(u: u128) -> Seq<char>;

/// Relies on `uuid::Uuid::parse_str`: a pure parser of the string, and on
/// `uuid::Uuid::as_u128` for the 128 bits of the parsed value.
#[verifier::external_body]
pub fn parse_id(s: &str) -> (r: Option<u128>)
    ensures
        r == parsed_uuid(s@),
{
    match uuid::Uuid::parse_str(s) {
        Ok(u) => Some(u.as_u128()),
        Err(_) => None,
    }
}

/// Relies on `uuid::Uuid`'s `Display`: it writes the canonical hyphenated
/// form, a function of the value alone, and `uuid::Uuid::parse_str` accepts
/// that form back, yielding the same value.
#[verifier::external_body]
pub fn id_text(u: u128) -> (r: String)
    ensures
        r@ == uuid_text(u),
        parsed_uuid(r@) == Some(u),
{
    uuid::Uuid::from_u128(u).to_string()
}

/// Relies on `uuid::Uuid::new_v4`: a freshly drawn random identifier.
/// Nothing is promised of the value; it may even collide with an id already
/// in use. The call aborts the process only if the operating system's
/// randomness source fails, an environment-level failure of the same kind
/// as running out of memory.
#[verifier::external_body]
pub fn random_id() -> u128 {
    uuid::Uuid::new_v4().as_u128()
}

} // verus!
