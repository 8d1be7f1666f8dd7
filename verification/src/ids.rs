//! Identifiers.
//!
//! Every entity is identified by an opaque 128-bit token. Inside the library
//! an identifier is a plain `u128`; at the boundary it is rendered as, and
//! parsed from, its canonical text form. Generation, parsing and rendering
//! are delegated to the `uuid` crate through the trusted items below.

use vstd::prelude::*;

verus! {

/// What `uuid::Uuid::parse_str` accepts: `Some` of the token's value where
/// the text is a well-formed identifier, `None` otherwise. The result is a
/// function of the text alone.
pub uninterp spec fn parsed_id(s: Seq<char>) -> Option<u128>;

/// The canonical text form of an identifier, as `uuid::Uuid`'s `Display`
/// renders it: a function of the value alone.
pub uninterp spec fn id_text_of(v: u128) -> Seq<char>;

/// Relies on `uuid::Uuid::new_v4` for a freshly generated random token.
/// Nothing is promised of the value: callers must check for themselves
/// whatever they need of it, collision with ids already in use included.
#[verifier::external_body]
pub(crate) fn fresh_id() -> u128 {
    uuid::Uuid::new_v4().as_u128()
}

/// Relies on `uuid::Uuid::parse_str`: deterministic in the text, `Ok` exactly
/// on well-formed identifier text.
#[verifier::external_body]
pub(crate) fn parse_id(s: &str) -> (r: Option<u128>)
    ensures
        r == parsed_id(s@),
{
    match uuid::Uuid::parse_str(s) {
        Ok(u) => Some(u.as_u128()),
        Err(_) => None,
    }
}

/// Relies on `uuid::Uuid`'s `Display` (via `to_string`): deterministic in the
/// value, the canonical hyphenated form, 36 characters long. `parse_str`
/// accepts the hyphenated form `Display` produces and returns the same
/// value, so rendering and parsing round-trip.
#[verifier::external_body]
pub(crate) fn render_id(v: u128) -> (r: String)
    ensures
        r@ == id_text_of(v),
        r@.len() == 36,
        parsed_id(r@) == Some(v),
{
    uuid::Uuid::from_u128(v).to_string()
}

} // verus!
