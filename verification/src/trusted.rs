//! The crate's only unverified surface: thin wrappers around the outside
//! crates that supply randomness and identifier parsing. Each wrapper's
//! contract is what the called crate's source shows, and nothing more.

use vstd::prelude::*;

verus! {

/// The 128-bit value that `uuid` reads out of a textual UUID, or nothing
/// when the text is not one. Left uninterpreted: the accepted formats
/// (simple, hyphenated, braced, URN) take pages to state, but the result is
/// a function of the characters alone.
pub uninterp spec fn parsed_uuid(s: Seq<char>) -> Option<u128>;

/// Relies on `uuid::Uuid::new_v4` for a freshly drawn random identifier.
/// Nothing can be promised of a random value.
#[verifier::external_body]
pub fn new_agent_id() -> u128 {
    uuid::Uuid::new_v4().as_u128()
}

/// Relies on `uuid::Uuid::try_parse`: accepts a textual UUID and returns its
/// 128 bits, in big-endian byte order as `uuid::Uuid::as_u128` reads them.
#[verifier::external_body]
pub fn parse_agent_id(s: &str) -> (r: Option<u128>)
    ensures
        r == parsed_uuid(s@),
{
    match uuid::Uuid::try_parse(s) {
        Ok(u) => Some(u.as_u128()),
        Err(_) => None,
    }
}

/// Relies on `rand::random_range`: a uniformly drawn value in `lo..hi` from
/// the thread-local generator. The call panics on an empty range, so the
/// range must be non-empty; nothing else holds of a random draw.
#[verifier::external_body]
pub fn random_in_range(lo: i64, hi: i64) -> (r: i64)
    requires
        lo < hi,
    ensures
        lo <= r < hi,
{
    rand::random_range(lo..hi)
}

} // verus!
