use vstd::prelude::*;

verus! {

/// What `uuid::Uuid::parse_str` makes of a text, as the 128-bit value of the
/// identifier, or `None` where it rejects the text.
pub uninterp spec fn uuid_of(s: Seq<char>) -> Option<u128>;

/// Relies on uuid::Uuid::parse_str (with Uuid::as_u128): the parse depends on the
/// characters alone.
#[verifier::external_body]
pub(crate) fn parse_uuid(s: &str) -> (r: Option<u128>)
    ensures
        r == uuid_of(s@),
{
    match uuid::Uuid::parse_str(s) {
        Ok(u) => Some(u.as_u128()),
        Err(_) => None,
    }
}

/// Relies on uuid::Uuid::new_v4 (with Uuid::as_u128): a random identifier, of
/// which nothing is promised.
#[verifier::external_body]
pub(crate) fn new_id() -> (r: u128) {
    uuid::Uuid::new_v4().as_u128()
}

} // verus!
