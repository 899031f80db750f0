//! Fresh identifiers and current timestamps, drawn from outside crates.
//! Nothing useful can be promised of their values: every caller states what
//! holds whatever came back.
use vstd::prelude::*;

verus! {

/// Relies on `uuid::Uuid::new_v4` and `uuid::fmt::Hyphenated`: a version-4
/// identifier rendered in the hyphenated form, which is 36 characters long.
#[verifier::external_body]
pub fn fresh_id() -> (r: String)
    ensures
        r@.len() == 36,
{
    uuid::Uuid::new_v4().to_string()
}

/// Relies on `chrono::Utc::now` and `chrono::DateTime::to_rfc3339`: the
/// current time as a non-empty RFC 3339 text.
#[verifier::external_body]
pub fn now_rfc3339() -> (r: String)
    ensures
        r@.len() > 0,
{
    chrono::Utc::now().to_rfc3339()
}

} // verus!
