//! Values that come from outside the library: fresh identifiers and the
//! current time. Nothing is known of either but that it is a string.

use vstd::prelude::*;

verus! {

/// `uuid::Uuid::new_v4`, written out with the `Display` of `Uuid`: a random
/// version-4 UUID in hyphenated form. Nothing is promised of the text; in
/// particular two calls may, however improbably, return the same one.
/// `new_v4` panics where the operating system cannot supply random bytes.
#[verifier::external_body]
pub(crate) fn fresh_uuid() -> (s: String) {
    uuid::Uuid::new_v4().to_string()
}

/// `chrono::Utc::now` followed by `DateTime::to_rfc3339`: the current time
/// in UTC as an RFC 3339 text. Nothing is promised of the text. `Utc::now`
/// panics on a machine whose clock stands before the Unix epoch.
#[verifier::external_body]
pub(crate) fn now_rfc3339() -> (s: String) {
    chrono::Utc::now().to_rfc3339()
}

} // verus!
