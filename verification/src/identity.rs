//! Identities and creation times of new records.

use vstd::prelude::*;

verus! {

/// The length of a record identity: 32 hexadecimal digits in five groups
/// with four hyphens between them.
pub const ID_LENGTH: usize = 36;

/// `uuid::Uuid::new_v4`, formatted by the type's `Display`: a random version 4
/// identifier in its hyphenated form, which always has 36 characters. Which
/// identifier comes back is left open; two calls need not agree. The call
/// stops the program where the system has no randomness to give.
#[verifier::external_body]
pub(crate) fn fresh_id() -> (id: String)
    ensures
        id@.len() == ID_LENGTH,
{
    uuid::Uuid::new_v4().to_string()
}

/// `chrono::Utc::now`, formatted by `DateTime::to_rfc3339`: the current time
/// in UTC as an RFC 3339 string. Nothing is claimed of the result. The call
/// stops the program where the system clock stands before 1970.
#[verifier::external_body]
pub(crate) fn timestamp_now() -> (timestamp: String) {
    chrono::Utc::now().to_rfc3339()
}

} // verus!
