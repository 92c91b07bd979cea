//! Fresh record identifiers.

use vstd::prelude::*;

verus! {

/// A new time-ordered identifier, from `uuid::Uuid::now_v7`, in its
/// hyphenated text form.
///
/// Trusted: nothing is claimed about the text that comes back; callers check
/// it against the records they hold.
#[verifier::external_body]
pub(crate) fn time_ordered_id() -> (id: String) {
    uuid::Uuid::now_v7().to_string()
}

/// A new random identifier, from `uuid::Uuid::new_v4`, in its hyphenated
/// text form.
///
/// Trusted: nothing is claimed about the text that comes back; callers check
/// it against the records they hold.
#[verifier::external_body]
pub(crate) fn random_id() -> (id: String) {
    uuid::Uuid::new_v4().to_string()
}

} // verus!
