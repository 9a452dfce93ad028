//! Fresh identifiers.

use vstd::prelude::*;

verus! {

/// The number of characters of a random identifier.
pub const RANDOM_ID_LEN: usize = 36;

/// A random identifier: wraps `uuid::Uuid::new_v4` and the `to_string` of the
/// result. Assumed: the text is the hyphenated form, which has 36 characters.
/// Which characters, no contract can say.
#[verifier::external_body]
pub(crate) fn random_id() -> (r: String)
    ensures
        r@.len() == RANDOM_ID_LEN,
{
    uuid::Uuid::new_v4().to_string()
}

} // verus!
