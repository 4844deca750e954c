//! Fresh identifiers for new rows.

use vstd::prelude::*;

verus! {

/// The number of characters of an identifier in its hyphenated text form: 32
/// hexadecimal digits in five groups, with four hyphens between them.
pub const ID_LENGTH: usize = 36;

/// A new random identifier, from `uuid::Uuid::new_v4`, in its hyphenated text
/// form, which always has 36 characters. The value is random, so the contract
/// promises no more of it.
#[verifier::external_body]
pub(crate) fn new_id() -> (id: String)
    ensures
        id@.len() == ID_LENGTH,
{
    uuid::Uuid::new_v4().hyphenated().to_string()
}

} // verus!
