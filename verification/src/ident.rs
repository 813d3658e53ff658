//! Fresh identifiers for notes and versions.

use vstd::prelude::*;

verus! {

/// A fresh random identifier, through `uuid::Uuid::new_v4` and its `Display`
/// form.
///
/// The identifier is random, so the contract states only what holds of every
/// outcome: the hyphenated form has 36 characters.
#[verifier::external_body]
pub(crate) fn fresh_id() -> (id: String)
    ensures
        id@.len() == 36,
{
    uuid::Uuid::new_v4().to_string()
}

} // verus!
