//! Fresh opaque identifiers, through the uuid crate.

use vstd::prelude::*;

verus! {

/// Relies on uuid's `Uuid::new_v4` and its `Display` form: a version-4
/// UUID rendered in the hyphenated format is 36 characters. The value is
/// random, so nothing more is assumed of it.
#[verifier::external_body]
pub fn fresh_id() -> (r: String)
    ensures
        r@.len() == 36,
{
    uuid::Uuid::new_v4().to_string()
}

} // verus!
