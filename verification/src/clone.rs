//! Deep clone helpers over [`JsonValue`].
//!
//! A [`JsonValue`] tree cannot hold cycles, so a deep clone is enough. Both
//! helpers exist to keep call sites readable.

use vstd::prelude::*;

use crate::value::JsonValue;

verus! {

/// Deep clone a value.
pub fn clone(value: &JsonValue) -> (r: JsonValue)
    ensures
        r@ == value@,
{
    value.clone()
}

/// Deep clone a value with cycle safety.
///
/// A [`JsonValue`] cannot contain cycles, so this is a plain deep clone.
pub fn circular_clone(value: &JsonValue) -> (r: JsonValue)
    ensures
        r@ == value@,
{
    value.clone()
}

} // verus!
