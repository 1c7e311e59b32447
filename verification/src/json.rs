//! JSON values are carried through the library without being inspected.

use vstd::prelude::*;

verus! {

/// `serde_json::Value`, opaque to the verifier: the library stores and hands
/// back such values but never looks inside one.
#[verifier::external_type_specification]
#[verifier::external_body]
pub struct ExJsonValue(serde_json::Value);

/// `<serde_json::Value as Clone>::clone`: the derived clone rebuilds the same
/// JSON tree, so the copy is indistinguishable from the value it was made
/// from.
pub assume_specification[ <serde_json::Value as Clone>::clone ](v: &serde_json::Value) -> (r:
    serde_json::Value)
    ensures
        r == *v,
;

} // verus!
