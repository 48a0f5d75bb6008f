//! The JSON values that tool definitions carry without reading them.

use vstd::prelude::*;

verus! {

/// `serde_json::Value`, carried through unread (a tool's parameter schema).
#[verifier::external_type_specification]
#[verifier::external_body]
pub struct ExJsonValue(serde_json::Value);

/// `Clone` for `serde_json::Value`, which serde_json derives: the copy is
/// the same JSON value as the original.
pub assume_specification[ <serde_json::Value as Clone>::clone ](v: &serde_json::Value) -> (r:
    serde_json::Value)
    ensures
        r == *v,
;

} // verus!
