//! `serde_json::Value`, carried through the library untouched.

use serde_json::Value;
use vstd::prelude::*;

verus! {

/// `serde_json::Value`, declared so that records can carry store-specific
/// JSON through the library. The library never looks inside it.
#[verifier::external_type_specification]
#[verifier::external_body]
pub struct ExJsonValue(Value);

/// `<serde_json::Value as Clone>::clone`: serde_json derives `Clone` for
/// `Value`, so the copy is the same value.
pub assume_specification[ <Value as Clone>::clone ](v: &Value) -> (copy: Value)
    ensures
        copy == *v,
;

/// `serde_json::Value::Null`: the JSON null value.
#[verifier::external_body]
pub(crate) fn json_null() -> Value {
    Value::Null
}

} // verus!
