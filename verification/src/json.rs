use vstd::prelude::*;

verus! {

#[verifier::external_type_specification]
#[verifier::external_body]
pub struct ExJsonValue(serde_json::Value);

/// `serde_json::Value::clone` (derived): the copy is the same JSON tree.
#[verifier::external_body]
pub(crate) fn clone_json(v: &serde_json::Value) -> (r: serde_json::Value)
    ensures
        r == *v,
{
    v.clone()
}

/// What `serde_json::Value::is_null` answers for a value: whether it is `Null`.
pub uninterp spec fn json_is_null(v: serde_json::Value) -> bool;

/// The JSON `null` value (`serde_json::Value::Null`), of which `is_null`
/// answers `true`.
#[verifier::external_body]
pub(crate) fn json_null() -> (r: serde_json::Value)
    ensures
        json_is_null(r),
{
    serde_json::Value::Null
}

} // verus!
