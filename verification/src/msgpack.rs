use vstd::prelude::*;

verus! {

#[verifier::external_type_specification]
#[verifier::external_body]
pub struct ExMsgpackDecodeError(rmp_serde::decode::Error);

#[verifier::external_type_specification]
#[verifier::external_body]
pub struct ExMsgpackEncodeError(rmp_serde::encode::Error);

} // verus!

verus! {

/// Whether `rmp_serde::from_slice::<serde_json::Value>` accepts these bytes.
pub uninterp spec fn msgpack_json_ok(bytes: Seq<u8>) -> bool;

/// The JSON value that `rmp_serde::from_slice::<serde_json::Value>` reads from these bytes.
pub uninterp spec fn msgpack_json_value(bytes: Seq<u8>) -> serde_json::Value;

/// `rmp_serde::from_slice` into a JSON value: succeeds exactly on the byte
/// strings it accepts, and what it reads depends on the bytes alone.
#[verifier::external_body]
pub(crate) fn msgpack_to_json(bytes: &[u8]) -> (r: Result<serde_json::Value, rmp_serde::decode::Error>)
    ensures
        r is Ok <==> msgpack_json_ok(bytes@),
        r matches Ok(v) ==> v == msgpack_json_value(bytes@),
{
    rmp_serde::from_slice(bytes)
}

/// `rmp_serde::from_slice` into any deserializable type. Nothing is claimed
/// of the outcome: it depends on the target type's `Deserialize` impl.
#[verifier::external_body]
pub(crate) fn msgpack_to<T: serde::de::DeserializeOwned>(bytes: &[u8]) -> (r: Result<T, rmp_serde::decode::Error>) {
    rmp_serde::from_slice(bytes)
}

} // verus!

verus! {

/// Whether `rmp_serde::to_vec` encodes this JSON value.
pub uninterp spec fn msgpack_encode_ok(value: serde_json::Value) -> bool;

/// The bytes that `rmp_serde::to_vec` writes for this JSON value.
pub uninterp spec fn msgpack_encoding(value: serde_json::Value) -> Seq<u8>;

/// `rmp_serde::to_vec` of a JSON value: whether it succeeds, and the bytes it
/// writes, depend on the value alone. The encoding itself is not stated.
#[verifier::external_body]
pub(crate) fn msgpack_from_json(v: &serde_json::Value) -> (r: Result<Vec<u8>, rmp_serde::encode::Error>)
    ensures
        r is Ok <==> msgpack_encode_ok(*v),
        r matches Ok(b) ==> b@ == msgpack_encoding(*v),
{
    rmp_serde::to_vec(v)
}

} // verus!
