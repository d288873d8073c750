//! The shapes of stored values that cross the desktop-app boundary as JSON:
//! ids as lowercase hexadecimal text, payloads decoded from msgpack.
use vstd::prelude::*;
use vstd::std_specs::convert::FromSpecImpl;

use crate::hex::hex_chars;
use crate::json::{json_is_null, json_null};
use crate::msgpack::{msgpack_json_ok, msgpack_json_value};
use crate::types::{opt_string_view, BranchInfo, EventId, StoredEvent, StreamInfo};

verus! {

/// The hexadecimal text of an optional id.
pub open spec fn opt_hex(id: Option<EventId>) -> Option<Seq<char>> {
    match id {
        Some(i) => Some(hex_chars(i.0@)),
        None => None,
    }
}

/// The hexadecimal text of an optional id.
pub fn opt_to_hex(id: &Option<EventId>) -> (r: Option<String>)
    ensures
        opt_string_view(r) == opt_hex(*id),
{
    match id {
        Some(i) => Some(i.to_hex()),
        None => None,
    }
}

/// A stored event as JSON carries it.
pub struct SerializedEvent {
    pub id: String,
    pub stream_id: String,
    pub branch: String,
    pub version: u64,
    pub timestamp_us: i64,
    pub causation_id: Option<String>,
    pub correlation_id: Option<String>,
    pub event_type: String,
    pub type_version: u32,
    /// Payload decoded from msgpack to JSON.
    pub payload: serde_json::Value,
    pub external_id: Option<String>,
    pub indexed_tags: Option<serde_json::Value>,
}

impl SerializedEvent {
    /// The JSON shape of a stored event: ids in hexadecimal, the payload
    /// decoded (JSON `null` when it does not decode).
    pub fn from_stored(e: &StoredEvent) -> (s: SerializedEvent)
        ensures
            s.id@ == hex_chars(e.id.0@),
            s.stream_id@ == e.stream_id@,
            s.branch@ == e.branch@,
            s.version == e.version,
            s.timestamp_us == e.timestamp_us,
            opt_string_view(s.causation_id) == opt_hex(e.causation_id),
            opt_string_view(s.correlation_id) == opt_hex(e.correlation_id),
            s.event_type@ == e.event_type@,
            s.type_version == e.type_version,
            msgpack_json_ok(e.payload@) ==> s.payload == msgpack_json_value(e.payload@),
            !msgpack_json_ok(e.payload@) ==> json_is_null(s.payload),
            opt_string_view(s.external_id) == opt_string_view(e.external_id),
            s.indexed_tags == e.indexed_tags,
    {
        let payload = match e.deserialize_payload_json() {
            Ok(v) => v,
            Err(_) => json_null(),
        };
        let copy = e.clone();
        SerializedEvent {
            id: e.id.to_hex(),
            stream_id: copy.stream_id,
            branch: copy.branch,
            version: e.version,
            timestamp_us: e.timestamp_us,
            causation_id: opt_to_hex(&e.causation_id),
            correlation_id: opt_to_hex(&e.correlation_id),
            event_type: copy.event_type,
            type_version: e.type_version,
            payload,
            external_id: copy.external_id,
            indexed_tags: copy.indexed_tags,
        }
    }
}

/// A declared stream as JSON carries it.
pub struct SerializedStreamInfo {
    pub id: String,
    pub declared_by: String,
    pub declared_at: i64,
    pub description: Option<String>,
}

impl From<StreamInfo> for SerializedStreamInfo {
    fn from(s: StreamInfo) -> (r: SerializedStreamInfo)
        ensures
            r.id == s.id,
            r.declared_by == s.declared_by,
            r.declared_at == s.declared_at,
            r.description == s.description,
    {
        SerializedStreamInfo {
            id: s.id,
            declared_by: s.declared_by,
            declared_at: s.declared_at,
            description: s.description,
        }
    }
}

impl FromSpecImpl<StreamInfo> for SerializedStreamInfo {
    open spec fn obeys_from_spec() -> bool {
        true
    }

    open spec fn from_spec(s: StreamInfo) -> SerializedStreamInfo {
        SerializedStreamInfo {
            id: s.id,
            declared_by: s.declared_by,
            declared_at: s.declared_at,
            description: s.description,
        }
    }
}

/// A branch record as JSON carries it (without the alternatives).
pub struct SerializedBranchInfo {
    pub id: String,
    pub stream_id: String,
    pub parent_id: String,
    pub parent_version: u64,
    pub description: Option<String>,
    pub created_at: i64,
    pub lifecycle: String,
    pub closed_at: Option<i64>,
    pub closed_reason: Option<String>,
}

impl From<BranchInfo> for SerializedBranchInfo {
    fn from(b: BranchInfo) -> (r: SerializedBranchInfo)
        ensures
            r.id == b.id,
            r.stream_id == b.stream_id,
            r.parent_id == b.parent_id,
            r.parent_version == b.parent_version,
            r.description == b.description,
            r.created_at == b.created_at,
            r.lifecycle == b.lifecycle,
            r.closed_at == b.closed_at,
            r.closed_reason == b.closed_reason,
    {
        SerializedBranchInfo {
            id: b.id,
            stream_id: b.stream_id,
            parent_id: b.parent_id,
            parent_version: b.parent_version,
            description: b.description,
            created_at: b.created_at,
            lifecycle: b.lifecycle,
            closed_at: b.closed_at,
            closed_reason: b.closed_reason,
        }
    }
}

impl FromSpecImpl<BranchInfo> for SerializedBranchInfo {
    open spec fn obeys_from_spec() -> bool {
        true
    }

    open spec fn from_spec(b: BranchInfo) -> SerializedBranchInfo {
        SerializedBranchInfo {
            id: b.id,
            stream_id: b.stream_id,
            parent_id: b.parent_id,
            parent_version: b.parent_version,
            description: b.description,
            created_at: b.created_at,
            lifecycle: b.lifecycle,
            closed_at: b.closed_at,
            closed_reason: b.closed_reason,
        }
    }
}

/// Serializing a branch record keeps each of its fields (all but the
/// alternatives, which the JSON shape leaves out), in its own place.
pub proof fn lemma_branch_info_serialized(b: BranchInfo)
    ensures
        ({
            let r = <SerializedBranchInfo as vstd::std_specs::convert::FromSpec<BranchInfo>>::from_spec(b);
            &&& r.id == b.id
            &&& r.stream_id == b.stream_id
            &&& r.parent_id == b.parent_id
            &&& r.parent_version == b.parent_version
            &&& r.description == b.description
            &&& r.created_at == b.created_at
            &&& r.lifecycle == b.lifecycle
            &&& r.closed_at == b.closed_at
            &&& r.closed_reason == b.closed_reason
        }),
{
}

/// Serializing a stream record keeps each of its fields in its own place.
pub proof fn lemma_stream_info_serialized(s: StreamInfo)
    ensures
        ({
            let r = <SerializedStreamInfo as vstd::std_specs::convert::FromSpec<StreamInfo>>::from_spec(s);
            &&& r.id == s.id
            &&& r.declared_by == s.declared_by
            &&& r.declared_at == s.declared_at
            &&& r.description == s.description
        }),
{
}

} // verus!
