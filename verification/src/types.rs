use vstd::prelude::*;
use vstd::string::*;

use crate::error::{FossicError, InvalidEventId};
use crate::json::{clone_json, json_is_null, json_null};
use crate::msgpack::{msgpack_json_ok, msgpack_json_value, msgpack_to, msgpack_to_json};
use crate::hex::{all_hex, decode_hex, first_non_hex, hex_chars, hex_digits, hex_nibble, nibble_of};

verus! {

/// 32-byte content-addressed event identity.
#[derive(Clone, Copy, PartialEq, Eq, Hash, Debug)]
pub struct EventId(pub [u8; 32]);

/// Whether two ids are the same 32 bytes.
pub fn ids_equal(a: &EventId, b: &EventId) -> (r: bool)
    ensures
        r == (*a == *b),
{
    let mut i: usize = 0;
    while i < 32
        invariant
            0 <= i <= 32,
            forall|k: int| 0 <= k < i ==> a.0[k] == b.0[k],
        decreases 32 - i,
    {
        if a.0[i] != b.0[i] {
            return false;
        }
        i = i + 1;
    }
    proof {
        assert(a.0 =~= b.0);
    }
    true
}

/// Whether `ids` holds `id`.
pub fn contains_id(ids: &Vec<EventId>, id: EventId) -> (r: bool)
    ensures
        r == ids@.contains(id),
{
    let mut i: usize = 0;
    while i < ids.len()
        invariant
            0 <= i <= ids.len(),
            forall|k: int| 0 <= k < i ==> ids@[k] != id,
        decreases ids.len() - i,
    {
        if ids_equal(&ids[i], &id) {
            return true;
        }
        i = i + 1;
    }
    false
}

impl EventId {
    pub fn from_bytes(b: [u8; 32]) -> (id: EventId)
        ensures
            id.0@ == b@,
    {
        EventId(b)
    }

    pub fn as_bytes(&self) -> (b: &[u8; 32])
        ensures
            b@ == self.0@,
    {
        &self.0
    }

    /// Lowercase hexadecimal form: 64 characters, two per byte, high nibble first.
    pub fn to_hex(&self) -> (s: String)
        ensures
            s@ == hex_chars(self.0@),
    {
        let digits = "0123456789abcdef";
        proof {
            reveal_strlit("0123456789abcdef");
        }
        assert(digits@ == hex_digits());
        let mut s = String::new();
        let mut i: usize = 0;
        while i < 32
            invariant
                0 <= i <= 32,
                digits@ == hex_digits(),
                digits.is_ascii(),
                self.0@.len() == 32,
                s@ == hex_chars(self.0@.take(i as int)),
            decreases 32 - i,
        {
            let b = self.0[i];
            let hi = (b / 16) as usize;
            let lo = (b % 16) as usize;
            let ghost prev = s@;
            s.append(digits.substring_ascii(hi, hi + 1));
            s.append(digits.substring_ascii(lo, lo + 1));
            proof {
                let t = self.0@.take(i + 1);
                assert(t.take(i as int) =~= self.0@.take(i as int));
                assert(s@ =~= hex_chars(t));
            }
            i = i + 1;
        }
        assert(self.0@.take(32) =~= self.0@);
        s
    }

    /// Parse 64 hexadecimal digits (either case) into an id.
    pub fn from_hex(s: &str) -> (r: Result<EventId, FossicError>)
        ensures
            ({
                let text = s.spec_bytes();
                match r {
                    Ok(id) => text.len() == 64 && all_hex(text) && id.0@ == decode_hex(text),
                    Err(FossicError::InvalidEventId(InvalidEventId::WrongLength(n))) =>
                        text.len() != 64 && n == text.len(),
                    Err(FossicError::InvalidEventId(InvalidEventId::BadChar(c))) =>
                        text.len() == 64 && exists|j: int| first_non_hex(text, j) && c == text[j] as char,
                    _ => false,
                }
            }),
    {
        let text = s.as_bytes();
        if text.len() != 64 {
            return Err(FossicError::InvalidEventId(InvalidEventId::WrongLength(text.len())));
        }
        let mut bytes = [0u8; 32];
        let mut i: usize = 0;
        while i < 32
            invariant
                0 <= i <= 32,
                text@ == s.spec_bytes(),
                text@.len() == 64,
                bytes@.len() == 32,
                forall|k: int| 0 <= k < 2 * i ==> (#[trigger] nibble_of(text@[k])) is Some,
                forall|k: int| 0 <= k < i ==> bytes@[k] == decode_hex(text@)[k],
            decreases 32 - i,
        {
            let hi = match hex_nibble(text[2 * i]) {
                Ok(v) => v,
                Err(c) => {
                    assert(first_non_hex(text@, 2 * i as int));
                    return Err(FossicError::InvalidEventId(InvalidEventId::BadChar(c)));
                },
            };
            let lo = match hex_nibble(text[2 * i + 1]) {
                Ok(v) => v,
                Err(c) => {
                    assert(first_non_hex(text@, 2 * i + 1));
                    return Err(FossicError::InvalidEventId(InvalidEventId::BadChar(c)));
                },
            };
            bytes[i] = hi * 16 + lo;
            i = i + 1;
        }
        assert(bytes@ =~= decode_hex(text@));
        Ok(EventId(bytes))
    }
}

} // verus!

verus! {

/// A copy of an optional JSON value, equal to the one copied.
pub fn clone_opt_json(v: &Option<serde_json::Value>) -> (r: Option<serde_json::Value>)
    ensures
        r == *v,
{
    match v {
        Some(j) => Some(clone_json(j)),
        None => None,
    }
}

/// A copy of an optional string, equal to the one copied.
pub fn clone_opt_string(v: &Option<String>) -> (r: Option<String>)
    ensures
        r == *v,
{
    match v {
        Some(s) => Some(s.clone()),
        None => None,
    }
}

// ── Append ───────────────────────────────────────────────────────────────────

/// Builder for a single event write.
pub struct Append {
    pub stream_id: String,
    /// Branch to append to. Defaults to `"main"`.
    pub branch: String,
    pub event_type: String,
    pub type_version: u32,
    pub payload: serde_json::Value,
    pub causation_id: Option<EventId>,
    pub correlation_id: Option<EventId>,
    /// Consumer-supplied external ID (e.g. a ULID or UUID).
    pub external_id: Option<String>,
    /// JSON object projected for cross-stream aggregation queries.
    pub indexed_tags: Option<serde_json::Value>,
    /// Microseconds since Unix epoch. Defaults to now if `None`.
    pub timestamp_us: Option<i64>,
}

/// The name of the trunk branch of every stream.
pub open spec fn main_branch() -> Seq<char> {
    seq!['m', 'a', 'i', 'n']
}

/// A fresh `"main"` string.
pub fn main_branch_string() -> (s: String)
    ensures
        s@ == main_branch(),
{
    let lit = "main";
    proof {
        reveal_strlit("main");
    }
    String::from_str(lit)
}

impl Default for Append {
    fn default() -> (a: Append)
        ensures
            a.stream_id@ == Seq::<char>::empty(),
            a.branch@ == main_branch(),
            a.event_type@ == Seq::<char>::empty(),
            a.type_version == 1,
            json_is_null(a.payload),
            a.causation_id is None,
            a.correlation_id is None,
            a.external_id is None,
            a.indexed_tags is None,
            a.timestamp_us is None,
    {
        Append {
            stream_id: String::new(),
            branch: main_branch_string(),
            event_type: String::new(),
            type_version: 1,
            payload: json_null(),
            causation_id: None,
            correlation_id: None,
            external_id: None,
            indexed_tags: None,
            timestamp_us: None,
        }
    }
}

// ── StoredEvent ───────────────────────────────────────────────────────────────

/// An event as it stands in the store.
pub struct StoredEvent {
    pub id: EventId,
    pub stream_id: String,
    pub branch: String,
    pub version: u64,
    pub timestamp_us: i64,
    pub causation_id: Option<EventId>,
    pub correlation_id: Option<EventId>,
    pub event_type: String,
    pub type_version: u32,
    /// Msgpack-encoded payload. Use `deserialize_payload_json` to decode.
    pub payload: Vec<u8>,
    pub external_id: Option<String>,
    pub indexed_tags: Option<serde_json::Value>,
}

/// The value of a stored event, with its payload as a byte sequence.
pub struct StoredEventView {
    pub id: EventId,
    pub stream_id: Seq<char>,
    pub branch: Seq<char>,
    pub version: u64,
    pub timestamp_us: i64,
    pub causation_id: Option<EventId>,
    pub correlation_id: Option<EventId>,
    pub event_type: Seq<char>,
    pub type_version: u32,
    pub payload: Seq<u8>,
    pub external_id: Option<Seq<char>>,
    pub indexed_tags: Option<serde_json::Value>,
}

/// The view of an optional string.
pub open spec fn opt_string_view(s: Option<String>) -> Option<Seq<char>> {
    match s {
        Some(v) => Some(v@),
        None => None,
    }
}

impl View for StoredEvent {
    type V = StoredEventView;

    open spec fn view(&self) -> StoredEventView {
        StoredEventView {
            id: self.id,
            stream_id: self.stream_id@,
            branch: self.branch@,
            version: self.version,
            timestamp_us: self.timestamp_us,
            causation_id: self.causation_id,
            correlation_id: self.correlation_id,
            event_type: self.event_type@,
            type_version: self.type_version,
            payload: self.payload@,
            external_id: opt_string_view(self.external_id),
            indexed_tags: self.indexed_tags,
        }
    }
}

impl Clone for StoredEvent {
    fn clone(&self) -> (e: StoredEvent)
        ensures
            e@ == self@,
    {
        StoredEvent {
            id: self.id,
            stream_id: self.stream_id.clone(),
            branch: self.branch.clone(),
            version: self.version,
            timestamp_us: self.timestamp_us,
            causation_id: self.causation_id,
            correlation_id: self.correlation_id,
            event_type: self.event_type.clone(),
            type_version: self.type_version,
            payload: self.payload.clone(),
            external_id: clone_opt_string(&self.external_id),
            indexed_tags: clone_opt_json(&self.indexed_tags),
        }
    }
}

impl StoredEvent {
    /// Decode the msgpack payload into any deserializable type.
    pub fn deserialize_payload<T: serde::de::DeserializeOwned>(&self) -> (r: Result<T, FossicError>)
        ensures
            r matches Err(e) ==> e is MsgpackDecode,
    {
        match msgpack_to::<T>(self.payload.as_slice()) {
            Ok(v) => Ok(v),
            Err(e) => Err(FossicError::MsgpackDecode(e)),
        }
    }

    /// Decode the msgpack payload as a JSON value.
    pub fn deserialize_payload_json(&self) -> (r: Result<serde_json::Value, FossicError>)
        ensures
            r is Ok <==> msgpack_json_ok(self.payload@),
            r matches Ok(v) ==> v == msgpack_json_value(self.payload@),
            r matches Err(e) ==> e is MsgpackDecode,
    {
        match msgpack_to_json(self.payload.as_slice()) {
            Ok(v) => Ok(v),
            Err(e) => Err(FossicError::MsgpackDecode(e)),
        }
    }
}

// ── ReadQuery ─────────────────────────────────────────────────────────────────

/// Parameters of a range read on one `(stream, branch)`.
pub struct ReadQuery {
    pub stream_id: String,
    pub branch: String,
    pub from_version: Option<u64>,
    pub to_version: Option<u64>,
    pub limit: Option<usize>,
    /// Only events of this type, when set.
    pub event_type_filter: Option<String>,
}

impl ReadQuery {
    /// A query for the whole `main` branch of `stream_id`.
    pub fn stream(stream_id: String) -> (q: ReadQuery)
        ensures
            q.stream_id == stream_id,
            q.branch@ == main_branch(),
            q.from_version is None,
            q.to_version is None,
            q.limit is None,
            q.event_type_filter is None,
    {
        ReadQuery {
            stream_id,
            branch: main_branch_string(),
            from_version: None,
            to_version: None,
            limit: None,
            event_type_filter: None,
        }
    }
}

// ── OpenOptions ───────────────────────────────────────────────────────────────

/// How a store is opened.
pub struct OpenOptions {
    pub encryption: EncryptionMode,
    pub checkpoint_mode: CheckpointMode,
    pub on_first_open: FirstOpenPolicy,
    /// Default result-count ceiling for bounded reads on this store.
    pub default_max_results: Option<usize>,
    /// Default byte-size ceiling for bounded reads on this store.
    pub default_max_bytes: Option<usize>,
}

impl Default for OpenOptions {
    fn default() -> (o: OpenOptions)
        ensures
            o.encryption is Plaintext,
            o.checkpoint_mode is Auto,
            o.on_first_open is CreateIfMissing,
            o.default_max_results is None,
            o.default_max_bytes is None,
    {
        OpenOptions {
            encryption: EncryptionMode::Plaintext,
            checkpoint_mode: CheckpointMode::Auto,
            on_first_open: FirstOpenPolicy::CreateIfMissing,
            default_max_results: None,
            default_max_bytes: None,
        }
    }
}

pub enum EncryptionMode {
    Plaintext,
    /// One key per stream, so that a stream can be crypto-shredded.
    PerStream,
    OsKeyring,
    EnvVar(String),
}

pub enum CheckpointMode {
    Auto,
    Manual { interval_ms: u64 },
}

pub enum FirstOpenPolicy {
    CreateIfMissing,
    RequireExisting,
}

// ── StreamInfo ────────────────────────────────────────────────────────────────

/// A declared stream.
#[derive(Debug, Clone)]
pub struct StreamInfo {
    pub id: String,
    pub declared_by: String,
    pub declared_at: i64,
    pub description: Option<String>,
}

// ── CreateBranch ──────────────────────────────────────────────────────────────

/// Request to fork a branch off a parent branch at a version.
pub struct CreateBranch {
    pub stream_id: String,
    pub branch_id: String,
    /// Parent branch ID. Use `"main"` for root branches.
    pub parent_id: String,
    /// Version on the parent branch where this branch diverges.
    pub parent_version: u64,
    pub description: Option<String>,
    /// Must be a JSON array if `Some`.
    pub alternatives: Option<serde_json::Value>,
}

// ── BranchInfo ────────────────────────────────────────────────────────────────

/// A stored branch record.
pub struct BranchInfo {
    pub id: String,
    pub stream_id: String,
    pub parent_id: String,
    pub parent_version: u64,
    pub description: Option<String>,
    pub created_at: i64,
    /// `"ephemeral"` | `"promoted"` | `"dead_end"`
    pub lifecycle: String,
    pub closed_at: Option<i64>,
    pub closed_reason: Option<String>,
    pub alternatives: Option<serde_json::Value>,
}

// ── SnapshotInfo ──────────────────────────────────────────────────────────────

/// Metadata of a stored snapshot.
#[derive(Debug, Clone)]
pub struct SnapshotInfo {
    pub stream_id: String,
    pub branch: String,
    /// Highest event version included in this snapshot.
    pub version: u64,
    pub reducer_name: String,
    pub reducer_version: u32,
    pub state_schema_version: u32,
    pub created_at: i64,
}

} // verus!
