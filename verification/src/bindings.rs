//! What the language bindings hand to the store, and what they hand back:
//! the arguments are checked and completed with their defaults here, and
//! stored values are put in the shape that crosses the boundary.
use vstd::prelude::*;
use vstd::string::*;
use vstd::utf8::encode_utf8;

use crate::cross_stream::WalkDirection;
use crate::error::{FossicError, InvalidArgument, InvalidEventId};
use crate::hex::{all_hex, decode_hex, hex_chars};
use crate::json::json_null;
use crate::msgpack::{msgpack_json_ok, msgpack_json_value};
use crate::store::{SubscribeQuery, SubscriptionMode};
use crate::text::text_equals;
use crate::types::{
    main_branch, main_branch_string, Append, BranchInfo, CreateBranch, EncryptionMode, EventId,
    FirstOpenPolicy, OpenOptions, ReadQuery, StoredEvent, StreamInfo,
};

verus! {

// ── Event ids ─────────────────────────────────────────────────────────────────

/// An event id from exactly 32 raw bytes.
pub fn event_id_from_slice(bytes: &[u8]) -> (r: Result<EventId, FossicError>)
    ensures
        match r {
            Ok(id) => bytes@.len() == 32 && id.0@ == bytes@,
            Err(FossicError::InvalidArgument(InvalidArgument::EventIdLength(n))) => bytes@.len()
                != 32 && n == bytes@.len(),
            _ => false,
        },
{
    if bytes.len() != 32 {
        return Err(FossicError::InvalidArgument(InvalidArgument::EventIdLength(bytes.len())));
    }
    let mut arr = [0u8; 32];
    let mut i: usize = 0;
    while i < 32
        invariant
            0 <= i <= 32,
            bytes@.len() == 32,
            arr@.len() == 32,
            forall|k: int| 0 <= k < i ==> arr@[k] == bytes@[k],
        decreases 32 - i,
    {
        arr[i] = bytes[i];
        i = i + 1;
    }
    assert(arr@ =~= bytes@);
    Ok(EventId(arr))
}

/// The 32 bytes that a textual id names, when it is 64 hexadecimal digits.
pub open spec fn parsed_id(text: Seq<char>) -> Option<Seq<u8>> {
    let b = encode_utf8(text);
    if b.len() == 64 && all_hex(b) {
        Some(decode_hex(b))
    } else {
        None
    }
}

/// An optional textual id, parsed when present.
pub open spec fn parsed_opt_id(text: Option<String>) -> Option<Option<Seq<u8>>> {
    match text {
        None => Some(None),
        Some(t) => match parsed_id(t@) {
            Some(b) => Some(Some(b)),
            None => None,
        },
    }
}

/// The bytes of an optional id.
pub open spec fn opt_id_bytes(id: Option<EventId>) -> Option<Seq<u8>> {
    match id {
        Some(i) => Some(i.0@),
        None => None,
    }
}

fn parse_opt_id(text: &Option<String>) -> (r: Result<Option<EventId>, FossicError>)
    ensures
        match parsed_opt_id(*text) {
            Some(v) => r matches Ok(id) && opt_id_bytes(id) == v,
            None => r matches Err(FossicError::InvalidEventId(_)),
        },
{
    match text {
        None => Ok(None),
        Some(t) => {
            let ts = t.as_str();
            assert(ts.spec_bytes() == encode_utf8(t@));
            match EventId::from_hex(ts) {
                Ok(id) => Ok(Some(id)),
                Err(e) => Err(e),
            }
        },
    }
}

// ── Appends ───────────────────────────────────────────────────────────────────

/// An append as a binding receives it: ids as hexadecimal text, the type
/// version optional.
pub struct AppendJs {
    pub stream_id: String,
    pub event_type: String,
    pub payload: serde_json::Value,
    pub type_version: Option<u32>,
    pub causation_id: Option<String>,
    pub correlation_id: Option<String>,
    pub external_id: Option<String>,
    pub indexed_tags: Option<serde_json::Value>,
}

/// The append that a binding's request stands for: ids parsed, the type
/// version defaulting to 1, the branch to `main`, the timestamp to now.
pub fn append_from_js(js: AppendJs) -> (r: Result<Append, FossicError>)
    ensures
        match (parsed_opt_id(js.causation_id), parsed_opt_id(js.correlation_id)) {
            (Some(c), Some(k)) => r matches Ok(a) && {
                &&& a.stream_id == js.stream_id
                &&& a.event_type == js.event_type
                &&& a.payload == js.payload
                &&& a.type_version == (match js.type_version {
                    Some(v) => v,
                    None => 1u32,
                })
                &&& opt_id_bytes(a.causation_id) == c
                &&& opt_id_bytes(a.correlation_id) == k
                &&& a.external_id == js.external_id
                &&& a.indexed_tags == js.indexed_tags
                &&& a.branch@ == main_branch()
                &&& a.timestamp_us is None
            },
            _ => r matches Err(FossicError::InvalidEventId(_)),
        },
{
    let causation_id = match parse_opt_id(&js.causation_id) {
        Ok(v) => v,
        Err(e) => {
            return Err(e);
        },
    };
    let correlation_id = match parse_opt_id(&js.correlation_id) {
        Ok(v) => v,
        Err(e) => {
            return Err(e);
        },
    };
    let type_version = match js.type_version {
        Some(v) => v,
        None => 1,
    };
    Ok(
        Append {
            stream_id: js.stream_id,
            branch: main_branch_string(),
            event_type: js.event_type,
            type_version,
            payload: js.payload,
            causation_id,
            correlation_id,
            external_id: js.external_id,
            indexed_tags: js.indexed_tags,
            timestamp_us: None,
        },
    )
}

// ── Reads ─────────────────────────────────────────────────────────────────────

/// A range read as a binding receives it.
pub struct ReadQueryJs {
    pub stream_id: String,
    pub branch: Option<String>,
    /// Inclusive lower bound.
    pub from_version: Option<u64>,
    /// Inclusive upper bound.
    pub to_version: Option<u64>,
    pub limit: Option<u32>,
    pub event_type_filter: Option<String>,
}

/// The read query a binding's request stands for; the branch defaults to `main`.
pub fn read_query_from_js(js: ReadQueryJs) -> (q: ReadQuery)
    ensures
        q.stream_id == js.stream_id,
        match js.branch {
            Some(b) => q.branch == b,
            None => q.branch@ == main_branch(),
        },
        q.from_version == js.from_version,
        q.to_version == js.to_version,
        match js.limit {
            Some(n) => q.limit == Some(n as usize),
            None => q.limit is None,
        },
        q.event_type_filter == js.event_type_filter,
{
    let mut q = ReadQuery::stream(js.stream_id);
    if let Some(b) = js.branch {
        q.branch = b;
    }
    q.from_version = js.from_version;
    q.to_version = js.to_version;
    if let Some(n) = js.limit {
        q.limit = Some(n as usize);
    }
    q.event_type_filter = js.event_type_filter;
    q
}

/// A walk direction by name: `forward`, `backward` or `both`, lowercase or capitalised.
pub fn parse_direction(direction: &str) -> (r: Result<WalkDirection, FossicError>)
    ensures
        match r {
            Ok(WalkDirection::Forward) => direction@ == "forward"@ || direction@ == "Forward"@,
            Ok(WalkDirection::Backward) => direction@ == "backward"@ || direction@ == "Backward"@,
            Ok(WalkDirection::Both) => direction@ == "both"@ || direction@ == "Both"@,
            Err(FossicError::InvalidArgument(InvalidArgument::UnknownDirection(s))) => {
                &&& s@ == direction@
                &&& direction@ != "forward"@ && direction@ != "Forward"@
                &&& direction@ != "backward"@ && direction@ != "Backward"@
                &&& direction@ != "both"@ && direction@ != "Both"@
            },
            _ => false,
        },
{
    if text_equals(direction, "forward") || text_equals(direction, "Forward") {
        Ok(WalkDirection::Forward)
    } else if text_equals(direction, "backward") || text_equals(direction, "Backward") {
        Ok(WalkDirection::Backward)
    } else if text_equals(direction, "both") || text_equals(direction, "Both") {
        Ok(WalkDirection::Both)
    } else {
        Err(FossicError::InvalidArgument(InvalidArgument::UnknownDirection(direction.to_owned())))
    }
}

/// How a causation walk samples the graph.
pub enum SamplingMode {
    /// Every reached event.
    Exhaustive,
    /// At most this many events per level.
    BreadthFirst { max_per_level: usize },
    /// About this many events in all.
    Adaptive { target_count: usize },
}

/// A sampling mode as a binding receives it.
pub struct SamplingModeJs {
    pub kind: String,
    pub max_per_level: Option<u32>,
    pub target_count: Option<u32>,
}

/// The sampling mode a binding's request stands for: `breadthFirst` and
/// `adaptive` take their count (100 by default); anything else, or nothing,
/// is exhaustive.
pub fn parse_sampling_mode(js: Option<SamplingModeJs>) -> (m: SamplingMode)
    ensures
        match js {
            None => m is Exhaustive,
            Some(s) => if s.kind@ == "breadthFirst"@ {
                m == SamplingMode::BreadthFirst {
                    max_per_level: match s.max_per_level {
                        Some(n) => n as usize,
                        None => 100usize,
                    },
                }
            } else if s.kind@ == "adaptive"@ {
                m == SamplingMode::Adaptive {
                    target_count: match s.target_count {
                        Some(n) => n as usize,
                        None => 100usize,
                    },
                }
            } else {
                m is Exhaustive
            },
        },
{
    match js {
        None => SamplingMode::Exhaustive,
        Some(s) => {
            if text_equals(s.kind.as_str(), "breadthFirst") {
                let n: u32 = match s.max_per_level {
                    Some(n) => n,
                    None => 100,
                };
                SamplingMode::BreadthFirst { max_per_level: n as usize }
            } else if text_equals(s.kind.as_str(), "adaptive") {
                let n: u32 = match s.target_count {
                    Some(n) => n,
                    None => 100,
                };
                SamplingMode::Adaptive { target_count: n as usize }
            } else {
                SamplingMode::Exhaustive
            }
        },
    }
}

// ── Opening ───────────────────────────────────────────────────────────────────

/// Open options as a binding receives them, by name.
pub struct OpenOptionsJs {
    /// `"plaintext"` (default) or `"per_stream"` (enables crypto-shredding).
    pub encryption: Option<String>,
    /// `"auto"` (default) | `"manual"` (reserved, not read).
    pub checkpoint_mode: Option<String>,
    /// `"create_if_missing"` (default) | `"fail_if_not_found"`.
    pub on_first_open: Option<String>,
    /// Default result-count ceiling for bounded reads on this store.
    pub default_max_results: Option<u32>,
    /// Default byte-size ceiling for bounded reads on this store.
    pub default_max_bytes: Option<u32>,
}

/// A read ceiling as the store holds it.
pub open spec fn ceiling(n: Option<u32>) -> Option<usize> {
    match n {
        Some(v) => Some(v as usize),
        None => None,
    }
}

/// The open options a binding's request stands for: encryption
/// `plaintext` or `per_stream`, first-open policy `create_if_missing` or
/// `fail_if_not_found`, the read ceilings copied; anything else is refused.
pub fn parse_open_options(js: Option<OpenOptionsJs>) -> (r: Result<OpenOptions, FossicError>)
    ensures
        match js {
            None => r matches Ok(o) && o.encryption is Plaintext && o.checkpoint_mode is Auto
                && o.on_first_open is CreateIfMissing && o.default_max_results is None
                && o.default_max_bytes is None,
            Some(j) => {
                let enc_ok = match j.encryption {
                    Some(e) => e@ == "plaintext"@ || e@ == "per_stream"@,
                    None => true,
                };
                let policy_ok = match j.on_first_open {
                    Some(p) => p@ == "create_if_missing"@ || p@ == "fail_if_not_found"@,
                    None => true,
                };
                if !enc_ok {
                    r matches Err(FossicError::InvalidArgument(InvalidArgument::UnknownEncryption(e)))
                        && j.encryption == Some(e)
                } else if !policy_ok {
                    r matches Err(FossicError::InvalidArgument(InvalidArgument::UnknownFirstOpenPolicy(p)))
                        && j.on_first_open == Some(p)
                } else {
                    r matches Ok(o) && (o.encryption is Plaintext || o.encryption is PerStream) && (
                    o.encryption is PerStream <==> (j.encryption matches Some(e) && e@
                        == "per_stream"@)) && o.checkpoint_mode is Auto && (o.on_first_open is RequireExisting
                        <==> (j.on_first_open matches Some(p) && p@ == "fail_if_not_found"@))
                        && o.default_max_results == ceiling(j.default_max_results)
                        && o.default_max_bytes == ceiling(j.default_max_bytes)
                }
            },
        },
{
    let mut opts = OpenOptions::default();
    proof {
        reveal_strlit("create_if_missing");
        reveal_strlit("fail_if_not_found");
        reveal_strlit("plaintext");
        reveal_strlit("per_stream");
        assert("create_if_missing"@[0] != "fail_if_not_found"@[0]);
        assert("plaintext"@[1] != "per_stream"@[1]);
    }
    if let Some(js) = js {
        if let Some(enc) = js.encryption {
            if text_equals(enc.as_str(), "plaintext") {
                opts.encryption = EncryptionMode::Plaintext;
            } else if text_equals(enc.as_str(), "per_stream") {
                opts.encryption = EncryptionMode::PerStream;
            } else {
                return Err(FossicError::InvalidArgument(InvalidArgument::UnknownEncryption(enc)));
            }
        }
        if let Some(policy) = js.on_first_open {
            if text_equals(policy.as_str(), "create_if_missing") {
                opts.on_first_open = FirstOpenPolicy::CreateIfMissing;
            } else if text_equals(policy.as_str(), "fail_if_not_found") {
                opts.on_first_open = FirstOpenPolicy::RequireExisting;
            } else {
                return Err(
                    FossicError::InvalidArgument(InvalidArgument::UnknownFirstOpenPolicy(policy)),
                );
            }
        }
        if let Some(n) = js.default_max_results {
            opts.default_max_results = Some(n as usize);
        }
        if let Some(n) = js.default_max_bytes {
            opts.default_max_bytes = Some(n as usize);
        }
    }
    Ok(opts)
}

// ── Branches and subscriptions ────────────────────────────────────────────────

/// A branch fork as a binding receives it.
pub struct CreateBranchJs {
    pub stream_id: String,
    pub branch_id: String,
    pub parent_id: Option<String>,
    pub parent_version: u64,
    pub description: Option<String>,
}

/// The fork a binding's request stands for; the parent defaults to `main`.
pub fn create_branch_from_js(js: CreateBranchJs) -> (b: CreateBranch)
    ensures
        b.stream_id == js.stream_id,
        b.branch_id == js.branch_id,
        match js.parent_id {
            Some(p) => b.parent_id == p,
            None => b.parent_id@ == main_branch(),
        },
        b.parent_version == js.parent_version,
        b.description == js.description,
        (b.alternatives is None),
{
    let parent_id = match js.parent_id {
        Some(p) => p,
        None => main_branch_string(),
    };
    CreateBranch {
        stream_id: js.stream_id,
        branch_id: js.branch_id,
        parent_id,
        parent_version: js.parent_version,
        description: js.description,
        alternatives: None,
    }
}

/// A subscription as a binding receives it.
pub struct SubscribeQueryJs {
    /// Glob pattern for the stream(s) to subscribe to.
    pub stream_pattern: String,
    pub branch: Option<String>,
    /// When `false` (default), events from `_`-prefixed system streams are suppressed.
    pub include_system: Option<bool>,
    pub queue_size: Option<u32>,
}

/// The subscription a binding's request stands for: post-commit delivery
/// through a queue of `queue_size` (1024 by default), on `main` by default,
/// without system streams by default.
pub fn subscribe_query_from_js(js: SubscribeQueryJs) -> (r: (SubscribeQuery, SubscriptionMode))
    ensures
        r.0.stream_pattern == js.stream_pattern,
        match js.branch {
            Some(b) => r.0.branch == b,
            None => r.0.branch@ == main_branch(),
        },
        r.0.include_system == (js.include_system == Some(true)),
        (r.1 == SubscriptionMode::PostCommit {
            queue_size: match js.queue_size {
                Some(n) => n as usize,
                None => 1024usize,
            },
        }),
{
    let queue: u32 = match js.queue_size {
        Some(n) => n,
        None => 1024,
    };
    let branch = match js.branch {
        Some(b) => b,
        None => main_branch_string(),
    };
    let include_system = match js.include_system {
        Some(v) => v,
        None => false,
    };
    (
        SubscribeQuery { stream_pattern: js.stream_pattern, branch, include_system },
        SubscriptionMode::PostCommit { queue_size: queue as usize },
    )
}

} // verus!
