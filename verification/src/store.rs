//! The decisions the store makes around its SQLite file: whether a store may
//! be opened, which appends reach subscribers, and what an append or a
//! batch of appends hands back.
use vstd::prelude::*;
use vstd::string::*;

use crate::error::{FossicError, Unsupported};
use crate::json::clone_json;
use crate::text::text_equals;
use crate::msgpack::{
    msgpack_encode_ok, msgpack_encoding, msgpack_from_json, msgpack_json_ok, msgpack_json_value,
    msgpack_to_json,
};
use crate::types::{
    clone_opt_json, clone_opt_string, Append, CheckpointMode, EncryptionMode, EventId,
    FirstOpenPolicy, OpenOptions, main_branch, main_branch_string, StoredEvent, StoredEventView, opt_string_view,
};

verus! {

// ── Opening ───────────────────────────────────────────────────────────────────

/// Decide whether a store can be opened with `options`, given whether its
/// file exists. `Ok(true)` asks for the parent directories to be created
/// first; `Ok(false)` opens the existing file as it is.
pub fn check_open_options(options: &OpenOptions, path: &str, path_exists: bool) -> (r: Result<
    bool,
    FossicError,
>)
    ensures
        match r {
            Ok(create_dirs) => {
                &&& options.encryption is Plaintext
                &&& options.checkpoint_mode is Auto
                &&& (options.on_first_open is RequireExisting ==> path_exists)
                &&& create_dirs == (options.on_first_open is CreateIfMissing)
            },
            Err(FossicError::NotImplemented { feature: Unsupported::Encryption }) => !(
            options.encryption is Plaintext),
            Err(FossicError::NotImplemented { feature: Unsupported::ManualCheckpoint }) => {
                &&& options.encryption is Plaintext
                &&& options.checkpoint_mode is Manual
            },
            Err(FossicError::StoreNotFound { path: p }) => {
                &&& options.encryption is Plaintext
                &&& options.checkpoint_mode is Auto
                &&& options.on_first_open is RequireExisting
                &&& !path_exists
                &&& p@ == path@
            },
            _ => false,
        },
{
    match options.encryption {
        EncryptionMode::Plaintext => {},
        _ => {
            return Err(FossicError::NotImplemented { feature: Unsupported::Encryption });
        },
    }
    match options.checkpoint_mode {
        CheckpointMode::Auto => {},
        CheckpointMode::Manual { .. } => {
            return Err(FossicError::NotImplemented { feature: Unsupported::ManualCheckpoint });
        },
    }
    match options.on_first_open {
        FirstOpenPolicy::RequireExisting => {
            if !path_exists {
                return Err(FossicError::StoreNotFound { path: path.to_owned() });
            }
            Ok(false)
        },
        FirstOpenPolicy::CreateIfMissing => Ok(true),
    }
}

// ── System streams ────────────────────────────────────────────────────────────

/// The prefix that marks the store's own streams.
pub open spec fn system_prefix() -> Seq<char> {
    seq!['_', 'f', 'o', 's', 's', 'i', 'c', '/']
}

/// A stream id names one of the store's own `_fossic/` streams.
pub open spec fn is_system_stream_id(s: Seq<char>) -> bool {
    s.len() >= 8 && s.subrange(0, 8) == system_prefix()
}

/// Whether `stream_id` names one of the store's own `_fossic/` streams,
/// whose events are never delivered to subscribers.
pub fn is_system_stream(stream_id: &str) -> (r: bool)
    ensures
        r == is_system_stream_id(stream_id@),
{
    let prefix = "_fossic/";
    proof {
        reveal_strlit("_fossic/");
    }
    let n = stream_id.unicode_len();
    if n < 8 {
        return false;
    }
    let mut i: usize = 0;
    while i < 8
        invariant
            0 <= i <= 8,
            n == stream_id@.len(),
            n >= 8,
            prefix@ == system_prefix(),
            forall|k: int| 0 <= k < i ==> stream_id@[k] == system_prefix()[k],
        decreases 8 - i,
    {
        if stream_id.get_char(i) != prefix.get_char(i) {
            return false;
        }
        i = i + 1;
    }
    assert(stream_id@.subrange(0, 8) =~= system_prefix());
    true
}

/// Whether `pattern` is a glob (holds a `*`) rather than one stream id.
pub fn is_glob_pattern(pattern: &str) -> (r: bool)
    ensures
        r == pattern@.contains('*'),
{
    let n = pattern.unicode_len();
    let mut i: usize = 0;
    while i < n
        invariant
            0 <= i <= n,
            n == pattern@.len(),
            forall|k: int| 0 <= k < i ==> pattern@[k] != '*',
        decreases n - i,
    {
        if pattern.get_char(i) == '*' {
            assert(pattern@[i as int] == '*');
            return true;
        }
        i = i + 1;
    }
    false
}

/// Whether a committed append is handed to subscribers: only a new event,
/// only when someone subscribes, and never on a system stream.
pub fn should_dispatch(is_new: bool, has_subscribers: bool, stream_id: &str) -> (r: bool)
    ensures
        r == (is_new && has_subscribers && !is_system_stream_id(stream_id@)),
{
    is_new && has_subscribers && !is_system_stream(stream_id)
}

} // verus!

verus! {

// ── Append results ────────────────────────────────────────────────────────────

/// What writing one event did.
pub struct AppendOutcome {
    pub event_id: EventId,
    /// `false` when an identical event already stood at that position.
    pub is_new: bool,
    pub version: u64,
    pub timestamp_us: i64,
    /// The msgpack payload that was stored.
    pub payload_bytes: Vec<u8>,
}

/// The stored event that an append produced, as subscribers receive it.
pub open spec fn appended_event(outcome: AppendOutcome, a: Append) -> StoredEventView {
    StoredEventView {
        id: outcome.event_id,
        stream_id: a.stream_id@,
        branch: a.branch@,
        version: outcome.version,
        timestamp_us: outcome.timestamp_us,
        causation_id: a.causation_id,
        correlation_id: a.correlation_id,
        event_type: a.event_type@,
        type_version: a.type_version,
        payload: outcome.payload_bytes@,
        external_id: opt_string_view(a.external_id),
        indexed_tags: a.indexed_tags,
    }
}

/// The event that subscribers receive for an append is that append, as it
/// was stored: the outcome's id, version, timestamp and payload bytes, and
/// the append's stream, branch, causation and correlation ids, type, type
/// version, external id and tags.
pub proof fn lemma_appended_event_fields(outcome: AppendOutcome, a: Append)
    ensures
        appended_event(outcome, a).id == outcome.event_id,
        appended_event(outcome, a).stream_id == a.stream_id@,
        appended_event(outcome, a).branch == a.branch@,
        appended_event(outcome, a).version == outcome.version,
        appended_event(outcome, a).timestamp_us == outcome.timestamp_us,
        appended_event(outcome, a).causation_id == a.causation_id,
        appended_event(outcome, a).correlation_id == a.correlation_id,
        appended_event(outcome, a).event_type == a.event_type@,
        appended_event(outcome, a).type_version == a.type_version,
        appended_event(outcome, a).payload == outcome.payload_bytes@,
        appended_event(outcome, a).external_id == opt_string_view(a.external_id),
        appended_event(outcome, a).indexed_tags == a.indexed_tags,
{
}

/// Build the stored event of an append from its outcome and request,
/// without reading it back.
pub fn build_stored_event(outcome: &AppendOutcome, a: &Append) -> (e: StoredEvent)
    ensures
        e@ == appended_event(*outcome, *a),
        e.id == outcome.event_id,
        e.stream_id@ == a.stream_id@,
        e.branch@ == a.branch@,
        e.version == outcome.version,
        e.timestamp_us == outcome.timestamp_us,
        e.causation_id == a.causation_id,
        e.correlation_id == a.correlation_id,
        e.event_type@ == a.event_type@,
        e.type_version == a.type_version,
        e.payload@ == outcome.payload_bytes@,
        e.external_id == a.external_id,
        e.indexed_tags == a.indexed_tags,
{
    StoredEvent {
        id: outcome.event_id,
        stream_id: a.stream_id.clone(),
        branch: a.branch.clone(),
        version: outcome.version,
        timestamp_us: outcome.timestamp_us,
        causation_id: a.causation_id,
        correlation_id: a.correlation_id,
        event_type: a.event_type.clone(),
        type_version: a.type_version,
        payload: outcome.payload_bytes.clone(),
        external_id: clone_opt_string(&a.external_id),
        indexed_tags: clone_opt_json(&a.indexed_tags),
    }
}

/// Whether the append of `a` that produced `outcome` reaches subscribers.
pub open spec fn dispatches(outcome: AppendOutcome, a: Append, has_subscribers: bool) -> bool {
    outcome.is_new && has_subscribers && !is_system_stream_id(a.stream_id@)
}

/// What a single append hands back: the event's id, and the stored event
/// that goes to subscribers when the append reaches them.
pub fn append_result(outcome: &AppendOutcome, a: &Append, has_subscribers: bool) -> (r: (
    EventId,
    Option<StoredEvent>,
))
    ensures
        r.0 == outcome.event_id,
        r.1 is Some <==> (outcome.is_new && has_subscribers && !is_system_stream_id(a.stream_id@)),
        match r.1 {
            Some(e) => dispatches(*outcome, *a, has_subscribers) && e@ == appended_event(*outcome, *a),
            None => !dispatches(*outcome, *a, has_subscribers),
        },
{
    if should_dispatch(outcome.is_new, has_subscribers, a.stream_id.as_str()) {
        (outcome.event_id, Some(build_stored_event(outcome, a)))
    } else {
        (outcome.event_id, None)
    }
}

/// What a conditional append hands back: nothing when its condition refused
/// the write (`outcome` is `None`), else what a single append hands back.
pub fn append_if_result(outcome: &Option<AppendOutcome>, a: &Append, has_subscribers: bool) -> (r: (
    Option<EventId>,
    Option<StoredEvent>,
))
    ensures
        match outcome {
            None => r.0 is None && r.1 is None,
            Some(o) => r.0 == Some(o.event_id) && (r.1 is Some <==> (o.is_new && has_subscribers
                && !is_system_stream_id(a.stream_id@))) && match r.1 {
                Some(e) => dispatches(*o, *a, has_subscribers) && e@ == appended_event(*o, *a),
                None => !dispatches(*o, *a, has_subscribers),
            },
        },
{
    match outcome {
        None => (None, None),
        Some(o) => {
            let (id, post) = append_result(o, a, has_subscribers);
            (Some(id), post)
        },
    }
}

/// The positions, in order, of a batch's appends that reach subscribers.
pub open spec fn dispatched_positions(
    outcomes: Seq<AppendOutcome>,
    appends: Seq<Append>,
    has_subscribers: bool,
    n: int,
) -> Seq<int>
    decreases n,
{
    if n <= 0 {
        Seq::empty()
    } else {
        let prev = dispatched_positions(outcomes, appends, has_subscribers, n - 1);
        if outcomes[n - 1].is_new && has_subscribers && !is_system_stream_id(appends[n - 1].stream_id@) {
            prev.push(n - 1)
        } else {
            prev
        }
    }
}

/// Position `i` is among `pos`.
pub open spec fn listed(pos: Seq<int>, i: int) -> bool {
    exists|k: int| 0 <= k < pos.len() && pos[k] == i
}

/// A batch dispatches what the same appends would dispatch one by one: the
/// positions of its dispatched events are exactly those whose single append
/// would reach subscribers, each once, in input order.
pub proof fn lemma_batch_dispatches_as_singles(
    outcomes: Seq<AppendOutcome>,
    appends: Seq<Append>,
    has_subscribers: bool,
    n: int,
)
    requires
        0 <= n <= outcomes.len(),
        outcomes.len() == appends.len(),
    ensures
        forall|i: int|
            0 <= i < n ==> (#[trigger] listed(dispatched_positions(outcomes, appends, has_subscribers, n), i)
                <==> dispatches(outcomes[i], appends[i], has_subscribers)),
        forall|a: int, b: int|
            0 <= a < b < dispatched_positions(outcomes, appends, has_subscribers, n).len() ==> 0
                <= #[trigger] dispatched_positions(outcomes, appends, has_subscribers, n)[a]
                < #[trigger] dispatched_positions(outcomes, appends, has_subscribers, n)[b] < n,
        forall|k: int|
            0 <= k < dispatched_positions(outcomes, appends, has_subscribers, n).len() ==> 0
                <= #[trigger] dispatched_positions(outcomes, appends, has_subscribers, n)[k] < n,
    decreases n,
{
    if n > 0 {
        lemma_batch_dispatches_as_singles(outcomes, appends, has_subscribers, n - 1);
        let prev = dispatched_positions(outcomes, appends, has_subscribers, n - 1);
        let pos = dispatched_positions(outcomes, appends, has_subscribers, n);
        assert forall|i: int| 0 <= i < n implies (#[trigger] listed(pos, i) <==> dispatches(
            outcomes[i],
            appends[i],
            has_subscribers,
        )) by {
            if i < n - 1 {
                if listed(prev, i) {
                    let k = choose|k: int| 0 <= k < prev.len() && prev[k] == i;
                    assert(pos[k] == i);
                }
                if listed(pos, i) {
                    let k = choose|k: int| 0 <= k < pos.len() && pos[k] == i;
                    if k < prev.len() {
                        assert(prev[k] == i);
                    }
                    assert(listed(prev, i));
                }
            } else {
                if dispatches(outcomes[i], appends[i], has_subscribers) {
                    assert(pos[pos.len() - 1] == i);
                } else {
                    if listed(pos, i) {
                        let k = choose|k: int| 0 <= k < pos.len() && pos[k] == i;
                        assert(prev[k] == i);
                    }
                }
            }
        }
    }
}

/// What a batch append hands back: the id of every append, in order, and the
/// stored events that go to subscribers, in order.
pub fn collect_batch(
    outcomes: &Vec<AppendOutcome>,
    appends: &Vec<Append>,
    has_subscribers: bool,
) -> (r: (Vec<EventId>, Vec<StoredEvent>))
    requires
        outcomes@.len() == appends@.len(),
    ensures
        r.0@.len() == outcomes@.len(),
        forall|i: int| 0 <= i < outcomes@.len() ==> r.0@[i] == #[trigger] outcomes@[i].event_id,
        ({
            let pos = dispatched_positions(outcomes@, appends@, has_subscribers, outcomes@.len() as int);
            &&& r.1@.len() == pos.len()
            &&& forall|k: int|
                0 <= k < pos.len() ==> #[trigger] r.1@[k]@ == appended_event(
                    outcomes@[pos[k]],
                    appends@[pos[k]],
                )
        }),
{
    let mut ids: Vec<EventId> = Vec::new();
    let mut post: Vec<StoredEvent> = Vec::new();
    let mut i: usize = 0;
    while i < outcomes.len()
        invariant
            outcomes@.len() == appends@.len(),
            0 <= i <= outcomes@.len(),
            ids@.len() == i,
            forall|k: int| 0 <= k < i ==> ids@[k] == #[trigger] outcomes@[k].event_id,
            ({
                let pos = dispatched_positions(outcomes@, appends@, has_subscribers, i as int);
                &&& post@.len() == pos.len()
                &&& forall|k: int|
                    0 <= k < pos.len() ==> #[trigger] post@[k]@ == appended_event(
                        outcomes@[pos[k]],
                        appends@[pos[k]],
                    )
            }),
        decreases outcomes@.len() - i,
    {
        let outcome = &outcomes[i];
        let a = &appends[i];
        ids.push(outcome.event_id);
        let ghost old_post = post@;
        if should_dispatch(outcome.is_new, has_subscribers, a.stream_id.as_str()) {
            post.push(build_stored_event(outcome, a));
        }
        proof {
            let pos = dispatched_positions(outcomes@, appends@, has_subscribers, i + 1);
            assert forall|k: int| 0 <= k < pos.len() implies #[trigger] post@[k]@ == appended_event(
                outcomes@[pos[k]],
                appends@[pos[k]],
            ) by {
                if k < old_post.len() {
                    assert(post@[k] == old_post[k]);
                }
            }
        }
        i = i + 1;
    }
    (ids, post)
}

} // verus!

verus! {

// ── Subscriptions ─────────────────────────────────────────────────────────────

/// The cursors a new subscription starts from, so that events committed
/// before it are not delivered to it.
pub struct SubscriptionSeed {
    /// For a subscription to one stream: that stream's highest version, or
    /// -1 when it has none. For a glob: -1.
    pub cursor: i64,
    /// For a glob: `(stream, branch, highest version)` of each stream on the
    /// branch that the glob matches. For one stream: empty.
    pub stream_cursors: Vec<(String, String, i64)>,
}

/// The per-stream cursors of the first `n` rows `(stream, highest version)`
/// whose stream the glob matched, on `branch`.
pub open spec fn seed_rows(
    rows: Seq<(String, i64)>,
    matched: Seq<bool>,
    branch: Seq<char>,
    n: int,
) -> Seq<(Seq<char>, Seq<char>, i64)>
    decreases n,
{
    if n <= 0 {
        Seq::empty()
    } else {
        let prev = seed_rows(rows, matched, branch, n - 1);
        if matched[n - 1] {
            prev.push((rows[n - 1].0@, branch, rows[n - 1].1))
        } else {
            prev
        }
    }
}

/// The view of a list of per-stream cursors.
pub open spec fn cursors_view(c: Seq<(String, String, i64)>) -> Seq<(Seq<char>, Seq<char>, i64)> {
    Seq::new(c.len(), |i: int| (c[i].0@, c[i].1@, c[i].2))
}

/// Where subscription `q` starts. For one stream, from its highest version
/// (`exact_max_version`, `None` when it has no event). For a glob, from the
/// highest version of each stream of the branch that the glob matches:
/// `rows` holds `(stream, highest version)` per stream of the branch and
/// `matched[i]` whether the glob matches `rows[i]`'s stream.
pub fn subscription_seed(
    q: &SubscribeQuery,
    exact_max_version: Option<i64>,
    rows: &Vec<(String, i64)>,
    matched: &Vec<bool>,
) -> (s: SubscriptionSeed)
    requires
        rows@.len() == matched@.len(),
    ensures
        if q.stream_pattern@.contains('*') {
            &&& s.cursor == -1
            &&& cursors_view(s.stream_cursors@) == seed_rows(rows@, matched@, q.branch@, rows@.len() as int)
        } else {
            &&& s.cursor == match exact_max_version {
                Some(v) => v,
                None => -1i64,
            }
            &&& s.stream_cursors@.len() == 0
        },
{
    if !is_glob_pattern(q.stream_pattern.as_str()) {
        let cursor: i64 = match exact_max_version {
            Some(v) => v,
            None => -1,
        };
        return SubscriptionSeed { cursor, stream_cursors: Vec::new() };
    }
    let mut cursors: Vec<(String, String, i64)> = Vec::new();
    let mut i: usize = 0;
    while i < rows.len()
        invariant
            rows@.len() == matched@.len(),
            0 <= i <= rows@.len(),
            cursors_view(cursors@) == seed_rows(rows@, matched@, q.branch@, i as int),
        decreases rows@.len() - i,
    {
        if matched[i] {
            let ghost before = cursors@;
            let row = &rows[i];
            cursors.push((row.0.clone(), q.branch.clone(), row.1));
            proof {
                assert(cursors_view(cursors@) =~= cursors_view(before).push(
                    (rows@[i as int].0@, q.branch@, rows@[i as int].1),
                ));
            }
        }
        i = i + 1;
    }
    SubscriptionSeed { cursor: -1, stream_cursors: cursors }
}

/// The cursor that per-stream cursors hold for `(stream, branch)`: the last
/// one listed for it, or -1 for a stream they do not list (so that its first
/// event, at version 0, is new).
pub open spec fn cursor_in(cursors: Seq<(Seq<char>, Seq<char>, i64)>, stream: Seq<char>, branch: Seq<char>) -> i64
    decreases cursors.len(),
{
    if cursors.len() == 0 {
        -1i64
    } else if cursors.last().0 == stream && cursors.last().1 == branch {
        cursors.last().2
    } else {
        cursor_in(cursors.drop_last(), stream, branch)
    }
}

/// The cursor a subscription holds for `(stream_id, branch)`: for one
/// stream its seeded cursor, for a glob the stream's seeded cursor or -1.
pub fn seeded_cursor(seed: &SubscriptionSeed, is_glob: bool, stream_id: &str, branch: &str) -> (c: i64)
    ensures
        c == if is_glob {
            cursor_in(cursors_view(seed.stream_cursors@), stream_id@, branch@)
        } else {
            seed.cursor
        },
{
    if !is_glob {
        return seed.cursor;
    }
    let ghost all = cursors_view(seed.stream_cursors@);
    let mut i: usize = seed.stream_cursors.len();
    proof {
        assert(all.take(i as int) =~= all);
    }
    while i > 0
        invariant
            is_glob,
            0 <= i <= seed.stream_cursors@.len(),
            all == cursors_view(seed.stream_cursors@),
            cursor_in(all, stream_id@, branch@) == cursor_in(all.take(i as int), stream_id@, branch@),
        decreases i,
    {
        let c = &seed.stream_cursors[i - 1];
        proof {
            assert(all.take(i as int).drop_last() =~= all.take(i - 1));
            assert(all.take(i as int).last() == (c.0@, c.1@, c.2));
        }
        if text_equals(c.0.as_str(), stream_id) && text_equals(c.1.as_str(), branch) {
            assert(cursor_in(all.take(i as int), stream_id@, branch@) == c.2);
            return c.2;
        }
        i = i - 1;
    }
    proof {
        assert(all.take(0) =~= Seq::<(Seq<char>, Seq<char>, i64)>::empty());
        assert(cursor_in(all.take(0), stream_id@, branch@) == -1i64);
    }
    -1
}

/// Whether an event at `version` is new to a subscription whose cursor for
/// its stream is `cursor`: it comes after the cursor.
pub open spec fn past_cursor(cursor: i64, version: u64) -> bool {
    version > cursor
}

/// A new glob subscription replays nothing: for each stream of the branch it
/// matched, no event at or below that stream's highest version at subscribe
/// time (`rows[j].1`) is past its seeded cursor. Streams are listed once.
pub proof fn lemma_glob_seed_no_replay(
    rows: Seq<(String, i64)>,
    matched: Seq<bool>,
    branch: Seq<char>,
    j: int,
    version: u64,
)
    requires
        rows.len() == matched.len(),
        0 <= j < rows.len(),
        matched[j],
        forall|a: int, b: int| 0 <= a < b < rows.len() ==> rows[a].0@ != rows[b].0@,
        version <= rows[j].1,
    ensures
        !past_cursor(cursor_in(seed_rows(rows, matched, branch, rows.len() as int), rows[j].0@, branch), version),
{
    lemma_seed_cursor(rows, matched, branch, j, rows.len() as int);
}

proof fn lemma_seed_cursor(rows: Seq<(String, i64)>, matched: Seq<bool>, branch: Seq<char>, j: int, n: int)
    requires
        rows.len() == matched.len(),
        0 <= j < n <= rows.len(),
        matched[j],
        forall|a: int, b: int| 0 <= a < b < rows.len() ==> rows[a].0@ != rows[b].0@,
    ensures
        cursor_in(seed_rows(rows, matched, branch, n), rows[j].0@, branch) == rows[j].1,
    decreases n,
{
    let prev = seed_rows(rows, matched, branch, n - 1);
    if j < n - 1 {
        lemma_seed_cursor(rows, matched, branch, j, n - 1);
        if matched[n - 1] {
            assert(prev.push((rows[n - 1].0@, branch, rows[n - 1].1)).drop_last() =~= prev);
        }
    }
}

/// The `SubscriptionDegraded` record that tells readers of `_fossic/system`
/// that a post-commit subscription fell behind and dropped an event.
pub struct DegradedEvent {
    /// Always `_fossic/system`.
    pub stream_id: String,
    /// Always `main`.
    pub branch: String,
    /// The next version on `_fossic/system`.
    pub version: u64,
    /// Always `SubscriptionDegraded`.
    pub event_type: String,
    /// Always 1.
    pub type_version: u32,
    /// The subscription that degraded.
    pub subscription_id: u64,
    /// The stream of the event it dropped.
    pub source_stream_id: String,
    /// The branch of the event it dropped.
    pub source_branch: String,
    /// The version of the event it dropped.
    pub dropped_version: u64,
}

/// The record that reports subscription `sub_id` degraded while the event
/// at `dropped_version` of `(stream_id, branch)` was delivered. It goes on
/// `main` of `_fossic/system`, one version past the highest one there
/// (`system_max_version`), or at version 0 when that stream is empty; there
/// is no such version after `u64::MAX`.
pub fn degraded_event(
    sub_id: u64,
    stream_id: &str,
    branch: &str,
    dropped_version: u64,
    system_max_version: Option<u64>,
) -> (r: Option<DegradedEvent>)
    ensures
        (system_max_version == Some(u64::MAX)) <==> r is None,
        r matches Some(e) ==> {
            &&& e.stream_id@ == "_fossic/system"@
            &&& e.branch@ == main_branch()
            &&& e.version == match system_max_version {
                Some(m) => (m + 1) as u64,
                None => 0u64,
            }
            &&& e.event_type@ == "SubscriptionDegraded"@
            &&& e.type_version == 1
            &&& e.subscription_id == sub_id
            &&& e.source_stream_id@ == stream_id@
            &&& e.source_branch@ == branch@
            &&& e.dropped_version == dropped_version
        },
{
    let version: u64 = match system_max_version {
        Some(m) => {
            if m == u64::MAX {
                return None;
            }
            m + 1
        },
        None => 0,
    };
    let system = "_fossic/system";
    let degraded = "SubscriptionDegraded";
    Some(
        DegradedEvent {
            stream_id: String::from_str(system),
            branch: main_branch_string(),
            version,
            event_type: String::from_str(degraded),
            type_version: 1,
            subscription_id: sub_id,
            source_stream_id: stream_id.to_owned(),
            source_branch: branch.to_owned(),
            dropped_version,
        },
    )
}

/// Which events a subscription receives.
pub struct SubscribeQuery {
    /// A stream id, or a glob over stream ids when it holds `*`.
    pub stream_pattern: String,
    pub branch: String,
    /// Whether events of `_`-prefixed system streams are delivered too.
    pub include_system: bool,
}

/// When a subscription's handler runs.
pub enum SubscriptionMode {
    /// Inside the write transaction, before `append` returns.
    Synchronous,
    /// On a dispatcher thread after commit, through a queue of this size.
    PostCommit { queue_size: usize },
}

} // verus!

verus! {

// ── Payloads ──────────────────────────────────────────────────────────────────

/// What preparing a payload gives once the registered transforms handed back
/// `out` for its encoding: their error, or the transformed bytes with the
/// JSON value they decode to (a decoding error when they do not decode).
pub open spec fn prepared_from(
    out: Result<Vec<u8>, FossicError>,
    r: Result<(serde_json::Value, Vec<u8>), FossicError>,
) -> bool {
    match out {
        Err(e) => r == Err::<(serde_json::Value, Vec<u8>), FossicError>(e),
        Ok(b) => if msgpack_json_ok(b@) {
            r matches Ok((v, bytes)) && bytes@ == b@ && v == msgpack_json_value(b@)
        } else {
            r matches Err(FossicError::MsgpackDecode(_))
        },
    }
}

/// Some run of `transform` on the bytes `encoded` gave what `r` was prepared from.
pub open spec fn transformed_into<F: Fn(Vec<u8>) -> Result<Vec<u8>, FossicError>>(
    transform: F,
    encoded: Seq<u8>,
    r: Result<(serde_json::Value, Vec<u8>), FossicError>,
) -> bool {
    exists|input: Vec<u8>, out: Result<Vec<u8>, FossicError>|
        input@ == encoded && #[trigger] call_ensures(transform, (input,), out) && prepared_from(out, r)
}

/// Encode a payload to msgpack, run the payload transforms registered for
/// the append (`transform`) over those bytes, and decode the bytes that come
/// out back into the JSON value from which the event id is derived, so the
/// id always reflects exactly what is stored.
pub fn prepare_payload<F: Fn(Vec<u8>) -> Result<Vec<u8>, FossicError>>(
    payload: &serde_json::Value,
    transform: F,
) -> (r: Result<(serde_json::Value, Vec<u8>), FossicError>)
    requires
        forall|b: Vec<u8>| call_requires(transform, (b,)),
    ensures
        !msgpack_encode_ok(*payload) ==> r matches Err(FossicError::MsgpackEncode(_)),
        msgpack_encode_ok(*payload) ==> transformed_into(transform, msgpack_encoding(*payload), r),
{
    let raw = match msgpack_from_json(payload) {
        Ok(b) => b,
        Err(e) => {
            return Err(FossicError::MsgpackEncode(e));
        },
    };
    let ghost raw_v = raw;
    let out = transform(raw);
    let ghost out_v = out;
    let bytes = match out {
        Ok(b) => b,
        Err(e) => {
            let r = Err(e);
            proof {
                assert(call_ensures(transform, (raw_v,), out_v));
                assert(prepared_from(out_v, r));
            }
            return r;
        },
    };
    let r = match msgpack_to_json(bytes.as_slice()) {
        Ok(v) => Ok((v, bytes)),
        Err(e) => Err(FossicError::MsgpackDecode(e)),
    };
    proof {
        assert(call_ensures(transform, (raw_v,), out_v));
        assert(prepared_from(out_v, r));
    }
    r
}

} // verus!
