//! Reducers fold a stream's events into a state; snapshots let a fold
//! resume part way through.
use vstd::prelude::*;

use crate::error::FossicError;
use crate::types::StoredEvent;

verus! {

/// A reducer over msgpack-encoded states and payloads, as foreign-language
/// bindings register them. A reducer is a pure function of the state and the
/// event: `spec_apply` and `spec_initial` name what it computes.
pub trait DynReducer {
    /// The state after applying one event payload, or `None` when the reducer fails on it.
    ///
    /// An impl that Verus does not read (a reducer written in plain Rust or
    /// in another language) keeps the default: some function of the reducer,
    /// the state and the payload, about which nothing more is known.
    open spec fn spec_apply(&self, state: Seq<u8>, payload: Seq<u8>) -> Option<Seq<u8>> {
        arbitrary::<spec_fn(&Self, Seq<u8>, Seq<u8>) -> Option<Seq<u8>>>()(self, state, payload)
    }

    /// The initial state, or `None` when the reducer cannot produce it.
    ///
    /// An impl that Verus does not read keeps the default: some function of
    /// the reducer, about which nothing more is known.
    open spec fn spec_initial(&self) -> Option<Seq<u8>> {
        arbitrary::<spec_fn(&Self) -> Option<Seq<u8>>>()(self)
    }

    fn name(&self) -> &str;

    fn version(&self) -> u32;

    fn state_schema_version(&self) -> u32;

    fn initial_state_bytes(&self) -> (r: Result<Vec<u8>, FossicError>)
        ensures
            match r {
                Ok(v) => self.spec_initial() == Some(v@),
                Err(_) => self.spec_initial() is None,
            },
    ;

    fn apply_bytes(&self, state: &[u8], payload: &[u8]) -> (r: Result<Vec<u8>, FossicError>)
        ensures
            match r {
                Ok(v) => self.spec_apply(state@, payload@) == Some(v@),
                Err(_) => self.spec_apply(state@, payload@) is None,
            },
    ;
}

/// Folding `events` in order into `state`; `None` once the reducer fails.
pub open spec fn replay<R: DynReducer>(reducer: &R, state: Seq<u8>, events: Seq<StoredEvent>) -> Option<
    Seq<u8>,
>
    decreases events.len(),
{
    if events.len() == 0 {
        Some(state)
    } else {
        match replay(reducer, state, events.drop_last()) {
            Some(s) => reducer.spec_apply(s, events.last().payload@),
            None => None,
        }
    }
}

/// Folding no event leaves the state as it is; folding one event applies the
/// reducer to that event's payload, whatever the event's other fields.
pub proof fn lemma_replay_one<R: DynReducer>(reducer: &R, state: Seq<u8>, e: StoredEvent)
    ensures
        replay(reducer, state, Seq::empty()) == Some(state),
        replay(reducer, state, seq![e]) == reducer.spec_apply(state, e.payload@),
{
    assert(seq![e].drop_last() =~= Seq::<StoredEvent>::empty());
    assert(seq![e].last() == e);
}

/// Folding a run with one more event at its end applies the reducer to that
/// event's payload in the state folded so far; a failure stays a failure.
pub proof fn lemma_replay_push<R: DynReducer>(
    reducer: &R,
    state: Seq<u8>,
    events: Seq<StoredEvent>,
    e: StoredEvent,
)
    ensures
        replay(reducer, state, events.push(e)) == match replay(reducer, state, events) {
            Some(s) => reducer.spec_apply(s, e.payload@),
            None => None,
        },
{
    assert(events.push(e).drop_last() =~= events);
    assert(events.push(e).last() == e);
}

/// Folding depends on the events' payloads alone: two runs of the same
/// length whose events carry the same payloads fold to the same state.
pub proof fn lemma_replay_payloads_only<R: DynReducer>(
    reducer: &R,
    state: Seq<u8>,
    a: Seq<StoredEvent>,
    b: Seq<StoredEvent>,
)
    requires
        a.len() == b.len(),
        forall|i: int| 0 <= i < a.len() ==> #[trigger] a[i].payload@ == b[i].payload@,
    ensures
        replay(reducer, state, a) == replay(reducer, state, b),
    decreases a.len(),
{
    if a.len() > 0 {
        assert forall|i: int| 0 <= i < a.drop_last().len() implies #[trigger] a.drop_last()[i].payload@
            == b.drop_last()[i].payload@ by {
            assert(a.drop_last()[i] == a[i] && b.drop_last()[i] == b[i]);
        }
        lemma_replay_payloads_only(reducer, state, a.drop_last(), b.drop_last());
        assert(a.last().payload@ == b.last().payload@);
    }
}

/// Folding two runs of events one after the other is folding them as one run.
pub proof fn lemma_replay_split<R: DynReducer>(
    reducer: &R,
    state: Seq<u8>,
    a: Seq<StoredEvent>,
    b: Seq<StoredEvent>,
)
    ensures
        replay(reducer, state, a + b) == match replay(reducer, state, a) {
            Some(s) => replay(reducer, s, b),
            None => None,
        },
    decreases b.len(),
{
    if b.len() == 0 {
        assert(a + b =~= a);
    } else {
        lemma_replay_split(reducer, state, a, b.drop_last());
        assert((a + b).drop_last() =~= a + b.drop_last());
        assert((a + b).last() == b.last());
        if replay(reducer, state, a) is None {
            assert(replay(reducer, state, a + b.drop_last()) is None);
        }
    }
}

/// A state read through a snapshot equals a state read from scratch: when
/// the snapshot holds the fold of the first `k` events of a stream, folding
/// the rest into it gives the fold of all the events.
pub proof fn lemma_snapshot_equivalence<R: DynReducer>(
    reducer: &R,
    initial: Seq<u8>,
    events: Seq<StoredEvent>,
    k: int,
    snapshot_state: Seq<u8>,
)
    requires
        0 <= k <= events.len(),
        replay(reducer, initial, events.take(k)) == Some(snapshot_state),
    ensures
        replay(reducer, snapshot_state, events.skip(k)) == replay(reducer, initial, events),
{
    lemma_replay_split(reducer, initial, events.take(k), events.skip(k));
    assert(events.take(k) + events.skip(k) =~= events);
}

/// Fold `events` in order into `state` through `reducer`.
pub fn replay_events<R: DynReducer>(reducer: &R, state: Vec<u8>, events: &Vec<StoredEvent>) -> (r: Result<
    Vec<u8>,
    FossicError,
>)
    ensures
        match replay(reducer, state@, events@) {
            Some(v) => r matches Ok(x) && x@ == v,
            None => r is Err,
        },
{
    let ghost start = state@;
    let mut cur = state;
    let mut i: usize = 0;
    while i < events.len()
        invariant
            0 <= i <= events@.len(),
            start == state@,
            replay(reducer, start, events@.take(i as int)) == Some(cur@),
        decreases events@.len() - i,
    {
        proof {
            assert(events@.take(i + 1).drop_last() =~= events@.take(i as int));
        }
        match reducer.apply_bytes(cur.as_slice(), events[i].payload.as_slice()) {
            Ok(next) => {
                cur = next;
            },
            Err(e) => {
                proof {
                    assert(reducer.spec_apply(cur@, events@[i as int].payload@) is None);
                    assert(events@.take(i + 1).last() == events@[i as int]);
                    assert(replay(reducer, start, events@.take(i + 1)) is None);
                    lemma_replay_split(reducer, start, events@.take(i + 1), events@.skip(i + 1));
                    assert(events@.take(i + 1) + events@.skip(i + 1) =~= events@);
                    assert(replay(reducer, start, events@) is None);
                }
                return Err(e);
            },
        }
        i = i + 1;
    }
    proof {
        assert(events@.take(events@.len() as int) =~= events@);
    }
    Ok(cur)
}

/// The state a fold starts from: the snapshot's state, or the reducer's
/// initial state when there is no snapshot.
pub open spec fn start_state<R: DynReducer>(reducer: &R, snapshot: Option<(u64, Vec<u8>)>) -> Option<Seq<u8>> {
    match snapshot {
        Some((_, bytes)) => Some(bytes@),
        None => reducer.spec_initial(),
    }
}

/// The first event version that a fold reads: the one after the snapshot's
/// version, or 0 without a snapshot.
pub fn resume_version(snapshot: &Option<(u64, Vec<u8>)>) -> (v: u64)
    requires
        snapshot matches Some((sv, _)) ==> sv < u64::MAX,
    ensures
        v == match snapshot {
            Some((sv, _)) => (sv + 1) as u64,
            None => 0u64,
        },
{
    match snapshot {
        Some((v, _)) => *v + 1,
        None => 0,
    }
}

/// The state of a stream: the events read after the snapshot (or all the
/// events, without one) folded into the snapshot's state (or the initial state).
pub fn state_from_snapshot<R: DynReducer>(
    reducer: &R,
    snapshot: Option<(u64, Vec<u8>)>,
    events: &Vec<StoredEvent>,
) -> (r: Result<Vec<u8>, FossicError>)
    ensures
        match start_state(reducer, snapshot) {
            Some(s) => match replay(reducer, s, events@) {
                Some(v) => r matches Ok(x) && x@ == v,
                None => r is Err,
            },
            None => r is Err,
        },
{
    let start = match snapshot {
        Some((_, bytes)) => bytes,
        None => reducer.initial_state_bytes()?,
    };
    replay_events(reducer, start, events)
}

/// What taking a snapshot does once the events after the last snapshot are read.
pub enum SnapshotStep {
    /// Store a snapshot of `state` at `version`.
    Write { version: u64, state: Vec<u8> },
    /// No event came after the last snapshot: that snapshot stands.
    KeepExisting,
}

/// What taking a snapshot of `(stream_id, branch)` does, given the latest
/// snapshot (`prior`) and the events read after it: without a start state it
/// fails; with no new events it keeps the prior snapshot, or fails with
/// `NoEventsToSnapshot` when there is none; otherwise it writes, at the last
/// event's version, the fold of the events into the start state, or fails
/// when the reducer does.
pub open spec fn snapshot_planned<R: DynReducer>(
    reducer: &R,
    stream_id: Seq<char>,
    branch: Seq<char>,
    prior: Option<(u64, Vec<u8>)>,
    events: Seq<StoredEvent>,
    r: Result<SnapshotStep, FossicError>,
) -> bool {
    match start_state(reducer, prior) {
        None => r is Err,
        Some(s) => if events.len() == 0 {
            if prior is Some {
                r matches Ok(SnapshotStep::KeepExisting)
            } else {
                r matches Err(FossicError::NoEventsToSnapshot { stream_id: sid, branch: b })
                    && sid@ == stream_id && b@ == branch
            }
        } else {
            match replay(reducer, s, events) {
                Some(st) => r matches Ok(SnapshotStep::Write { version, state }) && version
                    == events.last().version && state@ == st,
                None => r is Err,
            }
        },
    }
}

/// Decide what taking a snapshot of `(stream_id, branch)` does, given the
/// latest snapshot (if any) and the events read after it.
pub fn plan_snapshot<R: DynReducer>(
    reducer: &R,
    stream_id: &str,
    branch: &str,
    prior: Option<(u64, Vec<u8>)>,
    events: &Vec<StoredEvent>,
) -> (r: Result<SnapshotStep, FossicError>)
    ensures
        snapshot_planned(reducer, stream_id@, branch@, prior, events@, r),
{
    let had_prior = prior.is_some();
    let start = match prior {
        Some((_, bytes)) => bytes,
        None => match reducer.initial_state_bytes() {
            Ok(b) => b,
            Err(e) => {
                return Err(e);
            },
        },
    };
    if events.len() == 0 {
        if had_prior {
            return Ok(SnapshotStep::KeepExisting);
        }
        return Err(
            FossicError::NoEventsToSnapshot {
                stream_id: stream_id.to_owned(),
                branch: branch.to_owned(),
            },
        );
    }
    let version = events[events.len() - 1].version;
    match replay_events(reducer, start, events) {
        Ok(state) => Ok(SnapshotStep::Write { version, state }),
        Err(e) => Err(e),
    }
}

} // verus!

verus! {

/// Taking a snapshot again with no new events keeps the snapshot just
/// written: its version and state stand.
pub proof fn lemma_snapshot_idempotent<R: DynReducer>(
    reducer: &R,
    stream_id: Seq<char>,
    branch: Seq<char>,
    prior: Option<(u64, Vec<u8>)>,
    events: Seq<StoredEvent>,
    first: Result<SnapshotStep, FossicError>,
    version: u64,
    state: Vec<u8>,
    second: Result<SnapshotStep, FossicError>,
)
    requires
        snapshot_planned(reducer, stream_id, branch, prior, events, first),
        first == Ok::<SnapshotStep, FossicError>(SnapshotStep::Write { version, state }),
        snapshot_planned(reducer, stream_id, branch, Some((version, state)), Seq::empty(), second),
    ensures
        second matches Ok(SnapshotStep::KeepExisting),
{
}

/// A snapshot is the fold of the stream's events: when the prior snapshot
/// (if any) holds the fold of the first `k` events of `events` from the
/// reducer's initial state, and the fold of all of them succeeds, taking a
/// snapshot over the events after the `k`-th writes, at the last event's
/// version, the fold of all the events.
pub proof fn lemma_snapshot_is_fold<R: DynReducer>(
    reducer: &R,
    stream_id: Seq<char>,
    branch: Seq<char>,
    initial: Seq<u8>,
    events: Seq<StoredEvent>,
    k: int,
    prior: Option<(u64, Vec<u8>)>,
    r: Result<SnapshotStep, FossicError>,
)
    requires
        reducer.spec_initial() == Some(initial),
        0 <= k < events.len(),
        match prior {
            None => k == 0,
            Some((_, s)) => replay(reducer, initial, events.take(k)) == Some(s@),
        },
        replay(reducer, initial, events) is Some,
        snapshot_planned(reducer, stream_id, branch, prior, events.skip(k), r),
    ensures
        r matches Ok(SnapshotStep::Write { version, state }) && version == events.last().version
            && Some(state@) == replay(reducer, initial, events),
{
    match prior {
        None => {
            assert(events.skip(0) =~= events);
        },
        Some((_, s)) => {
            lemma_snapshot_equivalence(reducer, initial, events, k, s@);
        },
    }
    assert(events.skip(k).last() == events.last());
}

} // verus!
