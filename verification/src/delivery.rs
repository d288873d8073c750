//! How a subscription hands events to callers that ask for them one at a
//! time: a long-lived loop pairs each registered caller with at most one
//! event, and once the subscription is closed (or its events stop) every
//! caller still waiting is told that the subscription is done.
//!
//! The loop itself waits on channels; what it decides is `dispatch_step`,
//! from the state it is in and what it saw to the state it goes to and what
//! it answers.
use vstd::prelude::*;

verus! {

/// Where the delivery loop stands.
#[derive(Debug, Clone, Copy, PartialEq, Eq, Structural)]
pub enum DispatchState {
    /// Waiting for a caller to register.
    AwaitingCaller,
    /// Holding one caller, waiting for an event for it.
    AwaitingEvent,
    /// Closed: answering every caller still queued with "done".
    Draining,
    /// Finished; the loop has exited.
    Stopped,
}

/// What the loop saw after doing what its state asks for.
#[derive(Debug, Clone, Copy, PartialEq, Eq, Structural)]
pub enum Observation {
    /// A caller registered; `closed` tells whether the subscription was closed by then.
    Caller { closed: bool },
    /// No caller is left (the queue of callers is gone, or empty while draining).
    NoCaller,
    /// The subscription was closed while a caller waited for an event.
    Closed,
    /// An event arrived.
    Event,
    /// No event arrived within the polling interval.
    TimedOut,
    /// The source of events is gone.
    EventsGone,
}

/// What the loop does with the caller it holds.
#[derive(Debug, Clone, Copy, PartialEq, Eq, Structural)]
pub enum DispatchAction {
    /// Nothing to answer yet.
    Nothing,
    /// Answer the caller with "done" (no event).
    AnswerDone,
    /// Answer the caller with the event that arrived.
    Deliver,
}

/// Whether the loop can see `o` in state `s`: callers are awaited in
/// `AwaitingCaller` and `Draining`, events in `AwaitingEvent`.
pub open spec fn observable(s: DispatchState, o: Observation) -> bool {
    match s {
        DispatchState::AwaitingCaller | DispatchState::Draining => o is Caller || o is NoCaller,
        DispatchState::AwaitingEvent => !(o is Caller || o is NoCaller),
        DispatchState::Stopped => false,
    }
}

/// The next state and the answer of one step of the delivery loop.
pub open spec fn step_spec(s: DispatchState, o: Observation) -> (DispatchState, DispatchAction) {
    match s {
        DispatchState::AwaitingCaller => match o {
            Observation::Caller { closed } => if closed {
                (DispatchState::AwaitingCaller, DispatchAction::AnswerDone)
            } else {
                (DispatchState::AwaitingEvent, DispatchAction::Nothing)
            },
            _ => (DispatchState::Stopped, DispatchAction::Nothing),
        },
        DispatchState::AwaitingEvent => match o {
            Observation::Event => (DispatchState::AwaitingCaller, DispatchAction::Deliver),
            Observation::TimedOut => (DispatchState::AwaitingEvent, DispatchAction::Nothing),
            _ => (DispatchState::Draining, DispatchAction::AnswerDone),
        },
        DispatchState::Draining => match o {
            Observation::Caller { .. } => (DispatchState::Draining, DispatchAction::AnswerDone),
            _ => (DispatchState::Stopped, DispatchAction::Nothing),
        },
        DispatchState::Stopped => (DispatchState::Stopped, DispatchAction::Nothing),
    }
}

/// One step of the delivery loop: in state `s`, having seen `o`, the state
/// the loop goes to and what it answers the caller it holds.
pub fn dispatch_step(s: DispatchState, o: Observation) -> (r: (DispatchState, DispatchAction))
    requires
        observable(s, o),
    ensures
        r == step_spec(s, o),
{
    match s {
        DispatchState::AwaitingCaller => match o {
            Observation::Caller { closed } => if closed {
                (DispatchState::AwaitingCaller, DispatchAction::AnswerDone)
            } else {
                (DispatchState::AwaitingEvent, DispatchAction::Nothing)
            },
            _ => (DispatchState::Stopped, DispatchAction::Nothing),
        },
        DispatchState::AwaitingEvent => match o {
            Observation::Event => (DispatchState::AwaitingCaller, DispatchAction::Deliver),
            Observation::TimedOut => (DispatchState::AwaitingEvent, DispatchAction::Nothing),
            _ => (DispatchState::Draining, DispatchAction::AnswerDone),
        },
        DispatchState::Draining => match o {
            Observation::Caller { .. } => (DispatchState::Draining, DispatchAction::AnswerDone),
            _ => (DispatchState::Stopped, DispatchAction::Nothing),
        },
        DispatchState::Stopped => (DispatchState::Stopped, DispatchAction::Nothing),
    }
}

// ── Runs of the loop ──────────────────────────────────────────────────────────

/// The state after the loop, started in `s`, has seen `obs` in order.
pub open spec fn run_state(s: DispatchState, obs: Seq<Observation>) -> DispatchState
    decreases obs.len(),
{
    if obs.len() == 0 {
        s
    } else {
        step_spec(run_state(s, obs.drop_last()), obs.last()).0
    }
}

/// Every observation of `obs` can be seen in the state the loop is in when it comes.
pub open spec fn valid_run(s: DispatchState, obs: Seq<Observation>) -> bool
    decreases obs.len(),
{
    if obs.len() == 0 {
        true
    } else {
        valid_run(s, obs.drop_last()) && observable(run_state(s, obs.drop_last()), obs.last())
    }
}

/// How many answers of kind `a` the loop gives while seeing `obs` from `s`.
pub open spec fn answers(s: DispatchState, obs: Seq<Observation>, a: DispatchAction) -> nat
    decreases obs.len(),
{
    if obs.len() == 0 {
        0
    } else {
        answers(s, obs.drop_last(), a) + if step_spec(run_state(s, obs.drop_last()), obs.last()).1
            == a {
            1nat
        } else {
            0nat
        }
    }
}

/// How many callers registered in `obs`.
pub open spec fn callers(obs: Seq<Observation>) -> nat
    decreases obs.len(),
{
    if obs.len() == 0 {
        0
    } else {
        callers(obs.drop_last()) + if obs.last() is Caller {
            1nat
        } else {
            0nat
        }
    }
}

/// How many callers a state holds unanswered.
pub open spec fn held(s: DispatchState) -> nat {
    if s is AwaitingEvent {
        1
    } else {
        0
    }
}

/// Every caller gets exactly one answer: over any run of the loop from its
/// start, the answers given ("done" or an event) and the caller still held
/// add up to the callers that registered. In particular no caller gets two
/// events, and no event is delivered without a caller waiting for it.
pub proof fn lemma_one_answer_per_caller(obs: Seq<Observation>)
    requires
        valid_run(DispatchState::AwaitingCaller, obs),
    ensures
        answers(DispatchState::AwaitingCaller, obs, DispatchAction::AnswerDone) + answers(
            DispatchState::AwaitingCaller,
            obs,
            DispatchAction::Deliver,
        ) + held(run_state(DispatchState::AwaitingCaller, obs)) == callers(obs),
    decreases obs.len(),
{
    if obs.len() > 0 {
        lemma_one_answer_per_caller(obs.drop_last());
    }
}

/// Once the loop drains or stops, it never delivers another event and
/// never waits for one again.
pub proof fn lemma_no_delivery_after_close(s: DispatchState, obs: Seq<Observation>)
    requires
        s is Draining || s is Stopped,
    ensures
        run_state(s, obs) is Draining || run_state(s, obs) is Stopped,
        answers(s, obs, DispatchAction::Deliver) == 0,
    decreases obs.len(),
{
    if obs.len() > 0 {
        lemma_no_delivery_after_close(s, obs.drop_last());
    }
}

/// A stopped loop stays stopped and answers nothing.
pub proof fn lemma_stopped_is_final(obs: Seq<Observation>)
    ensures
        run_state(DispatchState::Stopped, obs) is Stopped,
        answers(DispatchState::Stopped, obs, DispatchAction::AnswerDone) == 0,
        answers(DispatchState::Stopped, obs, DispatchAction::Deliver) == 0,
    decreases obs.len(),
{
    if obs.len() > 0 {
        lemma_stopped_is_final(obs.drop_last());
    }
}

/// How many observations of `obs` are `o`.
pub open spec fn count_of(obs: Seq<Observation>, o: Observation) -> nat
    decreases obs.len(),
{
    if obs.len() == 0 {
        0
    } else {
        count_of(obs.drop_last(), o) + if obs.last() == o {
            1nat
        } else {
            0nat
        }
    }
}

/// The loop has not been closed: it waits for a caller or for an event.
pub open spec fn still_open(s: DispatchState) -> bool {
    s is AwaitingCaller || s is AwaitingEvent
}

/// While the subscription stays open, callers that registered before it
/// closed and events that arrived pair up: every event was delivered, and
/// the callers are the events plus the one caller still waiting, if any.
pub proof fn lemma_callers_pair_with_events(obs: Seq<Observation>)
    requires
        valid_run(DispatchState::AwaitingCaller, obs),
        still_open(run_state(DispatchState::AwaitingCaller, obs)),
    ensures
        count_of(obs, Observation::Caller { closed: false }) == count_of(obs, Observation::Event)
            + held(run_state(DispatchState::AwaitingCaller, obs)),
        answers(DispatchState::AwaitingCaller, obs, DispatchAction::Deliver) == count_of(
            obs,
            Observation::Event,
        ),
    decreases obs.len(),
{
    if obs.len() > 0 {
        let p = run_state(DispatchState::AwaitingCaller, obs.drop_last());
        assert(still_open(p));
        lemma_callers_pair_with_events(obs.drop_last());
    }
}

/// A prefix of a valid run is a valid run.
proof fn lemma_valid_prefix(s: DispatchState, obs: Seq<Observation>, n: int)
    requires
        valid_run(s, obs),
        0 <= n <= obs.len(),
    ensures
        valid_run(s, obs.take(n)),
    decreases obs.len(),
{
    if n < obs.len() {
        assert(obs.drop_last().take(n) =~= obs.take(n));
        lemma_valid_prefix(s, obs.drop_last(), n);
    } else {
        assert(obs.take(n) =~= obs);
    }
}

/// The `k`-th event goes to the `k`-th caller that registered while the
/// subscription was open: when an event arrives it is delivered at once,
/// and counting that event, exactly as many events as such callers have come.
pub proof fn lemma_kth_event_to_kth_caller(obs: Seq<Observation>, i: int)
    requires
        valid_run(DispatchState::AwaitingCaller, obs),
        0 <= i < obs.len(),
        obs[i] == Observation::Event,
    ensures
        step_spec(run_state(DispatchState::AwaitingCaller, obs.take(i)), obs[i]).1
            == DispatchAction::Deliver,
        count_of(obs.take(i + 1), Observation::Event) == count_of(
            obs.take(i + 1),
            Observation::Caller { closed: false },
        ),
{
    lemma_valid_prefix(DispatchState::AwaitingCaller, obs, i + 1);
    let pre = obs.take(i + 1);
    assert(pre.drop_last() =~= obs.take(i));
    assert(pre.last() == obs[i]);
    let p = run_state(DispatchState::AwaitingCaller, obs.take(i));
    assert(observable(p, obs[i]));
    assert(p is AwaitingEvent);
    lemma_callers_pair_with_events(obs.take(i));
}

// ── Pull-based cursors ────────────────────────────────────────────────────────

/// Whether a cursor over a query can still yield.
#[derive(Debug, Clone, Copy, PartialEq, Eq, Structural)]
pub enum CursorState {
    Open,
    Finished,
}

/// One call of `next` on a cursor. An open cursor pulls from its iterator
/// (`pulled` is what the iterator yielded); a finished one pulls nothing.
/// The cursor finishes when its iterator ends or fails, and from then on
/// every call answers `Ok(None)`.
pub fn cursor_next<T, E>(state: CursorState, pulled: Option<Option<Result<T, E>>>) -> (r: (
    CursorState,
    Result<Option<T>, E>,
))
    requires
        (state is Open) == (pulled is Some),
    ensures
        state is Finished ==> r.0 is Finished && r.1 matches Ok(None),
        state is Open ==> match pulled {
            Some(Some(Ok(v))) => r.0 is Open && r.1 == Ok::<Option<T>, E>(Some(v)),
            Some(Some(Err(e))) => r.0 is Finished && r.1 == Err::<Option<T>, E>(e),
            _ => r.0 is Finished && r.1 matches Ok(None),
        },
        r == cursor_step(state, pulled),
{
    match pulled {
        None => (CursorState::Finished, Ok(None)),
        Some(None) => (CursorState::Finished, Ok(None)),
        Some(Some(Ok(v))) => (CursorState::Open, Ok(Some(v))),
        Some(Some(Err(e))) => (CursorState::Finished, Err(e)),
    }
}

/// One call of `next` on a cursor, as a function of its state and what it pulled.
pub open spec fn cursor_step<T, E>(state: CursorState, pulled: Option<Option<Result<T, E>>>) -> (
    CursorState,
    Result<Option<T>, E>,
) {
    match pulled {
        Some(Some(Ok(v))) => if state is Open {
            (CursorState::Open, Ok(Some(v)))
        } else {
            (CursorState::Finished, Ok(None))
        },
        Some(Some(Err(e))) => if state is Open {
            (CursorState::Finished, Err(e))
        } else {
            (CursorState::Finished, Ok(None))
        },
        _ => (CursorState::Finished, Ok(None)),
    }
}

/// The state and the answers of successive calls of `next` that pulled `pulls`.
pub open spec fn cursor_run<T, E>(state: CursorState, pulls: Seq<Option<Option<Result<T, E>>>>) -> (
    CursorState,
    Seq<Result<Option<T>, E>>,
)
    decreases pulls.len(),
{
    if pulls.len() == 0 {
        (state, Seq::empty())
    } else {
        let (s, answers) = cursor_run(state, pulls.drop_last());
        let (s2, a) = cursor_step(s, pulls.last());
        (s2, answers.push(a))
    }
}

/// Running two stretches of calls one after the other.
proof fn lemma_cursor_run_split<T, E>(
    state: CursorState,
    a: Seq<Option<Option<Result<T, E>>>>,
    b: Seq<Option<Option<Result<T, E>>>>,
)
    ensures
        cursor_run(state, a + b) == (cursor_run(cursor_run(state, a).0, b).0, cursor_run(state, a).1
            + cursor_run(cursor_run(state, a).0, b).1),
    decreases b.len(),
{
    if b.len() == 0 {
        assert(a + b =~= a);
        assert(cursor_run(state, a).1 + Seq::<Result<Option<T>, E>>::empty() =~= cursor_run(state, a).1);
    } else {
        lemma_cursor_run_split(state, a, b.drop_last());
        assert((a + b).drop_last() =~= a + b.drop_last());
        let m = cursor_run(state, a);
        let r = cursor_run(m.0, b.drop_last());
        let st = cursor_step(r.0, b.last());
        assert(m.1 + r.1.push(st.1) =~= (m.1 + r.1).push(st.1));
    }
}

/// The pulls of an iterator that yields `items`.
pub open spec fn yielded<T, E>(items: Seq<T>) -> Seq<Option<Option<Result<T, E>>>> {
    Seq::new(items.len(), |i: int| Some(Some(Ok(items[i]))))
}

/// The answers that hand out `items`.
pub open spec fn handed_out<T, E>(items: Seq<T>) -> Seq<Result<Option<T>, E>> {
    Seq::new(items.len(), |i: int| Ok(Some(items[i])))
}

proof fn lemma_cursor_yields<T, E>(items: Seq<T>)
    ensures
        cursor_run(CursorState::Open, yielded::<T, E>(items)) == (CursorState::Open, handed_out::<T, E>(items)),
    decreases items.len(),
{
    if items.len() > 0 {
        let init = items.drop_last();
        lemma_cursor_yields::<T, E>(init);
        assert(yielded::<T, E>(items).drop_last() =~= yielded::<T, E>(init));
        assert(handed_out::<T, E>(items) =~= handed_out::<T, E>(init).push(Ok(Some(items.last()))));
    }
}

proof fn lemma_cursor_stays_finished<T, E>(n: nat)
    ensures
        cursor_run(CursorState::Finished, Seq::<Option<Option<Result<T, E>>>>::new(n, |i: int| None))
            == (CursorState::Finished, Seq::<Result<Option<T>, E>>::new(n, |i: int| Ok(None))),
    decreases n,
{
    if n > 0 {
        lemma_cursor_stays_finished::<T, E>((n - 1) as nat);
        assert(Seq::<Option<Option<Result<T, E>>>>::new(n, |i: int| None).drop_last() =~= Seq::<
            Option<Option<Result<T, E>>>,
        >::new((n - 1) as nat, |i: int| None));
        assert(Seq::<Result<Option<T>, E>>::new(n, |i: int| Ok(None)) =~= Seq::<
            Result<Option<T>, E>,
        >::new((n - 1) as nat, |i: int| Ok(None)).push(Ok(None)));
    }
}

/// A cursor over an iterator that yields `items` and then ends (`failure`
/// is `None`) or fails with `failure`: its calls hand out the items in
/// order, then answer `Ok(None)` or the error, and every one of the `later`
/// calls after that answers `Ok(None)` without pulling.
pub proof fn lemma_cursor_sequence<T, E>(items: Seq<T>, failure: Option<E>, later: nat)
    ensures
        ({
            let last_pull: Option<Option<Result<T, E>>> = Some(
                match failure {
                    None => None,
                    Some(e) => Some(Err(e)),
                },
            );
            let last_answer: Result<Option<T>, E> = match failure {
                None => Ok(None),
                Some(e) => Err(e),
            };
            cursor_run(
                CursorState::Open,
                yielded::<T, E>(items) + seq![last_pull] + Seq::new(later, |i: int| None),
            ) == (CursorState::Finished, handed_out::<T, E>(items) + seq![last_answer] + Seq::new(
                later,
                |i: int| Ok(None),
            ))
        }),
{
    let last_pull: Option<Option<Result<T, E>>> = Some(
        match failure {
            None => None,
            Some(e) => Some(Err(e)),
        },
    );
    let last_answer: Result<Option<T>, E> = match failure {
        None => Ok(None),
        Some(e) => Err(e),
    };
    let ys = yielded::<T, E>(items);
    let nones = Seq::<Option<Option<Result<T, E>>>>::new(later, |i: int| None);
    lemma_cursor_yields::<T, E>(items);
    lemma_cursor_run_split(CursorState::Open, ys, seq![last_pull]);
    let one = seq![last_pull];
    assert(one.drop_last() =~= Seq::<Option<Option<Result<T, E>>>>::empty());
    assert(one.last() == last_pull);
    assert(cursor_run(CursorState::Open, one.drop_last()) == (CursorState::Open, Seq::<Result<Option<T>, E>>::empty()));
    assert(cursor_step(CursorState::Open, last_pull) == (CursorState::Finished, last_answer));
    assert(Seq::<Result<Option<T>, E>>::empty().push(last_answer) =~= seq![last_answer]);
    assert(cursor_run(CursorState::Open, one) == (CursorState::Finished, seq![last_answer]));
    lemma_cursor_run_split(CursorState::Open, ys + seq![last_pull], nones);
    lemma_cursor_stays_finished::<T, E>(later);
}

} // verus!
