use fossic::delivery::Observation::{Caller, Closed, Event, EventsGone, NoCaller, TimedOut};
use fossic::delivery::{
    cursor_next, dispatch_step, CursorState, DispatchAction, DispatchState, Observation,
};

fn run(obs: &[Observation]) -> (DispatchState, Vec<DispatchAction>) {
    let mut s = DispatchState::AwaitingCaller;
    let mut actions = Vec::new();
    for o in obs {
        let (next, a) = dispatch_step(s, *o);
        actions.push(a);
        s = next;
    }
    (s, actions)
}

#[test]
fn each_caller_gets_one_event() {
    let (s, actions) = run(&[
        Caller { closed: false },
        TimedOut,
        Event,
        Caller { closed: false },
        Event,
    ]);
    assert_eq!(s, DispatchState::AwaitingCaller);
    assert_eq!(
        actions,
        vec![
            DispatchAction::Nothing,
            DispatchAction::Nothing,
            DispatchAction::Deliver,
            DispatchAction::Nothing,
            DispatchAction::Deliver,
        ]
    );
}

#[test]
fn closing_answers_waiting_callers_with_done() {
    let (s, actions) = run(&[
        Caller { closed: false },
        Closed,
        Caller { closed: true },
        Caller { closed: true },
        NoCaller,
    ]);
    assert_eq!(s, DispatchState::Stopped);
    assert_eq!(
        actions,
        vec![
            DispatchAction::Nothing,
            DispatchAction::AnswerDone,
            DispatchAction::AnswerDone,
            DispatchAction::AnswerDone,
            DispatchAction::Nothing,
        ]
    );
}

#[test]
fn caller_after_close_is_answered_at_once() {
    let (s, actions) = run(&[Caller { closed: true }]);
    assert_eq!(s, DispatchState::AwaitingCaller);
    assert_eq!(actions, vec![DispatchAction::AnswerDone]);
}

#[test]
fn lost_event_source_drains() {
    let (s, actions) = run(&[Caller { closed: false }, EventsGone, NoCaller]);
    assert_eq!(s, DispatchState::Stopped);
    assert_eq!(
        actions,
        vec![DispatchAction::Nothing, DispatchAction::AnswerDone, DispatchAction::Nothing]
    );
}

#[test]
fn no_callers_stops_the_loop() {
    let (s, actions) = run(&[Observation::NoCaller]);
    assert_eq!(s, DispatchState::Stopped);
    assert_eq!(actions, vec![DispatchAction::Nothing]);
}

#[test]
fn cursor_finishes_on_end_and_on_error() {
    let (s, r) = cursor_next::<u32, String>(CursorState::Open, Some(Some(Ok(7))));
    assert_eq!(s, CursorState::Open);
    assert_eq!(r, Ok(Some(7)));
    let (s, r) = cursor_next::<u32, String>(CursorState::Open, Some(None));
    assert_eq!(s, CursorState::Finished);
    assert_eq!(r, Ok(None));
    let (s, r) = cursor_next::<u32, String>(CursorState::Open, Some(Some(Err("boom".into()))));
    assert_eq!(s, CursorState::Finished);
    assert_eq!(r, Err("boom".to_string()));
    let (s, r) = cursor_next::<u32, String>(CursorState::Finished, None);
    assert_eq!(s, CursorState::Finished);
    assert_eq!(r, Ok(None));
}

#[test]
fn kth_event_goes_to_kth_open_caller() {
    // two callers register while open, then one after close
    let obs = [
        Caller { closed: false },
        Event,
        Caller { closed: false },
        TimedOut,
        Event,
        Caller { closed: true },
    ];
    let (_, actions) = run(&obs);
    let delivered_at: Vec<usize> =
        actions.iter().enumerate().filter(|(_, a)| **a == DispatchAction::Deliver).map(|(i, _)| i).collect();
    assert_eq!(delivered_at, vec![1, 4]);
    assert_eq!(actions[5], DispatchAction::AnswerDone);
}
