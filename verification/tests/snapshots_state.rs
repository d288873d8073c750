use fossic::reducers::{plan_snapshot, replay_events, resume_version, state_from_snapshot, SnapshotStep};
use fossic::{DynReducer, EventId, FossicError, StoredEvent};

/// State: [count, sum] as bytes; payload: one byte added to the sum.
struct CountReducer;

impl DynReducer for CountReducer {
    fn name(&self) -> &str {
        "count_reducer"
    }
    fn version(&self) -> u32 {
        1
    }
    fn state_schema_version(&self) -> u32 {
        1
    }
    fn initial_state_bytes(&self) -> Result<Vec<u8>, FossicError> {
        Ok(vec![0, 0])
    }
    fn apply_bytes(&self, state: &[u8], payload: &[u8]) -> Result<Vec<u8>, FossicError> {
        if payload.is_empty() {
            return Err(FossicError::ReducerFailed("empty payload".to_string()));
        }
        Ok(vec![state[0] + 1, state[1] + payload[0]])
    }
}

fn ev(version: u64, value: u8) -> StoredEvent {
    StoredEvent {
        id: EventId::from_bytes([version as u8; 32]),
        stream_id: "test/s".to_string(),
        branch: "main".to_string(),
        version,
        timestamp_us: version as i64,
        causation_id: None,
        correlation_id: None,
        event_type: "Count".to_string(),
        type_version: 1,
        payload: vec![value],
        external_id: None,
        indexed_tags: None,
    }
}

fn events(values: &[u8]) -> Vec<StoredEvent> {
    values.iter().enumerate().map(|(i, v)| ev(i as u64, *v)).collect()
}

#[test]
fn replay_folds_in_order() {
    let s = replay_events(&CountReducer, vec![0, 0], &events(&[1, 2, 3])).unwrap();
    assert_eq!(s, vec![3, 6]);
}

#[test]
fn replay_stops_on_reducer_failure() {
    let mut evs = events(&[1, 2]);
    evs[1].payload.clear();
    assert!(matches!(
        replay_events(&CountReducer, vec![0, 0], &evs),
        Err(FossicError::ReducerFailed(_))
    ));
}

#[test]
fn state_through_snapshot_equals_state_from_scratch() {
    let all = events(&[1, 2, 3, 4, 5]);
    let scratch = state_from_snapshot(&CountReducer, None, &all).unwrap();
    assert_eq!(scratch, vec![5, 15]);
    // snapshot after the first three events (version 2)
    let first: Vec<StoredEvent> = all[..3].to_vec();
    let snap = replay_events(&CountReducer, vec![0, 0], &first).unwrap();
    let rest: Vec<StoredEvent> = all[3..].to_vec();
    let resumed = state_from_snapshot(&CountReducer, Some((2, snap.clone())), &rest).unwrap();
    assert_eq!(resumed, scratch);
    assert_eq!(resume_version(&Some((2, snap))), 3);
    assert_eq!(resume_version(&None), 0);
}

#[test]
fn plan_snapshot_writes_last_version_and_state() {
    match plan_snapshot(&CountReducer, "test/s", "main", None, &events(&[1, 2, 3])).unwrap() {
        SnapshotStep::Write { version, state } => {
            assert_eq!(version, 2);
            assert_eq!(state, vec![3, 6]);
        }
        SnapshotStep::KeepExisting => panic!("expected a write"),
    }
}

#[test]
fn plan_snapshot_without_events_or_prior_fails() {
    match plan_snapshot(&CountReducer, "test/s", "main", None, &Vec::new()) {
        Err(FossicError::NoEventsToSnapshot { stream_id, branch }) => {
            assert_eq!(stream_id, "test/s");
            assert_eq!(branch, "main");
        }
        _ => panic!("expected NoEventsToSnapshot"),
    }
}

#[test]
fn plan_snapshot_without_new_events_keeps_existing() {
    let step = plan_snapshot(&CountReducer, "test/s", "main", Some((0, vec![1, 42])), &Vec::new()).unwrap();
    assert!(matches!(step, SnapshotStep::KeepExisting));
}

#[test]
fn plan_snapshot_resumes_from_prior() {
    let step = plan_snapshot(&CountReducer, "test/s", "main", Some((0, vec![1, 10])), &vec![ev(1, 5)]).unwrap();
    match step {
        SnapshotStep::Write { version, state } => {
            assert_eq!(version, 1);
            assert_eq!(state, vec![2, 15]);
        }
        SnapshotStep::KeepExisting => panic!("expected a write"),
    }
}
