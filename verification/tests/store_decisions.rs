use fossic::store::{
    degraded_event, seeded_cursor, subscription_seed,
    append_if_result, append_result, build_stored_event, check_open_options, collect_batch,
    is_glob_pattern, is_system_stream, prepare_payload, should_dispatch, AppendOutcome,
};
use fossic::{
    SubscribeQuery,
    Append, CheckpointMode, EncryptionMode, EventId, FirstOpenPolicy, FossicError, OpenOptions,
    ReadQuery, Unsupported,
};

fn opts(enc: EncryptionMode, cp: CheckpointMode, first: FirstOpenPolicy) -> OpenOptions {
    OpenOptions {
        encryption: enc,
        checkpoint_mode: cp,
        on_first_open: first,
        default_max_results: None,
        default_max_bytes: None,
    }
}

#[test]
fn open_defaults_create_missing_store() {
    assert!(matches!(check_open_options(&OpenOptions::default(), "a/b.db", false), Ok(true)));
    assert!(matches!(check_open_options(&OpenOptions::default(), "a/b.db", true), Ok(true)));
}

#[test]
fn open_rejects_encryption() {
    let o = opts(EncryptionMode::OsKeyring, CheckpointMode::Auto, FirstOpenPolicy::CreateIfMissing);
    assert!(matches!(
        check_open_options(&o, "x.db", true),
        Err(FossicError::NotImplemented { feature: Unsupported::Encryption })
    ));
    let o = opts(EncryptionMode::EnvVar("K".into()), CheckpointMode::Manual { interval_ms: 5 }, FirstOpenPolicy::CreateIfMissing);
    assert!(matches!(
        check_open_options(&o, "x.db", true),
        Err(FossicError::NotImplemented { feature: Unsupported::Encryption })
    ));
}

#[test]
fn open_rejects_manual_checkpoint() {
    let o = opts(EncryptionMode::Plaintext, CheckpointMode::Manual { interval_ms: 10 }, FirstOpenPolicy::CreateIfMissing);
    assert!(matches!(
        check_open_options(&o, "x.db", true),
        Err(FossicError::NotImplemented { feature: Unsupported::ManualCheckpoint })
    ));
}

#[test]
fn open_require_existing() {
    let o = opts(EncryptionMode::Plaintext, CheckpointMode::Auto, FirstOpenPolicy::RequireExisting);
    match check_open_options(&o, "missing.db", false) {
        Err(FossicError::StoreNotFound { path }) => assert_eq!(path, "missing.db"),
        _ => panic!("expected StoreNotFound"),
    }
    assert!(matches!(check_open_options(&o, "here.db", true), Ok(false)));
}

#[test]
fn system_streams_are_recognised() {
    assert!(is_system_stream("_fossic/system"));
    assert!(is_system_stream("_fossic/"));
    assert!(!is_system_stream("_fossic"));
    assert!(!is_system_stream("my-app/_fossic/x"));
    assert!(!is_system_stream(""));
}

#[test]
fn dispatch_only_new_events_with_subscribers_off_system_streams() {
    assert!(should_dispatch(true, true, "app/events"));
    assert!(!should_dispatch(false, true, "app/events"));
    assert!(!should_dispatch(true, false, "app/events"));
    assert!(!should_dispatch(true, true, "_fossic/system"));
}

#[test]
fn glob_patterns() {
    assert!(is_glob_pattern("test/*"));
    assert!(is_glob_pattern("**"));
    assert!(!is_glob_pattern("test/s"));
}

fn outcome(n: u8, is_new: bool) -> AppendOutcome {
    AppendOutcome {
        event_id: EventId::from_bytes([n; 32]),
        is_new,
        version: n as u64,
        timestamp_us: 1000 + n as i64,
        payload_bytes: vec![n, n],
    }
}

fn append(stream: &str) -> Append {
    Append {
        stream_id: stream.to_string(),
        event_type: "Ping".to_string(),
        causation_id: Some(EventId::from_bytes([9; 32])),
        external_id: Some("ext".to_string()),
        ..Append::default()
    }
}

#[test]
fn stored_event_from_append() {
    let e = build_stored_event(&outcome(3, true), &append("app/s"));
    assert_eq!(e.id, EventId::from_bytes([3; 32]));
    assert_eq!(e.stream_id, "app/s");
    assert_eq!(e.branch, "main");
    assert_eq!(e.version, 3);
    assert_eq!(e.timestamp_us, 1003);
    assert_eq!(e.causation_id, Some(EventId::from_bytes([9; 32])));
    assert_eq!(e.correlation_id, None);
    assert_eq!(e.event_type, "Ping");
    assert_eq!(e.type_version, 1);
    assert_eq!(e.payload, vec![3, 3]);
    assert_eq!(e.external_id.as_deref(), Some("ext"));
}

#[test]
fn batch_ids_in_order_and_dispatch_filtered() {
    let outcomes = vec![outcome(1, true), outcome(2, false), outcome(3, true), outcome(4, true)];
    let appends = vec![append("a/x"), append("a/x"), append("_fossic/system"), append("b/y")];
    let (ids, post) = collect_batch(&outcomes, &appends, true);
    let firsts: Vec<u8> = ids.iter().map(|i| i.0[0]).collect();
    assert_eq!(firsts, vec![1, 2, 3, 4]);
    let sent: Vec<u64> = post.iter().map(|e| e.version).collect();
    assert_eq!(sent, vec![1, 4]);
    let (_, none) = collect_batch(&outcomes, &appends, false);
    assert!(none.is_empty());
}

#[test]
fn empty_batch() {
    let (ids, post) = collect_batch(&Vec::new(), &Vec::new(), true);
    assert!(ids.is_empty() && post.is_empty());
}

#[test]
fn payload_round_trips_through_msgpack() {
    let payload = serde_json::Value::from(vec![1, 2, 3]);
    let (value, bytes) = prepare_payload(&payload, Ok).unwrap();
    assert_eq!(value, payload);
    assert_eq!(bytes, rmp_serde::to_vec(&payload).unwrap());
    let decoded: serde_json::Value = rmp_serde::from_slice(&bytes).unwrap();
    assert_eq!(decoded, payload);
}

#[test]
fn append_defaults() {
    let a = Append::default();
    assert_eq!(a.branch, "main");
    assert_eq!(a.type_version, 1);
    assert!(a.stream_id.is_empty() && a.event_type.is_empty());
    assert_eq!(a.payload, serde_json::Value::Null);
    assert!(a.causation_id.is_none() && a.timestamp_us.is_none());
}

#[test]
fn read_query_for_stream() {
    let q = ReadQuery::stream("my/stream".to_string());
    assert_eq!(q.stream_id, "my/stream");
    assert_eq!(q.branch, "main");
    assert!(q.from_version.is_none() && q.to_version.is_none() && q.limit.is_none());
    assert!(q.event_type_filter.is_none());
}

#[test]
fn open_options_defaults() {
    let o = OpenOptions::default();
    assert!(matches!(o.encryption, EncryptionMode::Plaintext));
    assert!(matches!(o.checkpoint_mode, CheckpointMode::Auto));
    assert!(matches!(o.on_first_open, FirstOpenPolicy::CreateIfMissing));
    assert!(o.default_max_results.is_none() && o.default_max_bytes.is_none());
}

#[test]
fn open_refuses_per_stream_encryption_for_now() {
    let o = opts(EncryptionMode::PerStream, CheckpointMode::Auto, FirstOpenPolicy::CreateIfMissing);
    assert!(matches!(
        check_open_options(&o, "x.db", true),
        Err(FossicError::NotImplemented { feature: Unsupported::Encryption })
    ));
}

#[test]
fn single_append_returns_id_and_dispatches_new_events() {
    let (id, post) = append_result(&outcome(5, true), &append("app/s"), true);
    assert_eq!(id, EventId::from_bytes([5; 32]));
    let e = post.expect("a new event with subscribers is dispatched");
    assert_eq!(e.version, 5);
    assert_eq!(e.stream_id, "app/s");
    let (id, post) = append_result(&outcome(6, false), &append("app/s"), true);
    assert_eq!(id, EventId::from_bytes([6; 32]));
    assert!(post.is_none());
    assert!(append_result(&outcome(7, true), &append("_fossic/system"), true).1.is_none());
    assert!(append_result(&outcome(7, true), &append("app/s"), false).1.is_none());
}

#[test]
fn refused_conditional_append_writes_and_dispatches_nothing() {
    let (id, post) = append_if_result(&None, &append("app/s"), true);
    assert!(id.is_none() && post.is_none());
    let (id, post) = append_if_result(&Some(outcome(8, true)), &append("app/s"), true);
    assert_eq!(id, Some(EventId::from_bytes([8; 32])));
    assert_eq!(post.map(|e| e.version), Some(8));
}

#[test]
fn degraded_record_goes_after_the_last_system_event() {
    let e = degraded_event(7, "app/s", "b1", 42, Some(3)).unwrap();
    assert_eq!(e.stream_id, "_fossic/system");
    assert_eq!(e.branch, "main");
    assert_eq!(e.version, 4);
    assert_eq!(e.event_type, "SubscriptionDegraded");
    assert_eq!(e.type_version, 1);
    assert_eq!(e.subscription_id, 7);
    assert_eq!(e.source_stream_id, "app/s");
    assert_eq!(e.source_branch, "b1");
    assert_eq!(e.dropped_version, 42);
    assert_eq!(degraded_event(1, "s", "main", 0, None).unwrap().version, 0);
    assert!(degraded_event(1, "s", "main", 0, Some(u64::MAX)).is_none());
}

fn sub(pattern: &str) -> SubscribeQuery {
    SubscribeQuery { stream_pattern: pattern.to_string(), branch: "main".to_string(), include_system: false }
}

#[test]
fn exact_subscription_starts_after_the_stream_head() {
    let s = subscription_seed(&sub("app/s"), Some(9), &Vec::new(), &Vec::new());
    assert_eq!(s.cursor, 9);
    assert!(s.stream_cursors.is_empty());
    assert_eq!(subscription_seed(&sub("app/s"), None, &Vec::new(), &Vec::new()).cursor, -1);
}

#[test]
fn glob_subscription_seeds_each_matching_stream() {
    let rows = vec![("events/user".to_string(), 3), ("metrics/host".to_string(), 8), ("events/system".to_string(), 0)];
    let matched = vec![true, false, true];
    let s = subscription_seed(&sub("events/*"), Some(99), &rows, &matched);
    assert_eq!(s.cursor, -1);
    assert_eq!(
        s.stream_cursors,
        vec![
            ("events/user".to_string(), "main".to_string(), 3),
            ("events/system".to_string(), "main".to_string(), 0),
        ]
    );
}

#[test]
fn payload_transforms_run_before_the_id_value_is_decoded() {
    let payload = serde_json::Value::from("secret");
    let replacement = serde_json::Value::from("redacted");
    let replaced = rmp_serde::to_vec(&replacement).unwrap();
    let expected = replaced.clone();
    let (value, bytes) = prepare_payload(&payload, move |_raw: Vec<u8>| Ok(replaced.clone())).unwrap();
    assert_eq!(value, replacement);
    assert_eq!(bytes, expected);
    let refused = prepare_payload(&payload, |_raw: Vec<u8>| Err(FossicError::ReducerFailed("no".into())));
    assert!(matches!(refused, Err(FossicError::ReducerFailed(_))));
    let garbage = prepare_payload(&payload, |_raw: Vec<u8>| Ok(vec![0xc1]));
    assert!(matches!(garbage, Err(FossicError::MsgpackDecode(_))));
}

#[test]
fn seeded_cursors_skip_committed_events() {
    let rows = vec![("events/user".to_string(), 3), ("events/system".to_string(), 0)];
    let seed = subscription_seed(&sub("events/*"), None, &rows, &vec![true, true]);
    assert_eq!(seeded_cursor(&seed, true, "events/user", "main"), 3);
    assert_eq!(seeded_cursor(&seed, true, "events/system", "main"), 0);
    // a stream created after subscribing starts before version 0
    assert_eq!(seeded_cursor(&seed, true, "events/new", "main"), -1);
    assert_eq!(seeded_cursor(&seed, true, "events/user", "b1"), -1);
    let exact = subscription_seed(&sub("app/s"), Some(5), &Vec::new(), &Vec::new());
    assert_eq!(seeded_cursor(&exact, false, "app/s", "main"), 5);
}
