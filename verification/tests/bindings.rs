use fossic::bindings::{
    append_from_js, create_branch_from_js, event_id_from_slice, parse_direction,
    parse_open_options, parse_sampling_mode, read_query_from_js, subscribe_query_from_js,
    AppendJs, CreateBranchJs, OpenOptionsJs, ReadQueryJs, SamplingMode, SamplingModeJs,
    SubscribeQueryJs,
};
use fossic::{
    EncryptionMode, EventId, FirstOpenPolicy, FossicError, InvalidArgument, InvalidEventId, SubscriptionMode,
    WalkDirection,
};

#[test]
fn event_id_from_raw_bytes() {
    let id = event_id_from_slice(&[7u8; 32]).unwrap();
    assert_eq!(id, EventId::from_bytes([7; 32]));
    assert!(matches!(
        event_id_from_slice(&[1, 2, 3]),
        Err(FossicError::InvalidArgument(InvalidArgument::EventIdLength(3)))
    ));
}

#[test]
fn directions_by_name() {
    assert!(matches!(parse_direction("forward"), Ok(WalkDirection::Forward)));
    assert!(matches!(parse_direction("Forward"), Ok(WalkDirection::Forward)));
    assert!(matches!(parse_direction("backward"), Ok(WalkDirection::Backward)));
    assert!(matches!(parse_direction("Backward"), Ok(WalkDirection::Backward)));
    assert!(matches!(parse_direction("both"), Ok(WalkDirection::Both)));
    assert!(matches!(parse_direction("Both"), Ok(WalkDirection::Both)));
    match parse_direction("sideways") {
        Err(FossicError::InvalidArgument(InvalidArgument::UnknownDirection(s))) => assert_eq!(s, "sideways"),
        _ => panic!("expected UnknownDirection"),
    }
}

#[test]
fn sampling_modes() {
    assert!(matches!(parse_sampling_mode(None), SamplingMode::Exhaustive));
    let bf = SamplingModeJs { kind: "breadthFirst".into(), max_per_level: Some(7), target_count: None };
    assert!(matches!(parse_sampling_mode(Some(bf)), SamplingMode::BreadthFirst { max_per_level: 7 }));
    let bf = SamplingModeJs { kind: "breadthFirst".into(), max_per_level: None, target_count: None };
    assert!(matches!(parse_sampling_mode(Some(bf)), SamplingMode::BreadthFirst { max_per_level: 100 }));
    let ad = SamplingModeJs { kind: "adaptive".into(), max_per_level: None, target_count: Some(3) };
    assert!(matches!(parse_sampling_mode(Some(ad)), SamplingMode::Adaptive { target_count: 3 }));
    let other = SamplingModeJs { kind: "other".into(), max_per_level: Some(1), target_count: Some(1) };
    assert!(matches!(parse_sampling_mode(Some(other)), SamplingMode::Exhaustive));
}

#[test]
fn open_options_by_name() {
    let d = parse_open_options(None).unwrap();
    assert!(matches!(d.encryption, EncryptionMode::Plaintext));
    assert!(d.default_max_results.is_none() && d.default_max_bytes.is_none());
    let o = parse_open_options(Some(OpenOptionsJs {
        encryption: Some("plaintext".into()),
        checkpoint_mode: None,
        on_first_open: Some("fail_if_not_found".into()),
        default_max_results: Some(50),
        default_max_bytes: Some(4096),
    }))
    .unwrap();
    assert!(matches!(o.on_first_open, FirstOpenPolicy::RequireExisting));
    assert!(matches!(o.encryption, EncryptionMode::Plaintext));
    assert_eq!(o.default_max_results, Some(50));
    assert_eq!(o.default_max_bytes, Some(4096));
    let per = parse_open_options(Some(OpenOptionsJs {
        encryption: Some("per_stream".into()),
        checkpoint_mode: None,
        on_first_open: None,
        default_max_results: None,
        default_max_bytes: None,
    }))
    .unwrap();
    assert!(matches!(per.encryption, EncryptionMode::PerStream));
    assert!(matches!(per.on_first_open, FirstOpenPolicy::CreateIfMissing));
    let bad = parse_open_options(Some(OpenOptionsJs {
        encryption: Some("os_keyring".into()),
        checkpoint_mode: None,
        on_first_open: None,
        default_max_results: None,
        default_max_bytes: None,
    }));
    assert!(matches!(bad, Err(FossicError::InvalidArgument(InvalidArgument::UnknownEncryption(_)))));
    let bad = parse_open_options(Some(OpenOptionsJs {
        encryption: None,
        checkpoint_mode: None,
        on_first_open: Some("never".into()),
        default_max_results: None,
        default_max_bytes: None,
    }));
    assert!(matches!(bad, Err(FossicError::InvalidArgument(InvalidArgument::UnknownFirstOpenPolicy(_)))));
}

#[test]
fn append_request_defaults_and_ids() {
    let hex = EventId::from_bytes([0xab; 32]).to_hex();
    let a = append_from_js(AppendJs {
        stream_id: "s".into(),
        event_type: "T".into(),
        payload: serde_json::Value::Bool(true),
        type_version: None,
        causation_id: Some(hex.to_uppercase()),
        correlation_id: None,
        external_id: None,
        indexed_tags: None,
    })
    .unwrap();
    assert_eq!(a.type_version, 1);
    assert_eq!(a.branch, "main");
    assert_eq!(a.causation_id, Some(EventId::from_bytes([0xab; 32])));
    assert!(a.correlation_id.is_none());
    let bad = append_from_js(AppendJs {
        stream_id: "s".into(),
        event_type: "T".into(),
        payload: serde_json::Value::Null,
        type_version: Some(3),
        causation_id: None,
        correlation_id: Some("xyz".into()),
        external_id: None,
        indexed_tags: None,
    });
    assert!(matches!(bad, Err(FossicError::InvalidEventId(InvalidEventId::WrongLength(3)))));
}

#[test]
fn read_query_request() {
    let q = read_query_from_js(ReadQueryJs {
        stream_id: "s".into(),
        branch: None,
        from_version: Some(2),
        to_version: None,
        limit: Some(10),
        event_type_filter: Some("Alpha".into()),
    });
    assert_eq!(q.branch, "main");
    assert_eq!(q.from_version, Some(2));
    assert_eq!(q.limit, Some(10));
    assert_eq!(q.event_type_filter.as_deref(), Some("Alpha"));
}

#[test]
fn create_branch_request() {
    let b = create_branch_from_js(CreateBranchJs {
        stream_id: "s".into(),
        branch_id: "b1".into(),
        parent_id: None,
        parent_version: 1,
        description: None,
    });
    assert_eq!(b.parent_id, "main");
    assert_eq!(b.parent_version, 1);
    assert!(b.alternatives.is_none());
}

#[test]
fn subscribe_request_defaults() {
    let (q, mode) = subscribe_query_from_js(SubscribeQueryJs {
        stream_pattern: "app/*".into(),
        branch: None,
        include_system: None,
        queue_size: None,
    });
    assert_eq!(q.branch, "main");
    assert!(!q.include_system);
    assert!(matches!(mode, SubscriptionMode::PostCommit { queue_size: 1024 }));
}
