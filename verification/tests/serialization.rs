use fossic::serialization::{SerializedBranchInfo, SerializedEvent, SerializedStreamInfo};
use fossic::similarity::{check_embedding_len, check_index_dimensions};
use fossic::{BranchInfo, EventId, FossicError, StoredEvent, StreamInfo};

#[test]
fn stored_event_serialized_with_hex_ids_and_json_payload() {
    let payload = serde_json::Value::from("hello");
    let e = StoredEvent {
        id: EventId::from_bytes([1; 32]),
        stream_id: "s".into(),
        branch: "main".into(),
        version: 4,
        timestamp_us: 99,
        causation_id: Some(EventId::from_bytes([2; 32])),
        correlation_id: None,
        event_type: "T".into(),
        type_version: 2,
        payload: rmp_serde::to_vec(&payload).unwrap(),
        external_id: None,
        indexed_tags: None,
    };
    let s = SerializedEvent::from_stored(&e);
    assert_eq!(s.id, "01".repeat(32));
    assert_eq!(s.causation_id, Some("02".repeat(32)));
    assert!(s.correlation_id.is_none());
    assert_eq!(s.payload, payload);
    assert_eq!(s.version, 4);
    let mut broken = e.clone();
    broken.payload = vec![0xc1];
    assert_eq!(SerializedEvent::from_stored(&broken).payload, serde_json::Value::Null);
}

#[test]
fn stream_and_branch_info_conversions() {
    let s: SerializedStreamInfo = StreamInfo {
        id: "a".into(),
        declared_by: "me".into(),
        declared_at: 5,
        description: Some("d".into()),
    }
    .into();
    assert_eq!(s.id, "a");
    assert_eq!(s.declared_by, "me");
    assert_eq!(s.declared_at, 5);
    let b: SerializedBranchInfo = BranchInfo {
        id: "b1".into(),
        stream_id: "s".into(),
        parent_id: "main".into(),
        parent_version: 3,
        description: None,
        created_at: 7,
        lifecycle: "ephemeral".into(),
        closed_at: None,
        closed_reason: None,
        alternatives: Some(serde_json::Value::Null),
    }
    .into();
    assert_eq!(b.id, "b1");
    assert_eq!(b.parent_version, 3);
    assert_eq!(b.lifecycle, "ephemeral");
}

#[test]
fn similarity_dimension_checks() {
    assert!(matches!(
        check_index_dimensions(0),
        Err(FossicError::InvalidDimensions { expected: 1, got: 0 })
    ));
    assert!(check_index_dimensions(4).is_ok());
    assert!(check_embedding_len(4, 4).is_ok());
    assert!(matches!(
        check_embedding_len(4, 3),
        Err(FossicError::InvalidDimensions { expected: 4, got: 3 })
    ));
}
