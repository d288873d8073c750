use fossic::cross_stream::{read_by_correlation, sort_by_timestamp, walk_causation};
use fossic::{AggregateQuery, EventId, StoredEvent, WalkDirection};

fn id(n: u8) -> EventId {
    EventId::from_bytes([n; 32])
}

fn ev(n: u8, ts: i64, cause: Option<u8>, corr: Option<u8>) -> StoredEvent {
    StoredEvent {
        id: id(n),
        stream_id: "s".to_string(),
        branch: "main".to_string(),
        version: n as u64,
        timestamp_us: ts,
        causation_id: cause.map(id),
        correlation_id: corr.map(id),
        event_type: "T".to_string(),
        type_version: 1,
        payload: vec![n],
        external_id: None,
        indexed_tags: None,
    }
}

/// 1 -> 2 -> 4, 1 -> 3 -> 5, 5 -> 6; 7 stands apart.
fn table() -> Vec<StoredEvent> {
    vec![
        ev(6, 60, Some(5), None),
        ev(1, 10, None, Some(1)),
        ev(3, 25, Some(1), Some(1)),
        ev(2, 30, Some(1), Some(1)),
        ev(4, 40, Some(2), None),
        ev(5, 35, Some(3), Some(1)),
        ev(7, 5, None, None),
    ]
}

fn ids(v: &[StoredEvent]) -> Vec<u8> {
    v.iter().map(|e| e.id.0[0]).collect()
}

#[test]
fn forward_walk_by_depth_then_timestamp() {
    let out = walk_causation(&table(), id(1), WalkDirection::Forward, usize::MAX);
    // depth 1: 3 (ts 25), 2 (ts 30); depth 2: 5 (35), 4 (40); depth 3: 6
    assert_eq!(ids(&out), vec![3, 2, 5, 4, 6]);
}

#[test]
fn forward_walk_respects_max_depth() {
    let out = walk_causation(&table(), id(1), WalkDirection::Forward, 1);
    assert_eq!(ids(&out), vec![3, 2]);
    let none = walk_causation(&table(), id(1), WalkDirection::Forward, 0);
    assert!(none.is_empty());
}

#[test]
fn backward_walk_follows_ancestors() {
    let out = walk_causation(&table(), id(6), WalkDirection::Backward, 10);
    assert_eq!(ids(&out), vec![5, 3, 1]);
    let two = walk_causation(&table(), id(6), WalkDirection::Backward, 2);
    assert_eq!(ids(&two), vec![5, 3]);
}

#[test]
fn walk_from_unknown_event_is_empty() {
    assert!(walk_causation(&table(), id(99), WalkDirection::Both, 5).is_empty());
}

#[test]
fn both_directions_by_minimum_depth() {
    let out = walk_causation(&table(), id(3), WalkDirection::Both, 5);
    // depth 1: ancestor 1 (ts 10) and descendant 5 (ts 35); depth 2: descendant 6
    assert_eq!(ids(&out), vec![1, 5, 6]);
    let from_two = walk_causation(&table(), id(2), WalkDirection::Both, 5);
    // depth 1: 1 (ts 10), 4 (ts 40)
    assert_eq!(ids(&from_two), vec![1, 4]);
}

#[test]
fn both_directions_is_the_union_of_both_walks() {
    let t = table();
    for start in 1..=7u8 {
        let mut both = ids(&walk_causation(&t, id(start), WalkDirection::Both, 3));
        let mut union = ids(&walk_causation(&t, id(start), WalkDirection::Forward, 3));
        for i in ids(&walk_causation(&t, id(start), WalkDirection::Backward, 3)) {
            if !union.contains(&i) {
                union.push(i);
            }
        }
        both.sort();
        union.sort();
        assert_eq!(both, union);
    }
}

#[test]
fn both_directions_in_a_cycle_once_each() {
    // 10 -> 11 -> 10 (a cycle)
    let t = vec![ev(10, 1, Some(11), None), ev(11, 2, Some(10), None)];
    let out = walk_causation(&t, id(10), WalkDirection::Both, 5);
    assert_eq!(ids(&out), vec![11, 10]);
}

#[test]
fn correlation_read_is_sorted_by_timestamp() {
    let out = read_by_correlation(&table(), id(1));
    assert_eq!(ids(&out), vec![1, 3, 2, 5]);
    assert!(read_by_correlation(&table(), id(42)).is_empty());
}

#[test]
fn sort_keeps_all_events() {
    let sorted = sort_by_timestamp(table());
    let ts: Vec<i64> = sorted.iter().map(|e| e.timestamp_us).collect();
    assert_eq!(ts, vec![5, 10, 25, 30, 35, 40, 60]);
}

#[test]
fn aggregate_query_defaults() {
    let q = AggregateQuery::default();
    assert_eq!(q.stream_pattern, "*");
    assert_eq!(q.branch, "main");
    assert!(q.event_type_filter.is_none());
    assert!(q.from_timestamp_us.is_none());
    assert!(q.to_timestamp_us.is_none());
}
