use intdb::{
    EngineConfig, Flow, Hop, MetricCondition, NetworkPath, PathCondition, QueryBuilder,
    StorageEngine, StorageError, TimeCondition,
};

// A fixed reference instant, epoch milliseconds (2022-01-01 00:00:00 UTC,
// a bucket edge for the default 60-second buckets).
const T0: i64 = 1_640_995_200_000;

fn flow_with_metrics(
    flow_id: &str,
    switches: &[&str],
    start_time: i64,
    queue_util: u64,
    delay_ns: u64,
) -> Flow {
    let hops: Vec<Hop> = switches
        .iter()
        .enumerate()
        .map(|(i, switch)| {
            Hop::with_basic_metrics(
                i as u32,
                switch.to_string(),
                start_time + (i as i64) * 10,
                queue_util,
                delay_ns,
            )
        })
        .collect();
    Flow::new(flow_id.to_string(), hops).unwrap()
}

fn create_test_flow(flow_id: &str, switches: &[&str], start_time: i64) -> Flow {
    flow_with_metrics(flow_id, switches, start_time, 100_000, 100)
}

fn three_flow_engine() -> StorageEngine {
    let mut engine = StorageEngine::new();
    engine
        .insert_flow(create_test_flow("f1", &["s1", "s2", "s3"], T0))
        .unwrap();
    engine
        .insert_flow(create_test_flow("f2", &["s1", "s2", "s4"], T0 + 60_000))
        .unwrap();
    engine
        .insert_flow(create_test_flow("f3", &["s2", "s3", "s4"], T0 + 120_000))
        .unwrap();
    engine
}

#[test]
fn test_insert_and_get_round_trip() {
    let mut engine = StorageEngine::new();
    let flow = create_test_flow("f1", &["s1", "s2"], T0);
    engine.insert_flow(flow.clone()).unwrap();

    let got = engine.get_flow("f1").unwrap();
    assert_eq!(got.flow_id, flow.flow_id);
    assert_eq!(got.hops.len(), flow.hops.len());
    assert_eq!(got.start_time, flow.start_time);
    assert_eq!(got.end_time, flow.end_time);
    assert_eq!(got.path.switches, flow.path.switches);
    assert_eq!(engine.flow_count(), 1);
    assert!(engine.get_flow("missing").is_none());
}

#[test]
fn test_exact_path_hit() {
    // Query by exact path returns only the matching flow.
    let engine = three_flow_engine();
    let query = QueryBuilder::exact_path(NetworkPath::from_switches(&["s1", "s2", "s3"]));
    let result = engine.query_at(&query, T0 + 600_000).unwrap();
    assert_eq!(result.total_count, 1);
    assert_eq!(result.flow_ids, vec!["f1".to_string()]);
}

#[test]
fn test_through_switch_ordering() {
    // All three flows pass through s2; most recent start time first.
    let engine = three_flow_engine();
    let query = QueryBuilder::through_switch("s2");
    let result = engine.query_at(&query, T0 + 600_000).unwrap();
    assert_eq!(result.total_count, 3);
    assert_eq!(
        result.flow_ids,
        vec!["f3".to_string(), "f2".to_string(), "f1".to_string()]
    );
}

#[test]
fn test_compound_query() {
    // Path and metric conditions combine with AND.
    let mut engine = StorageEngine::new();
    engine
        .insert_flow(flow_with_metrics("f1", &["s1", "s2", "s3"], T0, 900_000, 100))
        .unwrap();
    engine
        .insert_flow(flow_with_metrics("f2", &["s1", "s2", "s4"], T0 + 60_000, 100_000, 100))
        .unwrap();
    engine
        .insert_flow(flow_with_metrics("f3", &["s2", "s3", "s4"], T0 + 120_000, 100_000, 100))
        .unwrap();

    let query = QueryBuilder::through_switch("s2")
        .with_metric_condition(MetricCondition::MaxQueueUtilGreaterThan(800_000));
    let result = engine.query_at(&query, T0 + 600_000).unwrap();
    assert_eq!(result.total_count, 1);
    assert_eq!(result.flow_ids, vec!["f1".to_string()]);
}

#[test]
fn test_time_range_with_bucket_crossing() {
    // Flows at T0+5s and T0+65s; the range (T0+10s, T0+70s] keeps only
    // the second: the bucket scan over-approximates and the residual
    // filter corrects it.
    let mut engine = StorageEngine::new();
    engine
        .insert_flow(create_test_flow("early", &["s1", "s2"], T0 + 5_000))
        .unwrap();
    engine
        .insert_flow(create_test_flow("late", &["s3", "s4"], T0 + 65_000))
        .unwrap();

    let query = QueryBuilder::in_time_range(T0 + 10_000, T0 + 70_000);
    let result = engine.query_at(&query, T0 + 600_000).unwrap();
    assert_eq!(result.total_count, 1);
    assert_eq!(result.flow_ids, vec!["late".to_string()]);
}

#[test]
fn test_bucket_edge_bounds_lose_nothing() {
    // Bounds exactly on bucket edges return every matching flow.
    let mut engine = StorageEngine::new();
    engine
        .insert_flow(create_test_flow("a", &["s1"], T0))
        .unwrap();
    engine
        .insert_flow(create_test_flow("b", &["s2"], T0 + 59_999))
        .unwrap();
    engine
        .insert_flow(create_test_flow("c", &["s3"], T0 + 60_000))
        .unwrap();

    let query = QueryBuilder::in_time_range(T0, T0 + 60_000);
    let result = engine.query_at(&query, T0 + 600_000).unwrap();
    assert_eq!(result.total_count, 3);
}

#[test]
fn test_append_semantics() {
    // Inserting an existing id appends renumbered hops, widens the time
    // bounds and extends the path; the flow count is unchanged.
    let mut engine = StorageEngine::new();
    let first = Flow::new(
        "f1".to_string(),
        vec![
            Hop::with_basic_metrics(0, "s1".to_string(), T0, 100_000, 100),
            Hop::with_basic_metrics(1, "s2".to_string(), T0 + 10, 200_000, 200),
        ],
    )
    .unwrap();
    let second = Flow::new(
        "f1".to_string(),
        vec![Hop::with_basic_metrics(0, "s3".to_string(), T0 + 20, 300_000, 300)],
    )
    .unwrap();

    engine.insert_flow(first).unwrap();
    engine.insert_flow(second).unwrap();

    let merged = engine.get_flow("f1").unwrap();
    assert_eq!(merged.hops.len(), 3);
    assert_eq!(
        merged.hops.iter().map(|h| h.hop_index).collect::<Vec<_>>(),
        vec![0, 1, 2]
    );
    assert_eq!(merged.path.switches, vec!["s1", "s2", "s3"]);
    assert_eq!(merged.start_time, T0);
    assert_eq!(merged.end_time, T0 + 20);
    assert_eq!(engine.flow_count(), 1);
}

#[test]
fn test_reinsert_same_flow_appends() {
    // Re-inserting an equal flow value appends a renumbered copy of its
    // hops instead of replacing the flow.
    let mut engine = StorageEngine::new();
    let flow = create_test_flow("f1", &["s1", "s2"], T0);
    engine.insert_flow(flow.clone()).unwrap();
    engine.insert_flow(flow).unwrap();

    let stored = engine.get_flow("f1").unwrap();
    assert_eq!(engine.flow_count(), 1);
    assert_eq!(stored.hops.len(), 4);
    assert_eq!(
        stored.hops.iter().map(|h| h.hop_index).collect::<Vec<_>>(),
        vec![0, 1, 2, 3]
    );
    assert_eq!(stored.hops[2].switch_id, "s1");
    assert_eq!(stored.hops[3].switch_id, "s2");
    // The path keeps first occurrences only.
    assert_eq!(stored.path.switches, vec!["s1", "s2"]);
}

#[test]
fn test_append_is_queryable_under_new_switch() {
    // After an append, the new switch is found through the index.
    let mut engine = StorageEngine::new();
    engine
        .insert_flow(create_test_flow("f1", &["s1", "s2"], T0))
        .unwrap();
    let extension = Flow::new(
        "f1".to_string(),
        vec![Hop::with_basic_metrics(0, "s9".to_string(), T0 + 50, 100_000, 100)],
    )
    .unwrap();
    engine.insert_flow(extension).unwrap();

    let query = QueryBuilder::through_switch("s9");
    let result = engine.query_at(&query, T0 + 600_000).unwrap();
    assert_eq!(result.flow_ids, vec!["f1".to_string()]);
}

#[test]
fn test_length_predicate_without_index_support() {
    // A length range is answered by the residual filter alone.
    let mut engine = StorageEngine::new();
    engine
        .insert_flow(create_test_flow("len2", &["s1", "s2"], T0))
        .unwrap();
    engine
        .insert_flow(create_test_flow("len3", &["s1", "s2", "s3"], T0 + 1_000))
        .unwrap();
    engine
        .insert_flow(create_test_flow("len5", &["s1", "s2", "s3", "s4", "s5"], T0 + 2_000))
        .unwrap();

    let query = QueryBuilder::new().with_path_condition(PathCondition::LengthInRange(3, 4));
    let result = engine.query_at(&query, T0 + 600_000).unwrap();
    assert_eq!(result.total_count, 1);
    assert_eq!(result.flow_ids, vec!["len3".to_string()]);
}

#[test]
fn test_pagination() {
    let engine = three_flow_engine();
    let query = QueryBuilder::through_switch("s2").skip(1).limit(1);
    let result = engine.query_at(&query, T0 + 600_000).unwrap();
    assert_eq!(result.total_count, 3);
    assert_eq!(result.flow_ids, vec!["f2".to_string()]);
    assert!(result.has_more());
}

#[test]
fn test_invalid_query() {
    let engine = three_flow_engine();
    let query = QueryBuilder::new().with_path_condition(PathCondition::LengthInRange(4, 2));
    let r = engine.query_at(&query, T0 + 600_000);
    assert!(matches!(r, Err(StorageError::InvalidQuery(_))));
}

#[test]
fn test_storage_full() {
    let mut engine = StorageEngine::with_config(EngineConfig {
        time_bucket_size: 60,
        max_flows: Some(1),
        auto_cleanup_hours: None,
    });
    engine
        .insert_flow(create_test_flow("f1", &["s1"], T0))
        .unwrap();
    let r = engine.insert_flow(create_test_flow("f2", &["s2"], T0));
    assert!(matches!(r, Err(StorageError::StorageFull)));
    assert_eq!(engine.flow_count(), 1);
}

#[test]
fn test_get_flows_batch() {
    let engine = three_flow_engine();
    let flows = engine.get_flows(&[
        "f3".to_string(),
        "missing".to_string(),
        "f1".to_string(),
    ]);
    assert_eq!(flows.len(), 2);
    assert_eq!(flows[0].flow_id, "f3");
    assert_eq!(flows[1].flow_id, "f1");
}

#[test]
fn test_query_with_live_clock() {
    // Relative windows sample the wall clock once; a very wide window
    // keeps every stored flow.
    let engine = three_flow_engine();
    let query = QueryBuilder::in_last_minutes(100_000_000);
    let result = engine.query(query).unwrap();
    assert_eq!(result.total_count, 3);
}

#[test]
fn test_no_conditions_returns_all() {
    let engine = three_flow_engine();
    let result = engine.query_at(&QueryBuilder::new(), T0 + 600_000).unwrap();
    assert_eq!(result.total_count, 3);
    assert_eq!(
        result.flow_ids,
        vec!["f3".to_string(), "f2".to_string(), "f1".to_string()]
    );
}

#[test]
fn test_tie_break_by_flow_id() {
    // Equal start times are ordered by identifier ascending.
    let mut engine = StorageEngine::new();
    engine
        .insert_flow(create_test_flow("beta", &["s1"], T0))
        .unwrap();
    engine
        .insert_flow(create_test_flow("alpha", &["s2"], T0))
        .unwrap();
    let result = engine.query_at(&QueryBuilder::new(), T0 + 600_000).unwrap();
    assert_eq!(result.flow_ids, vec!["alpha".to_string(), "beta".to_string()]);
}

#[test]
fn test_estimate_memory_usage() {
    let mut engine = StorageEngine::new();
    let empty_estimate = engine.estimate_memory_usage();
    engine
        .insert_flow(create_test_flow("f1", &["s1", "s2"], T0))
        .unwrap();
    let estimate = engine.estimate_memory_usage();
    // flow id (2) + switches (2 + 8 + 2 + 8) + hops (2 + 64 + 2 + 64) + 32
    assert_eq!(estimate, empty_estimate + 2 + 20 + 132 + 32);
}

#[test]
fn test_engine_config_defaults() {
    let config = EngineConfig::default();
    assert_eq!(config.time_bucket_size, 60);
    assert_eq!(config.max_flows, Some(1_000_000));
    assert_eq!(config.auto_cleanup_hours, Some(24));
}
