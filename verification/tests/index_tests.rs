use intdb::{Flow, Hop, PathIndex, TimeIndex};

// A fixed reference instant, epoch milliseconds (2022-01-01 00:00:00 UTC).
const T0: i64 = 1_640_995_200_000;

fn create_test_flow(flow_id: &str, switches: &[&str], start_time: i64) -> Flow {
    let hops: Vec<Hop> = switches
        .iter()
        .enumerate()
        .map(|(i, switch)| {
            Hop::with_basic_metrics(
                i as u32,
                switch.to_string(),
                start_time + (i as i64) * 10,
                100_000 * (i as u64),
                100 * (i as u64),
            )
        })
        .collect();

    Flow::new(flow_id.to_string(), hops).unwrap()
}

#[test]
fn test_path_index() {
    let mut index = PathIndex::new();
    let now = T0;

    let flow1 = create_test_flow("flow1", &["s1", "s2", "s3"], now);
    let flow2 = create_test_flow("flow2", &["s1", "s2", "s4"], now);
    let flow3 = create_test_flow("flow3", &["s2", "s3", "s4"], now);

    index.add_flow(&flow1);
    index.add_flow(&flow2);
    index.add_flow(&flow3);

    // Test exact path matching
    assert_eq!(index.find_exact_path(&flow1.path).len(), 1);
    assert!(index.find_exact_path(&flow1.path).contains(&"flow1".to_string()));

    // Test switch-based queries
    let flows_through_s2 = index.find_flows_through_switch("s2");
    assert_eq!(flows_through_s2.len(), 3);

    let flows_through_s4 = index.find_flows_through_switch("s4");
    assert_eq!(flows_through_s4.len(), 2);

    // Test prefix queries
    let flows_with_s1_s2 = index.find_flows_with_prefix(&["s1".to_string(), "s2".to_string()]);
    assert_eq!(flows_with_s1_s2.len(), 2);
    assert!(flows_with_s1_s2.contains(&"flow1".to_string()));
    assert!(flows_with_s1_s2.contains(&"flow2".to_string()));

    // Test statistics
    let stats = index.stats();
    assert_eq!(stats.unique_paths, 3);
    assert!(stats.unique_switches >= 4);
}

#[test]
fn test_containing_path_query() {
    let mut index = PathIndex::new();
    let flow1 = create_test_flow("flow1", &["s1", "s2", "s3"], T0);
    let flow2 = create_test_flow("flow2", &["s2", "s4"], T0);
    index.add_flow(&flow1);
    index.add_flow(&flow2);

    let holding = index.find_flows_containing_path(&["s2".to_string(), "s3".to_string()]);
    assert!(holding.contains(&"flow1".to_string()));
    assert!(!holding.contains(&"flow2".to_string()));
}

#[test]
fn test_time_index() {
    let mut index = TimeIndex::with_minute_buckets();
    let base_time = T0; // 2022-01-01 00:00:00 UTC

    let flow1 = create_test_flow("flow1", &["s1", "s2"], base_time);
    let flow2 = create_test_flow("flow2", &["s2", "s3"], base_time + 30_000);
    let flow3 = create_test_flow("flow3", &["s3", "s4"], base_time + 120_000);

    index.add_flow(&flow1);
    index.add_flow(&flow2);
    index.add_flow(&flow3);

    // Test range queries
    let flows_in_first_minute = index.find_flows_in_range(base_time, base_time + 60_000);
    assert_eq!(flows_in_first_minute.len(), 2);
    assert!(flows_in_first_minute.contains(&"flow1".to_string()));
    assert!(flows_in_first_minute.contains(&"flow2".to_string()));

    // Test after/before queries
    let flows_after = index.find_flows_after(base_time + 60_000);
    assert_eq!(flows_after.len(), 1);
    assert!(flows_after.contains(&"flow3".to_string()));

    // Buckets at or before the bucket of the bound are scanned; the
    // two flows of the first bucket are the candidates here.
    let flows_before = index.find_flows_before(base_time + 60_000 - 1);
    assert_eq!(flows_before.len(), 2);

    // Test statistics
    let stats = index.stats();
    assert!(stats.bucket_count >= 2);
    assert_eq!(stats.bucket_size_secs, 60);
    assert!(stats.earliest_time.is_some());
    assert!(stats.latest_time.is_some());
}

#[test]
fn test_index_removal() {
    let mut path_index = PathIndex::new();
    let mut time_index = TimeIndex::new(60);
    let now = T0;

    let flow = create_test_flow("flow1", &["s1", "s2", "s3"], now);

    // Add flow
    path_index.add_flow(&flow);
    time_index.add_flow(&flow);

    assert_eq!(path_index.find_flows_through_switch("s2").len(), 1);
    assert_eq!(time_index.find_flows_after(now - 60_000).len(), 1);

    // Remove flow
    path_index.remove_flow(&flow);
    time_index.remove_flow(&flow);

    assert_eq!(path_index.find_flows_through_switch("s2").len(), 0);
    assert_eq!(time_index.find_flows_after(now - 60_000).len(), 0);
}
