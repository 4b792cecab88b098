use intdb::{
    Flow, Hop, MetricCondition, NetworkPath, PathCondition, QueryBuilder, QueryResult,
    TimeCondition,
};

// A fixed reference instant, epoch milliseconds.
const T0: i64 = 1_640_995_200_000;

fn create_test_flow(flow_id: &str, switches: &[&str], start_time: i64) -> Flow {
    let hops: Vec<Hop> = switches
        .iter()
        .enumerate()
        .map(|(i, switch)| {
            Hop::with_basic_metrics(
                i as u32,
                switch.to_string(),
                start_time + (i as i64) * 10,
                100_000 * (i as u64),
                100 * (i as u64),
            )
        })
        .collect();

    Flow::new(flow_id.to_string(), hops).unwrap()
}

#[test]
fn test_path_conditions() {
    let now = T0;
    let flow = create_test_flow("flow1", &["s1", "s2", "s3"], now);

    // Test exact path
    let exact_condition = PathCondition::ExactPath(flow.path.clone());
    assert!(exact_condition.matches(&flow));

    // Test contains path
    let contains_condition =
        PathCondition::ContainsPath(vec!["s2".to_string(), "s3".to_string()]);
    assert!(contains_condition.matches(&flow));

    // Test starts with
    let starts_condition = PathCondition::StartsWith(vec!["s1".to_string(), "s2".to_string()]);
    assert!(starts_condition.matches(&flow));

    // Test through switch
    let through_condition = PathCondition::ThroughSwitch("s2".to_string());
    assert!(through_condition.matches(&flow));

    // Test length
    let length_condition = PathCondition::LengthEquals(3);
    assert!(length_condition.matches(&flow));

    let length_range_condition = PathCondition::LengthInRange(2, 4);
    assert!(length_range_condition.matches(&flow));
}

#[test]
fn test_time_conditions() {
    let base_time = T0; // Fixed time for testing
    let flow = create_test_flow("flow1", &["s1", "s2"], base_time);
    let now = base_time + 3_600_000;

    // Test after condition
    let after_condition = TimeCondition::After(base_time - 60_000);
    assert!(after_condition.matches(&flow, now));

    let after_condition_false = TimeCondition::After(base_time + 60_000);
    assert!(!after_condition_false.matches(&flow, now));

    // Test range condition
    let range_condition = TimeCondition::InRange(base_time - 60_000, base_time + 60_000);
    assert!(range_condition.matches(&flow, now));
}

#[test]
fn test_relative_time_conditions() {
    let base_time = T0;
    let flow = create_test_flow("flow1", &["s1", "s2"], base_time);

    // The clock sample is one minute after the flow started.
    let now = base_time + 60_000;
    assert!(TimeCondition::WithinLast(60).matches(&flow, now));
    assert!(!TimeCondition::WithinLast(59).matches(&flow, now));
    assert!(TimeCondition::WithinLastMinutes(1).matches(&flow, now));
    assert!(TimeCondition::WithinLastHours(1).matches(&flow, now));
}

#[test]
fn test_metric_conditions() {
    let now = T0;
    let flow = create_test_flow("flow1", &["s1", "s2", "s3"], now);

    // Flow has total delay of 300 (0 + 100 + 200)
    let delay_condition = MetricCondition::TotalDelayGreaterThan(200);
    assert!(delay_condition.matches(&flow));

    let delay_condition_false = MetricCondition::TotalDelayGreaterThan(400);
    assert!(!delay_condition_false.matches(&flow));

    // Test delay range
    let delay_range_condition = MetricCondition::TotalDelayInRange(250, 350);
    assert!(delay_range_condition.matches(&flow));

    // Test queue utilization (max should be 200_000)
    let queue_condition = MetricCondition::MaxQueueUtilGreaterThan(100_000);
    assert!(queue_condition.matches(&flow));
}

#[test]
fn test_query_builder() {
    let path = NetworkPath::from_switches(&["s1", "s2", "s3"]);

    let query = QueryBuilder::new()
        .with_path_condition(PathCondition::ExactPath(path))
        .with_time_condition(TimeCondition::WithinLastMinutes(60))
        .with_metric_condition(MetricCondition::TotalDelayGreaterThan(100))
        .limit(10)
        .skip(5);

    let (path_conds, time_conds, metric_conds) = query.conditions();
    assert_eq!(path_conds.len(), 1);
    assert_eq!(time_conds.len(), 1);
    assert_eq!(metric_conds.len(), 1);

    let (limit, skip) = query.pagination();
    assert_eq!(limit, Some(10));
    assert_eq!(skip, Some(5));
}

#[test]
fn test_convenience_methods() {
    let path = NetworkPath::from_switches(&["s1", "s2"]);

    let query1 = QueryBuilder::exact_path(path);
    assert_eq!(query1.conditions().0.len(), 1);

    let query2 = QueryBuilder::through_switch("s1");
    assert_eq!(query2.conditions().0.len(), 1);

    let query3 = QueryBuilder::in_last_minutes(30);
    assert_eq!(query3.conditions().1.len(), 1);

    let query4 = QueryBuilder::with_high_delay(1000);
    assert_eq!(query4.conditions().2.len(), 1);
}

#[test]
fn test_query_result() {
    let flow_ids = vec!["flow1".to_string(), "flow2".to_string()];
    let result = QueryResult::new(flow_ids.clone(), 5, Some(2));

    assert_eq!(result.count(), 2);
    assert_eq!(result.total_count, 5);
    assert!(result.has_more());
    assert!(!result.is_empty());

    let result_no_limit = QueryResult::new(flow_ids, 2, None);
    assert!(!result_no_limit.has_more());
}
