use intdb::{Flow, FlowError, FlowInput, Hop, HopInput, TelemetryMetrics};

// A fixed reference instant, epoch milliseconds.
const T0: i64 = 1_640_995_200_000;

fn create_test_hops() -> Vec<Hop> {
    vec![
        Hop::with_basic_metrics(0, "s1".to_string(), T0, 100_000, 100),
        Hop::with_basic_metrics(1, "s2".to_string(), T0 + 10, 200_000, 200),
        Hop::with_basic_metrics(2, "s3".to_string(), T0 + 20, 300_000, 300),
    ]
}

#[test]
fn test_telemetry_metrics_creation() {
    let metrics = TelemetryMetrics::with_basic(750_000, 1000);
    assert_eq!(metrics.queue_util, Some(750_000));
    assert_eq!(metrics.delay_ns, Some(1000));
    assert!(!metrics.is_empty());
}

#[test]
fn test_custom_metrics() {
    let mut metrics = TelemetryMetrics::new();
    metrics.add_custom_metric("custom_field".to_string(), "42".to_string());

    assert!(metrics.custom_metrics.is_some());
    assert!(!metrics.is_empty());
}

#[test]
fn test_custom_metric_replaces_value_in_place() {
    let mut metrics = TelemetryMetrics::new();
    metrics.add_custom_metric("a".to_string(), "1".to_string());
    metrics.add_custom_metric("b".to_string(), "2".to_string());
    metrics.add_custom_metric("a".to_string(), "3".to_string());

    let entries = metrics.custom_metrics.as_ref().unwrap();
    assert_eq!(entries.len(), 2);
    assert_eq!(entries[0].key, "a");
    assert_eq!(entries[0].value_json, "3");
    assert_eq!(entries[1].key, "b");
    assert_eq!(entries[1].value_json, "2");
}

#[test]
fn test_hop_creation() {
    let now = T0;
    let hop = Hop::with_basic_metrics(0, "s1".to_string(), now, 750_000, 1000);

    assert_eq!(hop.hop_index, 0);
    assert_eq!(hop.switch_id, "s1");
    assert_eq!(hop.timestamp, now);
    assert_eq!(hop.delay(), Some(1000));
    assert_eq!(hop.queue_utilization(), Some(750_000));
    assert!(hop.has_telemetry());
}

#[test]
fn test_hop_from_input() {
    let input = HopInput {
        switch_id: "s2".to_string(),
        timestamp: T0,
        queue_util: Some(500_000),
        delay_ns: Some(500),
        bandwidth_bps: Some(1_000_000),
        drop_count: Some(10),
        egress_port: Some(1),
        ingress_port: Some(2),
    };

    let hop = Hop::from_input(1, input);
    assert_eq!(hop.hop_index, 1);
    assert_eq!(hop.switch_id, "s2");
    assert!(hop.has_telemetry());
}

#[test]
fn test_flow_creation() {
    let hops = create_test_hops();
    let flow = Flow::new("flow1".to_string(), hops).unwrap();

    assert_eq!(flow.flow_id, "flow1");
    assert_eq!(flow.path_length(), 3);
    assert_eq!(flow.hops.len(), 3);
    assert!(flow.is_complete());
    assert_eq!(flow.total_delay(), Some(600));
}

#[test]
fn test_flow_statistics() {
    let hops = create_test_hops();
    let flow = Flow::new("flow1".to_string(), hops).unwrap();

    assert_eq!(flow.max_queue_utilization(), Some(300_000));
    assert_eq!(flow.avg_queue_utilization(), Some(200_000));
    assert!(flow.contains_switch("s2"));
    assert!(!flow.contains_switch("s4"));
}

#[test]
fn test_partial_flow() {
    let hops = vec![
        Hop::with_basic_metrics(0, "s1".to_string(), T0, 100_000, 100),
        Hop::with_basic_metrics(2, "s3".to_string(), T0, 300_000, 300),
    ];

    let mut flow = Flow::new_partial("flow1".to_string(), hops);
    assert!(!flow.is_complete());

    let missing_hop = Hop::with_basic_metrics(1, "s2".to_string(), T0, 200_000, 200);
    flow.add_hop(missing_hop).unwrap();

    assert_eq!(flow.path_length(), 3);
    assert_eq!(flow.hops[1].switch_id, "s2"); // Should be sorted correctly
}

#[test]
fn test_flow_from_input() {
    let input = FlowInput {
        flow_id: "flow1".to_string(),
        telemetry: vec![
            HopInput {
                switch_id: "s1".to_string(),
                timestamp: T0,
                queue_util: Some(100_000),
                delay_ns: Some(100),
                bandwidth_bps: None,
                drop_count: None,
                egress_port: None,
                ingress_port: None,
            },
            HopInput {
                switch_id: "s2".to_string(),
                timestamp: T0,
                queue_util: Some(200_000),
                delay_ns: Some(200),
                bandwidth_bps: None,
                drop_count: None,
                egress_port: None,
                ingress_port: None,
            },
        ],
    };

    let flow = Flow::from_input(input).unwrap();
    assert_eq!(flow.flow_id, "flow1");
    assert_eq!(flow.path_length(), 2);
}

#[test]
fn test_flow_errors() {
    // Empty flow
    assert!(matches!(
        Flow::new("flow1".to_string(), vec![]),
        Err(FlowError::EmptyFlow)
    ));

    // Invalid hop ordering
    let bad_hops = vec![
        Hop::with_basic_metrics(1, "s1".to_string(), T0, 100_000, 100),
        Hop::with_basic_metrics(0, "s2".to_string(), T0, 200_000, 200),
    ];
    assert!(matches!(
        Flow::new("flow1".to_string(), bad_hops),
        Err(FlowError::InvalidHopOrdering)
    ));
}

#[test]
fn test_flow_time_ordering_error() {
    // First hop later than the last: rejected.
    let bad_hops = vec![
        Hop::with_basic_metrics(0, "s1".to_string(), T0 + 100, 100_000, 100),
        Hop::with_basic_metrics(1, "s2".to_string(), T0, 200_000, 200),
    ];
    assert!(matches!(
        Flow::new("flow1".to_string(), bad_hops),
        Err(FlowError::InvalidTimeOrdering)
    ));
}

#[test]
fn test_duplicate_hop_error() {
    let hops = vec![Hop::with_basic_metrics(0, "s1".to_string(), T0, 100_000, 100)];
    let mut flow = Flow::new_partial("flow1".to_string(), hops);
    let dup = Hop::with_basic_metrics(0, "s9".to_string(), T0, 100_000, 100);
    assert!(matches!(flow.add_hop(dup), Err(FlowError::DuplicateHop)));
}

#[test]
fn test_empty_input_error() {
    let input = FlowInput {
        flow_id: "flow1".to_string(),
        telemetry: vec![],
    };
    assert!(matches!(Flow::from_input(input), Err(FlowError::EmptyFlow)));
}

#[test]
fn test_flow_duration() {
    let hops = create_test_hops();
    let flow = Flow::new("flow1".to_string(), hops).unwrap();
    assert_eq!(flow.duration_ms(), 20);
}
