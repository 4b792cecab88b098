//! A hop: one switch visit within a flow, with its timestamp and
//! telemetry.

use vstd::prelude::*;

use crate::metrics::{MetricsView, TelemetryMetrics};

verus! {

/// The mathematical value of a hop.
pub struct HopView {
    pub hop_index: u32,
    pub switch_id: Seq<char>,
    pub timestamp: i64,
    pub metrics: MetricsView,
}

/// A single hop in a network path with its telemetry data.
///
/// Timestamps throughout the store are Unix epoch milliseconds (UTC).
pub struct Hop {
    /// Index of this hop in the owning flow's hop sequence (0-based).
    pub hop_index: u32,
    /// Switch or router identifier.
    pub switch_id: String,
    /// When the packet was processed at this hop, in epoch milliseconds.
    pub timestamp: i64,
    /// Telemetry metrics collected at this hop.
    pub metrics: TelemetryMetrics,
}

impl View for Hop {
    type V = HopView;

    open spec fn view(&self) -> HopView {
        HopView {
            hop_index: self.hop_index,
            switch_id: self.switch_id@,
            timestamp: self.timestamp,
            metrics: self.metrics@,
        }
    }
}

impl Clone for Hop {
    fn clone(&self) -> (r: Self)
        ensures
            r@ == self@,
    {
        Hop {
            hop_index: self.hop_index,
            switch_id: self.switch_id.clone(),
            timestamp: self.timestamp,
            metrics: self.metrics.clone(),
        }
    }
}

/// Wire-format input for one hop: the telemetry of a hop without an
/// explicit hop index. Conversion assigns the index from the position.
pub struct HopInput {
    pub switch_id: String,
    /// Epoch milliseconds.
    pub timestamp: i64,
    /// Queue utilization in millionths of full utilization.
    pub queue_util: Option<u64>,
    pub delay_ns: Option<u64>,
    pub bandwidth_bps: Option<u64>,
    pub drop_count: Option<u64>,
    pub egress_port: Option<u32>,
    pub ingress_port: Option<u32>,
}

impl Hop {
    /// Create a new hop.
    pub fn new(hop_index: u32, switch_id: String, timestamp: i64, metrics: TelemetryMetrics) -> (r:
        Self)
        ensures
            r.hop_index == hop_index,
            r.switch_id == switch_id,
            r.timestamp == timestamp,
            r.metrics == metrics,
    {
        Hop { hop_index, switch_id, timestamp, metrics }
    }

    /// Create a hop carrying only queue utilization (in millionths) and
    /// delay (in nanoseconds).
    pub fn with_basic_metrics(
        hop_index: u32,
        switch_id: String,
        timestamp: i64,
        queue_util: u64,
        delay_ns: u64,
    ) -> (r: Self)
        ensures
            r.hop_index == hop_index,
            r.switch_id == switch_id,
            r.timestamp == timestamp,
            r.metrics.queue_util == Some(queue_util),
            r.metrics.delay_ns == Some(delay_ns),
            r.metrics.bandwidth_bps is None,
            r.metrics.drop_count is None,
            r.metrics.egress_port is None,
            r.metrics.ingress_port is None,
            r.metrics.custom_metrics is None,
    {
        Hop::new(hop_index, switch_id, timestamp, TelemetryMetrics::with_basic(queue_util, delay_ns))
    }

    /// The delay at this hop, if recorded.
    pub fn delay(&self) -> (r: Option<u64>)
        ensures
            r == self.metrics.delay_ns,
    {
        self.metrics.delay_ns
    }

    /// The queue utilization at this hop in millionths, if recorded.
    pub fn queue_utilization(&self) -> (r: Option<u64>)
        ensures
            r == self.metrics.queue_util,
    {
        self.metrics.queue_util
    }

    /// Whether this hop carries any telemetry data.
    pub fn has_telemetry(&self) -> (r: bool)
        ensures
            r == !self.metrics.spec_is_empty(),
    {
        !self.metrics.is_empty()
    }

    /// Build a hop from a wire-format entry, assigning `hop_index`.
    pub fn from_input(hop_index: u32, input: HopInput) -> (r: Self)
        ensures
            r.hop_index == hop_index,
            r.switch_id == input.switch_id,
            r.timestamp == input.timestamp,
            r.metrics.queue_util == input.queue_util,
            r.metrics.delay_ns == input.delay_ns,
            r.metrics.bandwidth_bps == input.bandwidth_bps,
            r.metrics.drop_count == input.drop_count,
            r.metrics.egress_port == input.egress_port,
            r.metrics.ingress_port == input.ingress_port,
            r.metrics.custom_metrics is None,
    {
        let metrics = TelemetryMetrics {
            queue_util: input.queue_util,
            delay_ns: input.delay_ns,
            bandwidth_bps: input.bandwidth_bps,
            drop_count: input.drop_count,
            egress_port: input.egress_port,
            ingress_port: input.ingress_port,
            custom_metrics: None,
        };
        Hop::new(hop_index, input.switch_id, input.timestamp, metrics)
    }
}

} // verus!
