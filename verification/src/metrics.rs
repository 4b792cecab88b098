//! Per-hop telemetry metrics: optional scalar measurements and an
//! insertion-ordered map of custom named values.

use vstd::prelude::*;

verus! {

/// One named custom measurement; its value is carried as JSON text.
pub struct CustomEntry {
    pub key: String,
    pub value_json: String,
}

impl View for CustomEntry {
    type V = (Seq<char>, Seq<char>);

    open spec fn view(&self) -> (Seq<char>, Seq<char>) {
        (self.key@, self.value_json@)
    }
}

impl Clone for CustomEntry {
    fn clone(&self) -> (r: Self)
        ensures
            r == *self,
    {
        CustomEntry { key: self.key.clone(), value_json: self.value_json.clone() }
    }
}

/// The mathematical value of a telemetry record.
pub struct MetricsView {
    pub queue_util: Option<u64>,
    pub delay_ns: Option<u64>,
    pub bandwidth_bps: Option<u64>,
    pub drop_count: Option<u64>,
    pub egress_port: Option<u32>,
    pub ingress_port: Option<u32>,
    pub custom_metrics: Option<Seq<(Seq<char>, Seq<char>)>>,
}

/// Network telemetry metrics collected at one hop.
///
/// Queue utilization is a fixed-point fraction in millionths:
/// 1_000_000 stands for a fully utilized queue.
pub struct TelemetryMetrics {
    /// Queue utilization in millionths of full utilization.
    pub queue_util: Option<u64>,
    /// Delay in nanoseconds.
    pub delay_ns: Option<u64>,
    /// Bandwidth utilization in bits per second.
    pub bandwidth_bps: Option<u64>,
    /// Packet drop count.
    pub drop_count: Option<u64>,
    /// Egress port identifier.
    pub egress_port: Option<u32>,
    /// Ingress port identifier.
    pub ingress_port: Option<u32>,
    /// Additional custom metrics; insertion order is preserved.
    pub custom_metrics: Option<Vec<CustomEntry>>,
}

impl View for TelemetryMetrics {
    type V = MetricsView;

    open spec fn view(&self) -> MetricsView {
        MetricsView {
            queue_util: self.queue_util,
            delay_ns: self.delay_ns,
            bandwidth_bps: self.bandwidth_bps,
            drop_count: self.drop_count,
            egress_port: self.egress_port,
            ingress_port: self.ingress_port,
            custom_metrics: match self.custom_metrics {
                None => None,
                Some(v) => Some(v@.map_values(|e: CustomEntry| e@)),
            },
        }
    }
}

impl Clone for TelemetryMetrics {
    fn clone(&self) -> (r: Self)
        ensures
            r@ == self@,
    {
        let custom = match &self.custom_metrics {
            None => None,
            Some(v) => Some(clone_entries(v)),
        };
        let r = TelemetryMetrics {
            queue_util: self.queue_util,
            delay_ns: self.delay_ns,
            bandwidth_bps: self.bandwidth_bps,
            drop_count: self.drop_count,
            egress_port: self.egress_port,
            ingress_port: self.ingress_port,
            custom_metrics: custom,
        };
        proof {
            assert(r@.custom_metrics == self@.custom_metrics);
        }
        r
    }
}

/// Copy a vector of custom entries, preserving every entry's value.
fn clone_entries(v: &Vec<CustomEntry>) -> (r: Vec<CustomEntry>)
    ensures
        r@ == v@,
{
    let mut r: Vec<CustomEntry> = Vec::new();
    let mut i: usize = 0;
    while i < v.len()
        invariant
            i <= v.len(),
            r@ == v@.subrange(0, i as int),
        decreases v.len() - i,
    {
        r.push(v[i].clone());
        i = i + 1;
        proof {
            assert(r@ =~= v@.subrange(0, i as int));
        }
    }
    proof {
        assert(r@ =~= v@);
    }
    r
}

impl TelemetryMetrics {
    /// The custom entries as a sequence of (key, JSON value) pairs,
    /// empty when no custom map is present.
    pub open spec fn custom_view(&self) -> Seq<(Seq<char>, Seq<char>)> {
        match self.custom_metrics {
            None => Seq::empty(),
            Some(v) => v@.map_values(|e: CustomEntry| e@),
        }
    }

    /// A metrics record is empty when every optional field is absent and
    /// the custom map, if present, holds no entry.
    pub open spec fn spec_is_empty(&self) -> bool {
        &&& self.queue_util is None
        &&& self.delay_ns is None
        &&& self.bandwidth_bps is None
        &&& self.drop_count is None
        &&& self.egress_port is None
        &&& self.ingress_port is None
        &&& self.custom_view().len() == 0
    }

    /// Create a metrics record with every field absent.
    pub fn new() -> (r: Self)
        ensures
            r.queue_util is None,
            r.delay_ns is None,
            r.bandwidth_bps is None,
            r.drop_count is None,
            r.egress_port is None,
            r.ingress_port is None,
            r.custom_metrics is None,
            r.spec_is_empty(),
    {
        TelemetryMetrics {
            queue_util: None,
            delay_ns: None,
            bandwidth_bps: None,
            drop_count: None,
            egress_port: None,
            ingress_port: None,
            custom_metrics: None,
        }
    }

    /// Create a metrics record carrying only queue utilization (in
    /// millionths) and delay (in nanoseconds).
    pub fn with_basic(queue_util: u64, delay_ns: u64) -> (r: Self)
        ensures
            r.queue_util == Some(queue_util),
            r.delay_ns == Some(delay_ns),
            r.bandwidth_bps is None,
            r.drop_count is None,
            r.egress_port is None,
            r.ingress_port is None,
            r.custom_metrics is None,
    {
        TelemetryMetrics {
            queue_util: Some(queue_util),
            delay_ns: Some(delay_ns),
            bandwidth_bps: None,
            drop_count: None,
            egress_port: None,
            ingress_port: None,
            custom_metrics: None,
        }
    }

    /// Add a custom metric under `key`. An existing entry with the same
    /// key keeps its position and has its value replaced; a new key is
    /// appended at the end.
    pub fn add_custom_metric(&mut self, key: String, value_json: String)
        ensures
            final(self).queue_util == old(self).queue_util,
            final(self).delay_ns == old(self).delay_ns,
            final(self).bandwidth_bps == old(self).bandwidth_bps,
            final(self).drop_count == old(self).drop_count,
            final(self).egress_port == old(self).egress_port,
            final(self).ingress_port == old(self).ingress_port,
            final(self).custom_metrics is Some,
            (forall|j: int| 0 <= j < old(self).custom_view().len()
                ==> (#[trigger] old(self).custom_view()[j]).0 != key@)
                ==> final(self).custom_view() == old(self).custom_view().push((key@, value_json@)),
            forall|i: int| (0 <= i < old(self).custom_view().len()
                && (#[trigger] old(self).custom_view()[i]).0 == key@
                && (forall|j: int| 0 <= j < i ==> (#[trigger] old(self).custom_view()[j]).0 != key@))
                ==> final(self).custom_view() == old(self).custom_view().update(i, (key@, value_json@)),
    {
        let cur = self.custom_metrics.take();
        let mut entries: Vec<CustomEntry> = match cur {
            None => Vec::new(),
            Some(v) => v,
        };
        let ghost orig = entries@.map_values(|e: CustomEntry| e@);
        proof {
            assert(orig == old(self).custom_view());
        }
        let n = entries.len();
        let mut i: usize = 0;
        let mut found = false;
        while i < n && !found
            invariant
                n == entries.len(),
                i <= n,
                orig == entries@.map_values(|e: CustomEntry| e@),
                orig.len() == n,
                !found ==> forall|j: int| 0 <= j < i ==> (#[trigger] orig[j]).0 != key@,
                found ==> i < n && orig[i as int].0 == key@ && (forall|j: int|
                    0 <= j < i ==> (#[trigger] orig[j]).0 != key@),
            decreases n - i + (if found { 0int } else { 1int }),
        {
            if entries[i].key.eq(&key) {
                found = true;
            } else {
                i = i + 1;
            }
        }
        if found {
            entries.set(i, CustomEntry { key, value_json });
            proof {
                assert(entries@.map_values(|e: CustomEntry| e@) =~= orig.update(
                    i as int,
                    (key@, value_json@),
                ));
            }
        } else {
            entries.push(CustomEntry { key, value_json });
            proof {
                assert(entries@.map_values(|e: CustomEntry| e@) =~= orig.push(
                    (key@, value_json@),
                ));
            }
        }
        self.custom_metrics = Some(entries);
    }

    /// Whether every optional field is absent and the custom map, if
    /// present, is empty.
    pub fn is_empty(&self) -> (r: bool)
        ensures
            r == self.spec_is_empty(),
    {
        self.queue_util.is_none() && self.delay_ns.is_none() && self.bandwidth_bps.is_none()
            && self.drop_count.is_none() && self.egress_port.is_none()
            && self.ingress_port.is_none() && (match &self.custom_metrics {
            None => true,
            Some(v) => v.len() == 0,
        })
    }
}

impl Default for TelemetryMetrics {
    /// An empty metrics record.
    fn default() -> (r: Self)
        ensures
            r.spec_is_empty(),
            r.custom_metrics is None,
    {
        TelemetryMetrics::new()
    }
}

} // verus!
