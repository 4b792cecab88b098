//! Queries: the three condition families with their exact match
//! semantics, the query builder, and the query result.

use vstd::prelude::*;

use crate::flow::{seq_has, switches_of_hops, spec_has_delay, spec_max_queue_util,
    spec_queue_util_count, spec_queue_util_sum, spec_sum_delays, Flow};
use crate::path::{seqs_contains_window, spec_path_hash, NetworkPath};
use crate::strutil::strs_view;

verus! {

/// A path predicate on flows.
pub enum PathCondition {
    /// The flow's path has the same content hash as the given path.
    ExactPath(NetworkPath),
    /// The flow's path contains the switches as a contiguous window.
    ContainsPath(Vec<String>),
    /// The flow's path starts with the given prefix.
    StartsWith(Vec<String>),
    /// The flow's path ends with the given suffix.
    EndsWith(Vec<String>),
    /// The flow passes through the given switch.
    ThroughSwitch(String),
    /// The flow's path length equals the given length.
    LengthEquals(usize),
    /// The flow's path length lies in the inclusive range.
    LengthInRange(usize, usize),
}

/// A time predicate on flows, over the flow's start time.
/// Times are epoch milliseconds; relative windows are evaluated against
/// a clock sample taken once per query.
pub enum TimeCondition {
    /// The flow started at or after the given time.
    After(i64),
    /// The flow started at or before the given time.
    Before(i64),
    /// The flow started within the inclusive range.
    InRange(i64, i64),
    /// The flow started within the last N seconds.
    WithinLast(i64),
    /// The flow started within the last N minutes.
    WithinLastMinutes(i64),
    /// The flow started within the last N hours.
    WithinLastHours(i64),
}

/// A metric predicate on flows, over derived aggregates. A condition on
/// an undefined aggregate evaluates to false. Queue utilizations are in
/// millionths.
pub enum MetricCondition {
    TotalDelayGreaterThan(u64),
    TotalDelayLessThan(u64),
    TotalDelayInRange(u64, u64),
    MaxQueueUtilGreaterThan(u64),
    MaxQueueUtilLessThan(u64),
    AvgQueueUtilGreaterThan(u64),
    DurationGreaterThan(i64),
    DurationLessThan(i64),
}

/// What a path condition asserts of a flow.
pub open spec fn spec_path_matches(c: PathCondition, f: Flow) -> bool {
    match c {
        PathCondition::ExactPath(p) => spec_path_hash(f.path.switches_view()) == spec_path_hash(
            p.switches_view(),
        ),
        PathCondition::ContainsPath(sub) => strs_view(sub@).len() == 0 || seqs_contains_window(
            f.path.switches_view(),
            strs_view(sub@),
        ),
        PathCondition::StartsWith(pre) => strs_view(pre@).len() <= f.path.switches_view().len()
            && f.path.switches_view().subrange(0, strs_view(pre@).len() as int) == strs_view(pre@),
        PathCondition::EndsWith(suf) => strs_view(suf@).len() <= f.path.switches_view().len()
            && f.path.switches_view().subrange(
            f.path.switches_view().len() - strs_view(suf@).len(),
            f.path.switches_view().len() as int,
        ) == strs_view(suf@),
        PathCondition::ThroughSwitch(s) => seq_has(switches_of_hops(f.hops_view()), s@),
        PathCondition::LengthEquals(l) => f.path.switches_view().len() == l,
        PathCondition::LengthInRange(min, max) => min <= f.path.switches_view().len()
            && f.path.switches_view().len() <= max,
    }
}

/// What a time condition asserts of a flow, given the clock sample
/// `now` (epoch milliseconds) taken at query entry.
pub open spec fn spec_time_matches(c: TimeCondition, f: Flow, now: int) -> bool {
    match c {
        TimeCondition::After(t) => f.start_time >= t,
        TimeCondition::Before(t) => f.start_time <= t,
        TimeCondition::InRange(s, e) => f.start_time >= s && f.start_time <= e,
        TimeCondition::WithinLast(secs) => f.start_time >= now - secs * 1000,
        TimeCondition::WithinLastMinutes(m) => f.start_time >= now - m * 60000,
        TimeCondition::WithinLastHours(h) => f.start_time >= now - h * 3600000,
    }
}

/// What a metric condition asserts of a flow.
pub open spec fn spec_metric_matches(c: MetricCondition, f: Flow) -> bool {
    let hv = f.hops_view();
    match c {
        MetricCondition::TotalDelayGreaterThan(t) => spec_has_delay(hv) && spec_sum_delays(hv)
            > t,
        MetricCondition::TotalDelayLessThan(t) => spec_has_delay(hv) && spec_sum_delays(hv) < t,
        MetricCondition::TotalDelayInRange(min, max) => spec_has_delay(hv) && min
            <= spec_sum_delays(hv) && spec_sum_delays(hv) <= max,
        MetricCondition::MaxQueueUtilGreaterThan(t) => spec_max_queue_util(hv) matches Some(m)
            && m > t,
        MetricCondition::MaxQueueUtilLessThan(t) => spec_max_queue_util(hv) matches Some(m) && m
            < t,
        MetricCondition::AvgQueueUtilGreaterThan(t) => spec_queue_util_count(hv) > 0
            && spec_queue_util_sum(hv) > t * spec_queue_util_count(hv),
        MetricCondition::DurationGreaterThan(t) => f.end_time - f.start_time > t,
        MetricCondition::DurationLessThan(t) => f.end_time - f.start_time < t,
    }
}

/// The paths carried by the condition have their hashes cached.
pub open spec fn spec_path_cond_wf(c: PathCondition) -> bool {
    match c {
        PathCondition::ExactPath(p) => p.hash_consistent(),
        _ => true,
    }
}

impl PathCondition {
    /// Whether the flow matches this path condition.
    pub fn matches(&self, flow: &Flow) -> (r: bool)
        requires
            flow.path.hash_consistent(),
            spec_path_cond_wf(*self),
        ensures
            r == spec_path_matches(*self, *flow),
    {
        match self {
            PathCondition::ExactPath(p) => {
                let fh = flow.path.hash();
                let ph = p.hash();
                crate::strutil::string_eq(&fh, &ph)
            },
            PathCondition::ContainsPath(sub) => flow.path.contains_subpath(sub.as_slice()),
            PathCondition::StartsWith(pre) => flow.path.starts_with(pre.as_slice()),
            PathCondition::EndsWith(suf) => flow.path.ends_with(suf.as_slice()),
            PathCondition::ThroughSwitch(s) => flow.contains_switch(s.as_str()),
            PathCondition::LengthEquals(l) => flow.path.length() == *l,
            PathCondition::LengthInRange(min, max) => {
                let len = flow.path.length();
                len >= *min && len <= *max
            },
        }
    }
}

impl TimeCondition {
    /// Whether the flow matches this time condition; `now_ms` is the
    /// clock sample (epoch milliseconds) taken at query entry.
    pub fn matches(&self, flow: &Flow, now_ms: i64) -> (r: bool)
        ensures
            r == spec_time_matches(*self, *flow, now_ms as int),
    {
        let start = flow.start_time as i128;
        match self {
            TimeCondition::After(t) => flow.start_time >= *t,
            TimeCondition::Before(t) => flow.start_time <= *t,
            TimeCondition::InRange(s, e) => flow.start_time >= *s && flow.start_time <= *e,
            TimeCondition::WithinLast(secs) => start >= (now_ms as i128) - (*secs as i128) * 1000,
            TimeCondition::WithinLastMinutes(m) => start >= (now_ms as i128) - (*m as i128)
                * 60000,
            TimeCondition::WithinLastHours(h) => start >= (now_ms as i128) - (*h as i128)
                * 3600000,
        }
    }
}

impl MetricCondition {
    /// Whether the flow matches this metric condition.
    pub fn matches(&self, flow: &Flow) -> (r: bool)
        ensures
            r == spec_metric_matches(*self, *flow),
    {
        match self {
            MetricCondition::TotalDelayGreaterThan(t) => {
                match flow.total_delay() {
                    Some(d) => d > (*t as u128),
                    None => false,
                }
            },
            MetricCondition::TotalDelayLessThan(t) => {
                match flow.total_delay() {
                    Some(d) => d < (*t as u128),
                    None => false,
                }
            },
            MetricCondition::TotalDelayInRange(min, max) => {
                match flow.total_delay() {
                    Some(d) => d >= (*min as u128) && d <= (*max as u128),
                    None => false,
                }
            },
            MetricCondition::MaxQueueUtilGreaterThan(t) => {
                match flow.max_queue_utilization() {
                    Some(m) => m > *t,
                    None => false,
                }
            },
            MetricCondition::MaxQueueUtilLessThan(t) => {
                match flow.max_queue_utilization() {
                    Some(m) => m < *t,
                    None => false,
                }
            },
            MetricCondition::AvgQueueUtilGreaterThan(t) => {
                let (sum, count) = flow.queue_util_totals();
                proof {
                    assert((*t as int) * (count as int) <= (u64::MAX as int) * (u64::MAX as int))
                        by (nonlinear_arith)
                        requires
                            0 <= *t as int <= u64::MAX as int,
                            0 <= count as int <= u64::MAX as int,
                    ;
                }
                count > 0 && sum > (*t as u128) * (count as u128)
            },
            MetricCondition::DurationGreaterThan(t) => {
                (flow.end_time as i128) - (flow.start_time as i128) > (*t as i128)
            },
            MetricCondition::DurationLessThan(t) => {
                (flow.end_time as i128) - (flow.start_time as i128) < (*t as i128)
            },
        }
    }
}

/// A query: three condition lists combined with AND, plus pagination.
pub struct QueryBuilder {
    path_conditions: Vec<PathCondition>,
    time_conditions: Vec<TimeCondition>,
    metric_conditions: Vec<MetricCondition>,
    limit: Option<usize>,
    skip: Option<usize>,
}

/// A flow matches a query when it matches every condition of every
/// family, under the clock sample `now`.
pub open spec fn spec_query_matches(q: QueryBuilder, f: Flow, now: int) -> bool {
    &&& forall|i: int|
        0 <= i < q.spec_path_conditions().len() ==> spec_path_matches(
            #[trigger] q.spec_path_conditions()[i],
            f,
        )
    &&& forall|i: int|
        0 <= i < q.spec_time_conditions().len() ==> spec_time_matches(
            #[trigger] q.spec_time_conditions()[i],
            f,
            now,
        )
    &&& forall|i: int|
        0 <= i < q.spec_metric_conditions().len() ==> spec_metric_matches(
            #[trigger] q.spec_metric_conditions()[i],
            f,
        )
}

impl QueryBuilder {
    /// The path conditions of the query.
    pub closed spec fn spec_path_conditions(&self) -> Seq<PathCondition> {
        self.path_conditions@
    }

    /// The time conditions of the query.
    pub closed spec fn spec_time_conditions(&self) -> Seq<TimeCondition> {
        self.time_conditions@
    }

    /// The metric conditions of the query.
    pub closed spec fn spec_metric_conditions(&self) -> Seq<MetricCondition> {
        self.metric_conditions@
    }

    /// The result limit of the query.
    pub closed spec fn spec_limit(&self) -> Option<usize> {
        self.limit
    }

    /// How many results the query skips.
    pub closed spec fn spec_skip(&self) -> Option<usize> {
        self.skip
    }

    /// Every path carried by a condition has its hash cached.
    pub open spec fn wf(&self) -> bool {
        forall|i: int|
            0 <= i < self.spec_path_conditions().len() ==> spec_path_cond_wf(
                #[trigger] self.spec_path_conditions()[i],
            )
    }

    /// A query is valid when every length range has `min <= max`.
    pub open spec fn valid(&self) -> bool {
        forall|i: int|
            0 <= i < self.spec_path_conditions().len() ==> match #[trigger] self.spec_path_conditions()[i] {
                PathCondition::LengthInRange(min, max) => min <= max,
                _ => true,
            }
    }

    /// Create an empty query: no conditions, no pagination.
    pub fn new() -> (r: Self)
        ensures
            r.spec_path_conditions() == Seq::<PathCondition>::empty(),
            r.spec_time_conditions() == Seq::<TimeCondition>::empty(),
            r.spec_metric_conditions() == Seq::<MetricCondition>::empty(),
            r.spec_limit() is None,
            r.spec_skip() is None,
            r.wf(),
            r.valid(),
    {
        QueryBuilder {
            path_conditions: Vec::new(),
            time_conditions: Vec::new(),
            metric_conditions: Vec::new(),
            limit: None,
            skip: None,
        }
    }

    /// Add a path condition.
    pub fn with_path_condition(self, condition: PathCondition) -> (r: Self)
        ensures
            r.spec_path_conditions() == self.spec_path_conditions().push(condition),
            r.spec_time_conditions() == self.spec_time_conditions(),
            r.spec_metric_conditions() == self.spec_metric_conditions(),
            r.spec_limit() == self.spec_limit(),
            r.spec_skip() == self.spec_skip(),
            self.wf() && spec_path_cond_wf(condition) ==> r.wf(),
    {
        let mut q = self;
        q.path_conditions.push(condition);
        q
    }

    /// Add a time condition.
    pub fn with_time_condition(self, condition: TimeCondition) -> (r: Self)
        ensures
            r.spec_path_conditions() == self.spec_path_conditions(),
            r.spec_time_conditions() == self.spec_time_conditions().push(condition),
            r.spec_metric_conditions() == self.spec_metric_conditions(),
            r.spec_limit() == self.spec_limit(),
            r.spec_skip() == self.spec_skip(),
            self.wf() ==> r.wf(),
            self.valid() ==> r.valid(),
    {
        let mut q = self;
        q.time_conditions.push(condition);
        proof {
            assert(q.spec_path_conditions() == self.spec_path_conditions());
        }
        q
    }

    /// Add a metric condition.
    pub fn with_metric_condition(self, condition: MetricCondition) -> (r: Self)
        ensures
            r.spec_path_conditions() == self.spec_path_conditions(),
            r.spec_time_conditions() == self.spec_time_conditions(),
            r.spec_metric_conditions() == self.spec_metric_conditions().push(condition),
            r.spec_limit() == self.spec_limit(),
            r.spec_skip() == self.spec_skip(),
            self.wf() ==> r.wf(),
            self.valid() ==> r.valid(),
    {
        let mut q = self;
        q.metric_conditions.push(condition);
        proof {
            assert(q.spec_path_conditions() == self.spec_path_conditions());
        }
        q
    }

    /// Limit the number of returned results.
    pub fn limit(self, limit: usize) -> (r: Self)
        ensures
            r.spec_path_conditions() == self.spec_path_conditions(),
            r.spec_time_conditions() == self.spec_time_conditions(),
            r.spec_metric_conditions() == self.spec_metric_conditions(),
            r.spec_limit() == Some(limit),
            r.spec_skip() == self.spec_skip(),
            self.wf() ==> r.wf(),
            self.valid() ==> r.valid(),
    {
        let mut q = self;
        q.limit = Some(limit);
        proof {
            assert(q.spec_path_conditions() == self.spec_path_conditions());
        }
        q
    }

    /// Skip the first results, for pagination.
    pub fn skip(self, skip: usize) -> (r: Self)
        ensures
            r.spec_path_conditions() == self.spec_path_conditions(),
            r.spec_time_conditions() == self.spec_time_conditions(),
            r.spec_metric_conditions() == self.spec_metric_conditions(),
            r.spec_limit() == self.spec_limit(),
            r.spec_skip() == Some(skip),
            self.wf() ==> r.wf(),
            self.valid() ==> r.valid(),
    {
        let mut q = self;
        q.skip = Some(skip);
        proof {
            assert(q.spec_path_conditions() == self.spec_path_conditions());
        }
        q
    }

    /// A query for flows with exactly the given path.
    pub fn exact_path(path: NetworkPath) -> (r: Self)
        ensures
            r.spec_path_conditions() == Seq::<PathCondition>::empty().push(
                PathCondition::ExactPath(path),
            ),
            r.spec_time_conditions() == Seq::<TimeCondition>::empty(),
            r.spec_metric_conditions() == Seq::<MetricCondition>::empty(),
            r.spec_limit() is None,
            r.spec_skip() is None,
            path.hash_consistent() ==> r.wf(),
            r.valid(),
    {
        QueryBuilder::new().with_path_condition(PathCondition::ExactPath(path))
    }

    /// A query for flows passing through the given switch.
    pub fn through_switch(switch_id: &str) -> (r: Self)
        ensures
            r.spec_path_conditions().len() == 1,
            r.spec_path_conditions()[0] matches PathCondition::ThroughSwitch(s) && s@
                == switch_id@,
            r.spec_time_conditions() == Seq::<TimeCondition>::empty(),
            r.spec_metric_conditions() == Seq::<MetricCondition>::empty(),
            r.spec_limit() is None,
            r.spec_skip() is None,
            r.wf(),
            r.valid(),
    {
        QueryBuilder::new().with_path_condition(
            PathCondition::ThroughSwitch(crate::strutil::str_to_owned(switch_id)),
        )
    }

    /// A query for flows that started within the inclusive time range.
    pub fn in_time_range(start: i64, end: i64) -> (r: Self)
        ensures
            r.spec_path_conditions() == Seq::<PathCondition>::empty(),
            r.spec_time_conditions() == Seq::<TimeCondition>::empty().push(
                TimeCondition::InRange(start, end),
            ),
            r.spec_metric_conditions() == Seq::<MetricCondition>::empty(),
            r.spec_limit() is None,
            r.spec_skip() is None,
            r.wf(),
            r.valid(),
    {
        QueryBuilder::new().with_time_condition(TimeCondition::InRange(start, end))
    }

    /// A query for flows that started within the last N minutes.
    pub fn in_last_minutes(minutes: i64) -> (r: Self)
        ensures
            r.spec_path_conditions() == Seq::<PathCondition>::empty(),
            r.spec_time_conditions() == Seq::<TimeCondition>::empty().push(
                TimeCondition::WithinLastMinutes(minutes),
            ),
            r.spec_metric_conditions() == Seq::<MetricCondition>::empty(),
            r.spec_limit() is None,
            r.spec_skip() is None,
            r.wf(),
            r.valid(),
    {
        QueryBuilder::new().with_time_condition(TimeCondition::WithinLastMinutes(minutes))
    }

    /// A query for flows whose total delay exceeds the threshold.
    pub fn with_high_delay(threshold_ns: u64) -> (r: Self)
        ensures
            r.spec_path_conditions() == Seq::<PathCondition>::empty(),
            r.spec_time_conditions() == Seq::<TimeCondition>::empty(),
            r.spec_metric_conditions() == Seq::<MetricCondition>::empty().push(
                MetricCondition::TotalDelayGreaterThan(threshold_ns),
            ),
            r.spec_limit() is None,
            r.spec_skip() is None,
            r.wf(),
            r.valid(),
    {
        QueryBuilder::new().with_metric_condition(
            MetricCondition::TotalDelayGreaterThan(threshold_ns),
        )
    }

    /// The three condition lists, for inspection.
    pub fn conditions(&self) -> (r: (&[PathCondition], &[TimeCondition], &[MetricCondition]))
        ensures
            r.0@ == self.spec_path_conditions(),
            r.1@ == self.spec_time_conditions(),
            r.2@ == self.spec_metric_conditions(),
    {
        (
            self.path_conditions.as_slice(),
            self.time_conditions.as_slice(),
            self.metric_conditions.as_slice(),
        )
    }

    /// The pagination settings `(limit, skip)`.
    pub fn pagination(&self) -> (r: (Option<usize>, Option<usize>))
        ensures
            r.0 == self.spec_limit(),
            r.1 == self.spec_skip(),
    {
        (self.limit, self.skip)
    }
}

impl Default for QueryBuilder {
    /// An empty query.
    fn default() -> (r: Self)
        ensures
            r.spec_path_conditions() == Seq::<PathCondition>::empty(),
            r.spec_time_conditions() == Seq::<TimeCondition>::empty(),
            r.spec_metric_conditions() == Seq::<MetricCondition>::empty(),
            r.spec_limit() is None,
            r.spec_skip() is None,
            r.wf(),
            r.valid(),
    {
        QueryBuilder::new()
    }
}

/// The outcome of a query: matching flow identifiers after pagination,
/// the total number of matches, and the applied limit.
pub struct QueryResult {
    /// Matching flow identifiers, most recent start time first.
    pub flow_ids: Vec<String>,
    /// Total number of matching flows, before `skip` and `limit`.
    pub total_count: usize,
    /// The limit that was applied, if any.
    pub limit: Option<usize>,
}

impl QueryResult {
    /// Create a query result.
    pub fn new(flow_ids: Vec<String>, total_count: usize, limit: Option<usize>) -> (r: Self)
        ensures
            r.flow_ids == flow_ids,
            r.total_count == total_count,
            r.limit == limit,
    {
        QueryResult { flow_ids, total_count, limit }
    }

    /// Whether no flow identifier was returned.
    pub fn is_empty(&self) -> (r: bool)
        ensures
            r == (self.flow_ids@.len() == 0),
    {
        self.flow_ids.len() == 0
    }

    /// The number of returned flow identifiers.
    pub fn count(&self) -> (r: usize)
        ensures
            r == self.flow_ids@.len(),
    {
        self.flow_ids.len()
    }

    /// Whether matches beyond the applied limit exist.
    pub fn has_more(&self) -> (r: bool)
        ensures
            r == (self.limit matches Some(l) && self.total_count > l),
    {
        match self.limit {
            Some(l) => self.total_count > l,
            None => false,
        }
    }
}

} // verus!
