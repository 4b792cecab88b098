//! The flow aggregate: identifier, derived path, ordered hops, time
//! bounds, status, and the derived metric aggregates.

use vstd::prelude::*;
use vstd::multiset::Multiset;

use crate::hop::{Hop, HopInput, HopView};
use crate::path::{spec_path_hash, NetworkPath, PathView};
use crate::strutil::{str_eq, strs_view};

verus! {

/// The views of a sequence of hops.
pub open spec fn hops_views(hops: Seq<Hop>) -> Seq<HopView> {
    hops.map_values(|h: Hop| h@)
}

/// The switch identifiers of a hop sequence, in hop order.
pub open spec fn switches_of_hops(hv: Seq<HopView>) -> Seq<Seq<char>> {
    hv.map_values(|h: HopView| h.switch_id)
}

/// A sequence of switch identifiers holds `s`.
pub open spec fn seq_has(ss: Seq<Seq<char>>, s: Seq<char>) -> bool {
    exists|k: int| 0 <= k < ss.len() && ss[k] == s
}

/// The two sequences hold the same set of switch identifiers.
pub open spec fn same_switch_set(a: Seq<Seq<char>>, b: Seq<Seq<char>>) -> bool {
    &&& forall|i: int| 0 <= i < a.len() ==> seq_has(b, #[trigger] a[i])
    &&& forall|i: int| 0 <= i < b.len() ==> seq_has(a, #[trigger] b[i])
}

/// Hop indexes are non-decreasing along the sequence.
pub open spec fn sorted_by_index(hv: Seq<HopView>) -> bool {
    forall|i: int, j: int|
        0 <= i <= j < hv.len() ==> #[trigger] hv[i].hop_index <= #[trigger] hv[j].hop_index
}

/// Every hop's index equals its position.
pub open spec fn indexes_ok(hv: Seq<HopView>) -> bool {
    forall|i: int| 0 <= i < hv.len() ==> (#[trigger] hv[i].hop_index) as int == i
}

/// Flow completion status.
pub enum FlowStatus {
    /// Flow is complete with all expected hops.
    Complete,
    /// Flow is still being assembled.
    Partial,
    /// Flow timed out waiting for missing hops.
    Timeout,
    /// Flow has errors or inconsistencies.
    Error(String),
}

/// The mathematical value of a flow status.
pub enum FlowStatusView {
    Complete,
    Partial,
    Timeout,
    Error(Seq<char>),
}

impl View for FlowStatus {
    type V = FlowStatusView;

    open spec fn view(&self) -> FlowStatusView {
        match self {
            FlowStatus::Complete => FlowStatusView::Complete,
            FlowStatus::Partial => FlowStatusView::Partial,
            FlowStatus::Timeout => FlowStatusView::Timeout,
            FlowStatus::Error(m) => FlowStatusView::Error(m@),
        }
    }
}

impl Clone for FlowStatus {
    fn clone(&self) -> (r: Self)
        ensures
            r@ == self@,
    {
        match self {
            FlowStatus::Complete => FlowStatus::Complete,
            FlowStatus::Partial => FlowStatus::Partial,
            FlowStatus::Timeout => FlowStatus::Timeout,
            FlowStatus::Error(m) => FlowStatus::Error(m.clone()),
        }
    }
}

/// Errors of flow construction and mutation.
#[derive(Debug, Clone, Copy, PartialEq, Eq, Structural)]
pub enum FlowError {
    /// The hop sequence is empty.
    EmptyFlow,
    /// Some hop's index differs from its position.
    InvalidHopOrdering,
    /// The first hop's timestamp is later than the last hop's.
    InvalidTimeOrdering,
    /// The hop's index is already present in the flow.
    DuplicateHop,
}

impl FlowError {
    /// A short description of the error.
    pub fn message(&self) -> (r: &'static str)
        ensures
            *self is EmptyFlow ==> r@ == "flow cannot be empty"@,
            *self is InvalidHopOrdering ==> r@ == "invalid hop ordering"@,
            *self is InvalidTimeOrdering ==> r@ == "invalid time ordering"@,
            *self is DuplicateHop ==> r@ == "duplicate hop index"@,
    {
        match self {
            FlowError::EmptyFlow => "flow cannot be empty",
            FlowError::InvalidHopOrdering => "invalid hop ordering",
            FlowError::InvalidTimeOrdering => "invalid time ordering",
            FlowError::DuplicateHop => "duplicate hop index",
        }
    }
}

/// The mathematical value of a flow.
pub struct FlowView {
    pub flow_id: Seq<char>,
    pub path: PathView,
    pub hops: Seq<HopView>,
    pub start_time: i64,
    pub end_time: i64,
    pub status: FlowStatusView,
}

/// A complete network flow: identifier, derived path, ordered hops,
/// time bounds and status. Timestamps are epoch milliseconds.
pub struct Flow {
    /// Unique identifier for this flow.
    pub flow_id: String,
    /// Network path taken by this flow.
    pub path: NetworkPath,
    /// Ordered sequence of hops with telemetry data.
    pub hops: Vec<Hop>,
    /// Start time of the flow, in epoch milliseconds.
    pub start_time: i64,
    /// End time of the flow, in epoch milliseconds.
    pub end_time: i64,
    /// Flow completion status.
    pub status: FlowStatus,
}

impl View for Flow {
    type V = FlowView;

    open spec fn view(&self) -> FlowView {
        FlowView {
            flow_id: self.flow_id@,
            path: self.path@,
            hops: hops_views(self.hops@),
            start_time: self.start_time,
            end_time: self.end_time,
            status: self.status@,
        }
    }
}

/// The sum of the delays that are present, as a mathematical integer.
pub open spec fn spec_sum_delays(hv: Seq<HopView>) -> int
    decreases hv.len(),
{
    if hv.len() == 0 {
        0
    } else {
        spec_sum_delays(hv.drop_last()) + (match hv.last().metrics.delay_ns {
            Some(d) => d as int,
            None => 0,
        })
    }
}

/// Whether any hop records a delay.
pub open spec fn spec_has_delay(hv: Seq<HopView>) -> bool {
    exists|i: int| 0 <= i < hv.len() && (#[trigger] hv[i].metrics.delay_ns) is Some
}

/// The maximum queue utilization over the hops that record one.
pub open spec fn spec_max_queue_util(hv: Seq<HopView>) -> Option<u64>
    decreases hv.len(),
{
    if hv.len() == 0 {
        None
    } else {
        let rest = spec_max_queue_util(hv.drop_last());
        match (rest, hv.last().metrics.queue_util) {
            (r, None) => r,
            (None, Some(q)) => Some(q),
            (Some(m), Some(q)) => if q > m {
                Some(q)
            } else {
                Some(m)
            },
        }
    }
}

/// The number of hops that record a queue utilization.
pub open spec fn spec_queue_util_count(hv: Seq<HopView>) -> int
    decreases hv.len(),
{
    if hv.len() == 0 {
        0
    } else {
        spec_queue_util_count(hv.drop_last()) + (match hv.last().metrics.queue_util {
            Some(_) => 1int,
            None => 0int,
        })
    }
}

/// The sum of the queue utilizations that are present.
pub open spec fn spec_queue_util_sum(hv: Seq<HopView>) -> int
    decreases hv.len(),
{
    if hv.len() == 0 {
        0
    } else {
        spec_queue_util_sum(hv.drop_last()) + (match hv.last().metrics.queue_util {
            Some(q) => q as int,
            None => 0,
        })
    }
}

proof fn lemma_sum_delays_bound(hv: Seq<HopView>)
    ensures
        0 <= spec_sum_delays(hv) <= hv.len() * (u64::MAX as int),
    decreases hv.len(),
{
    if hv.len() > 0 {
        lemma_sum_delays_bound(hv.drop_last());
        assert((hv.len() - 1) * (u64::MAX as int) + (u64::MAX as int) == hv.len() * (
        u64::MAX as int)) by (nonlinear_arith);
    }
}

proof fn lemma_queue_util_sum_bound(hv: Seq<HopView>)
    ensures
        0 <= spec_queue_util_sum(hv) <= spec_queue_util_count(hv) * (u64::MAX as int),
        0 <= spec_queue_util_count(hv) <= hv.len(),
    decreases hv.len(),
{
    if hv.len() > 0 {
        lemma_queue_util_sum_bound(hv.drop_last());
        let c = spec_queue_util_count(hv.drop_last());
        assert(c * (u64::MAX as int) + (u64::MAX as int) == (c + 1) * (u64::MAX as int))
            by (nonlinear_arith);
    }
}

/// The hops derived from a wire payload: index from position, fields
/// from the entry at that position.
pub open spec fn input_hops_match(hv: Seq<HopView>, tv: Seq<HopInput>, n: int) -> bool {
    forall|j: int|
        0 <= j < n ==> (#[trigger] hv[j]).hop_index as int == j && hv[j].switch_id
            == tv[j].switch_id@ && hv[j].timestamp == tv[j].timestamp && hv[j].metrics.delay_ns
            == tv[j].delay_ns && hv[j].metrics.queue_util == tv[j].queue_util
}

impl Flow {
    /// The views of this flow's hops.
    pub open spec fn hops_view(&self) -> Seq<HopView> {
        hops_views(self.hops@)
    }

    /// A well-formed flow: at least one hop, hop indexes non-decreasing,
    /// a cached path hash, and path and hops naming the same switches.
    pub open spec fn wf(&self) -> bool {
        &&& self.hops@.len() > 0
        &&& sorted_by_index(self.hops_view())
        &&& self.path.wf()
        &&& same_switch_set(self.path.switches_view(), switches_of_hops(self.hops_view()))
    }

    /// Create a new flow from hops whose indexes equal their positions.
    ///
    /// Fails with `EmptyFlow` on an empty hop sequence, with
    /// `InvalidHopOrdering` when some hop's index differs from its
    /// position, and with `InvalidTimeOrdering` when the first hop's
    /// timestamp is later than the last hop's.
    pub fn new(flow_id: String, hops: Vec<Hop>) -> (r: Result<Flow, FlowError>)
        ensures
            hops@.len() == 0 ==> r == Err::<Flow, FlowError>(FlowError::EmptyFlow),
            hops@.len() > 0 && !indexes_ok(hops_views(hops@)) ==> r == Err::<Flow, FlowError>(
                FlowError::InvalidHopOrdering,
            ),
            hops@.len() > 0 && indexes_ok(hops_views(hops@)) && hops_views(hops@)[0].timestamp
                > hops_views(hops@).last().timestamp ==> r == Err::<Flow, FlowError>(
                FlowError::InvalidTimeOrdering,
            ),
            hops@.len() > 0 && indexes_ok(hops_views(hops@)) && hops_views(hops@)[0].timestamp
                <= hops_views(hops@).last().timestamp ==> (r matches Ok(f) && f.flow_id == flow_id
                && f.hops == hops && f.path.switches_view() == switches_of_hops(hops_views(hops@))
                && f.start_time == hops_views(hops@)[0].timestamp && f.end_time == hops_views(
                hops@,
            ).last().timestamp && f.status is Complete && f.wf()),
    {
        if hops.len() == 0 {
            return Err(FlowError::EmptyFlow);
        }
        let ghost hv = hops_views(hops@);
        let n = hops.len();
        let mut i: usize = 0;
        while i < n
            invariant
                n == hops@.len(),
                hv == hops_views(hops@),
                i <= n,
                forall|j: int| 0 <= j < i ==> (#[trigger] hv[j].hop_index) as int == j,
            decreases n - i,
        {
            if hops[i].hop_index as u64 != i as u64 {
                proof {
                    assert(hv[i as int].hop_index as int != i as int);
                }
                return Err(FlowError::InvalidHopOrdering);
            }
            i = i + 1;
        }
        let start_time = hops[0].timestamp;
        let end_time = hops[n - 1].timestamp;
        if start_time > end_time {
            return Err(FlowError::InvalidTimeOrdering);
        }
        let switches = switch_ids_of(&hops);
        let path = NetworkPath::new(switches);
        proof {
            assert(same_switch_set(path.switches_view(), switches_of_hops(hv))) by {
                assert forall|k: int| 0 <= k < path.switches_view().len() implies seq_has(
                    switches_of_hops(hv),
                    #[trigger] path.switches_view()[k],
                ) by {
                    assert(switches_of_hops(hv)[k] == path.switches_view()[k]);
                }
                assert forall|k: int| 0 <= k < switches_of_hops(hv).len() implies seq_has(
                    path.switches_view(),
                    #[trigger] switches_of_hops(hv)[k],
                ) by {
                    assert(path.switches_view()[k] == switches_of_hops(hv)[k]);
                }
            }
        }
        Ok(Flow { flow_id, path, hops, start_time, end_time, status: FlowStatus::Complete })
    }

    /// Create a partial flow: hops are sorted ascending by hop index
    /// (duplicates are kept), the path and time bounds are derived, and
    /// the status is `Partial`.
    pub fn new_partial(flow_id: String, hops: Vec<Hop>) -> (r: Flow)
        requires
            hops@.len() > 0,
        ensures
            r.flow_id == flow_id,
            r.hops@.to_multiset() == hops@.to_multiset(),
            sorted_by_index(r.hops_view()),
            r.path.switches_view() == switches_of_hops(r.hops_view()),
            r.start_time == r.hops_view()[0].timestamp,
            r.end_time == r.hops_view().last().timestamp,
            r.status is Partial,
            r.wf(),
    {
        let sorted = sort_hops_by_index(hops);
        proof {
            broadcast use vstd::seq_lib::group_to_multiset_ensures;

            assert(sorted@.len() == sorted@.to_multiset().len());
        }
        let switches = switch_ids_of(&sorted);
        let path = NetworkPath::new(switches);
        let start_time = sorted[0].timestamp;
        let end_time = sorted[sorted.len() - 1].timestamp;
        let ghost hv = hops_views(sorted@);
        proof {
            assert(same_switch_set(path.switches_view(), switches_of_hops(hv))) by {
                assert forall|k: int| 0 <= k < path.switches_view().len() implies seq_has(
                    switches_of_hops(hv),
                    #[trigger] path.switches_view()[k],
                ) by {
                    assert(switches_of_hops(hv)[k] == path.switches_view()[k]);
                }
                assert forall|k: int| 0 <= k < switches_of_hops(hv).len() implies seq_has(
                    path.switches_view(),
                    #[trigger] switches_of_hops(hv)[k],
                ) by {
                    assert(path.switches_view()[k] == switches_of_hops(hv)[k]);
                }
            }
        }
        Flow { flow_id, path, hops: sorted, start_time, end_time, status: FlowStatus::Partial }
    }

    /// Add a hop to a flow. Fails with `DuplicateHop` when the hop's
    /// index is already present; otherwise inserts it in index order and
    /// rebuilds the path and the time bounds. The status is unchanged.
    pub fn add_hop(&mut self, hop: Hop) -> (r: Result<(), FlowError>)
        requires
            old(self).wf(),
        ensures
            (exists|i: int|
                0 <= i < old(self).hops_view().len() && (#[trigger] old(self).hops_view()[i]).hop_index == hop.hop_index) <==> r is Err,
            r is Err ==> r == Err::<(), FlowError>(FlowError::DuplicateHop) && *final(self) == *old(self),
            r is Ok ==> final(self).hops@.to_multiset() == old(self).hops@.to_multiset().insert(
                hop,
            ) && final(self).flow_id == old(self).flow_id && final(self).status == old(self).status
                && sorted_by_index(final(self).hops_view()) && final(self).path.switches_view()
                == switches_of_hops(final(self).hops_view()) && final(self).start_time == final(self).hops_view()[0].timestamp && final(self).end_time == final(self).hops_view().last().timestamp && final(self).wf(),
    {
        let n = self.hops.len();
        let mut i: usize = 0;
        while i < n
            invariant
                n == self.hops@.len(),
                i <= n,
                self == old(self),
                forall|j: int| 0 <= j < i ==> (#[trigger] self.hops_view()[j]).hop_index
                    != hop.hop_index,
            decreases n - i,
        {
            if self.hops[i].hop_index == hop.hop_index {
                proof {
                    assert(self.hops_view()[i as int].hop_index == hop.hop_index);
                }
                return Err(FlowError::DuplicateHop);
            }
            i = i + 1;
        }
        let mut taken: Vec<Hop> = Vec::new();
        core::mem::swap(&mut taken, &mut self.hops);
        taken.push(hop);
        let sorted = sort_hops_by_index(taken);
        proof {
            broadcast use vstd::seq_lib::group_to_multiset_ensures;

            assert(sorted@.len() == sorted@.to_multiset().len());
            assert(sorted@.to_multiset().len() == old(self).hops@.len() + 1);
        }
        let switches = switch_ids_of(&sorted);
        let path = NetworkPath::new(switches);
        self.hops = sorted;
        self.path = path;
        self.start_time = self.hops[0].timestamp;
        self.end_time = self.hops[self.hops.len() - 1].timestamp;
        proof {
            let hv = self.hops_view();
            assert(same_switch_set(self.path.switches_view(), switches_of_hops(hv))) by {
                assert forall|k: int| 0 <= k < self.path.switches_view().len() implies seq_has(
                    switches_of_hops(hv),
                    #[trigger] self.path.switches_view()[k],
                ) by {
                    assert(switches_of_hops(hv)[k] == self.path.switches_view()[k]);
                }
                assert forall|k: int| 0 <= k < switches_of_hops(hv).len() implies seq_has(
                    self.path.switches_view(),
                    #[trigger] switches_of_hops(hv)[k],
                ) by {
                    assert(self.path.switches_view()[k] == switches_of_hops(hv)[k]);
                }
            }
        }
        Ok(())
    }

    /// Mark the flow as complete.
    pub fn mark_complete(&mut self)
        ensures
            final(self).status is Complete,
            final(self).flow_id == old(self).flow_id,
            final(self).path == old(self).path,
            final(self).hops == old(self).hops,
            final(self).start_time == old(self).start_time,
            final(self).end_time == old(self).end_time,
            old(self).wf() ==> final(self).wf(),
    {
        self.status = FlowStatus::Complete;
    }

    /// Mark the flow as timed out.
    pub fn mark_timeout(&mut self)
        ensures
            final(self).status is Timeout,
            final(self).flow_id == old(self).flow_id,
            final(self).path == old(self).path,
            final(self).hops == old(self).hops,
            final(self).start_time == old(self).start_time,
            final(self).end_time == old(self).end_time,
            old(self).wf() ==> final(self).wf(),
    {
        self.status = FlowStatus::Timeout;
    }

    /// The number of switches in the flow's path.
    pub fn path_length(&self) -> (r: usize)
        ensures
            r == self.path.switches_view().len(),
    {
        self.path.length()
    }

    /// The total end-to-end delay: the sum of the recorded per-hop
    /// delays, or `None` when no hop records a delay.
    pub fn total_delay(&self) -> (r: Option<u128>)
        ensures
            r is None <==> !spec_has_delay(self.hops_view()),
            r matches Some(t) ==> t as int == spec_sum_delays(self.hops_view()),
    {
        let ghost hv = self.hops_view();
        let n = self.hops.len();
        let mut sum: u128 = 0;
        let mut found = false;
        let mut i: usize = 0;
        while i < n
            invariant
                n == self.hops@.len(),
                hv == self.hops_view(),
                i <= n,
                sum as int == spec_sum_delays(hv.take(i as int)),
                found == spec_has_delay(hv.take(i as int)),
            decreases n - i,
        {
            let ghost pre = hv.take(i as int);
            match self.hops[i].metrics.delay_ns {
                Some(d) => {
                    proof {
                        lemma_sum_delays_bound(hv.take(i as int + 1));
                        assert(hv.take(i as int + 1).drop_last() =~= pre);
                        assert((i as int + 1) * (u64::MAX as int) <= (u64::MAX as int) * (
                        u64::MAX as int)) by (nonlinear_arith)
                            requires
                                0 <= i as int + 1 <= u64::MAX as int,
                        ;
                    }
                    sum = sum + (d as u128);
                    found = true;
                },
                None => {
                    proof {
                        assert(hv.take(i as int + 1).drop_last() =~= pre);
                    }
                },
            }
            i = i + 1;
            proof {
                assert(hv.take(i as int).drop_last() =~= hv.take(i as int - 1));
                if spec_has_delay(hv.take(i as int)) && !spec_has_delay(hv.take(i as int - 1)) {
                    assert(hv.take(i as int)[i - 1].metrics.delay_ns is Some
                        ==> hv[i - 1].metrics.delay_ns is Some);
                    let w = choose|k: int|
                        0 <= k < i && (#[trigger] hv.take(i as int)[k].metrics.delay_ns) is Some;
                    if w < i - 1 {
                        assert(hv.take(i as int - 1)[w].metrics.delay_ns is Some);
                    }
                }
            }
        }
        proof {
            assert(hv.take(n as int) =~= hv);
        }
        if found {
            Some(sum)
        } else {
            None
        }
    }

    /// The maximum queue utilization (in millionths) over the hops that
    /// record one, or `None` when none does.
    pub fn max_queue_utilization(&self) -> (r: Option<u64>)
        ensures
            r == spec_max_queue_util(self.hops_view()),
    {
        let ghost hv = self.hops_view();
        let n = self.hops.len();
        let mut cur: Option<u64> = None;
        let mut i: usize = 0;
        while i < n
            invariant
                n == self.hops@.len(),
                hv == self.hops_view(),
                i <= n,
                cur == spec_max_queue_util(hv.take(i as int)),
            decreases n - i,
        {
            let ghost pre = hv.take(i as int);
            match self.hops[i].metrics.queue_util {
                Some(q) => {
                    cur = match cur {
                        None => Some(q),
                        Some(m) => if q > m {
                            Some(q)
                        } else {
                            Some(m)
                        },
                    };
                },
                None => {},
            }
            i = i + 1;
            proof {
                assert(hv.take(i as int).drop_last() =~= pre);
            }
        }
        proof {
            assert(hv.take(n as int) =~= hv);
        }
        cur
    }

    /// The sum and count of the recorded per-hop queue utilizations.
    pub fn queue_util_totals(&self) -> (r: (u128, usize))
        ensures
            r.0 as int == spec_queue_util_sum(self.hops_view()),
            r.1 as int == spec_queue_util_count(self.hops_view()),
    {
        let ghost hv = self.hops_view();
        let n = self.hops.len();
        let mut sum: u128 = 0;
        let mut count: usize = 0;
        let mut i: usize = 0;
        while i < n
            invariant
                n == self.hops@.len(),
                hv == self.hops_view(),
                i <= n,
                sum as int == spec_queue_util_sum(hv.take(i as int)),
                count as int == spec_queue_util_count(hv.take(i as int)),
                count <= i,
            decreases n - i,
        {
            let ghost pre = hv.take(i as int);
            match self.hops[i].metrics.queue_util {
                Some(q) => {
                    proof {
                        lemma_queue_util_sum_bound(hv.take(i as int + 1));
                        assert(hv.take(i as int + 1).drop_last() =~= pre);
                        assert(spec_queue_util_count(hv.take(i as int + 1)) * (u64::MAX as int) <= (
                        u64::MAX as int) * (u64::MAX as int)) by (nonlinear_arith)
                            requires
                                0 <= spec_queue_util_count(hv.take(i as int + 1))
                                    <= u64::MAX as int,
                        ;
                    }
                    sum = sum + (q as u128);
                    count = count + 1;
                },
                None => {
                    proof {
                        assert(hv.take(i as int + 1).drop_last() =~= pre);
                    }
                },
            }
            i = i + 1;
        }
        proof {
            assert(hv.take(n as int) =~= hv);
        }
        (sum, count)
    }

    /// The truncated mean queue utilization (in millionths) over the
    /// hops that record one, or `None` when none does.
    pub fn avg_queue_utilization(&self) -> (r: Option<u64>)
        ensures
            r is None <==> spec_queue_util_count(self.hops_view()) == 0,
            r matches Some(a) ==> a as int == spec_queue_util_sum(self.hops_view())
                / spec_queue_util_count(self.hops_view()),
    {
        let ghost hv = self.hops_view();
        let (sum, count) = self.queue_util_totals();
        if count == 0 {
            None
        } else {
            proof {
                lemma_queue_util_sum_bound(hv);
                vstd::arithmetic::div_mod::lemma_div_is_ordered(
                    sum as int,
                    spec_queue_util_count(hv) * (u64::MAX as int),
                    count as int,
                );
                vstd::arithmetic::div_mod::lemma_div_multiples_vanish(
                    u64::MAX as int,
                    count as int,
                );
                assert(spec_queue_util_count(hv) * (u64::MAX as int) == (count as int) * (
                u64::MAX as int));
                assert((count as int) * (u64::MAX as int) == (u64::MAX as int) * (count as int))
                    by (nonlinear_arith);
            }
            let avg = sum / (count as u128);
            Some(avg as u64)
        }
    }

    /// Whether some hop of the flow was recorded at `switch_id`.
    pub fn contains_switch(&self, switch_id: &str) -> (r: bool)
        ensures
            r == seq_has(switches_of_hops(self.hops_view()), switch_id@),
    {
        let ghost sw = switches_of_hops(self.hops_view());
        let n = self.hops.len();
        let mut i: usize = 0;
        while i < n
            invariant
                n == self.hops@.len(),
                sw == switches_of_hops(self.hops_view()),
                i <= n,
                forall|j: int| 0 <= j < i ==> #[trigger] sw[j] != switch_id@,
            decreases n - i,
        {
            if str_eq(self.hops[i].switch_id.as_str(), switch_id) {
                proof {
                    assert(sw[i as int] == switch_id@);
                }
                return true;
            }
            i = i + 1;
        }
        false
    }

    /// The flow duration in milliseconds: end time minus start time.
    pub fn duration_ms(&self) -> (r: i64)
        requires
            i64::MIN as int <= self.end_time - self.start_time <= i64::MAX as int,
        ensures
            r as int == self.end_time - self.start_time,
    {
        self.end_time - self.start_time
    }

    /// Whether the flow's status is `Complete`.
    pub fn is_complete(&self) -> (r: bool)
        ensures
            r == (self.status is Complete),
    {
        match self.status {
            FlowStatus::Complete => true,
            _ => false,
        }
    }

    /// The content hash of the flow's path, the exact-path index key.
    pub fn path_hash(&self) -> (r: String)
        requires
            self.path.hash_consistent(),
        ensures
            r@ == spec_path_hash(self.path.switches_view()),
    {
        self.path.hash()
    }

    /// Build a flow from a wire-format payload: each telemetry entry
    /// becomes the hop at its position. Fails with `EmptyFlow` on an
    /// empty telemetry sequence and with `InvalidTimeOrdering` when the
    /// first entry's timestamp is later than the last entry's.
    pub fn from_input(input: FlowInput) -> (r: Result<Flow, FlowError>)
        requires
            input.telemetry@.len() <= u32::MAX,
        ensures
            input.telemetry@.len() == 0 <==> r == Err::<Flow, FlowError>(FlowError::EmptyFlow),
            input.telemetry@.len() > 0 && input.telemetry@[0].timestamp
                > input.telemetry@.last().timestamp ==> r == Err::<Flow, FlowError>(
                FlowError::InvalidTimeOrdering,
            ),
            input.telemetry@.len() > 0 && input.telemetry@[0].timestamp
                <= input.telemetry@.last().timestamp ==> (r matches Ok(f) && f.flow_id
                == input.flow_id && f.wf() && f.status is Complete && f.hops@.len()
                == input.telemetry@.len() && input_hops_match(
                f.hops_view(),
                input.telemetry@,
                input.telemetry@.len() as int,
            ) && f.start_time == input.telemetry@[0].timestamp && f.end_time
                == input.telemetry@.last().timestamp),
    {
        if input.telemetry.len() == 0 {
            return Err(FlowError::EmptyFlow);
        }
        let mut telemetry = input.telemetry;
        let ghost tv = telemetry@;
        let mut hops: Vec<Hop> = Vec::new();
        let mut i: usize = 0;
        let n = telemetry.len();
        while i < n
            invariant
                n == tv.len(),
                telemetry@ == tv.subrange(i as int, n as int),
                hops@.len() == i <= n,
                n <= u32::MAX,
                input_hops_match(hops_views(hops@), tv, i as int),
            decreases n - i,
        {
            let entry = telemetry.remove(0);
            proof {
                assert(tv.subrange(i as int, n as int)[0] == tv[i as int]);
                assert(tv.subrange(i as int, n as int).subrange(
                    1,
                    tv.subrange(i as int, n as int).len() as int,
                ) =~= tv.subrange(i as int + 1, n as int));
            }
            let hop = Hop::from_input(i as u32, entry);
            let ghost hops_before = hops@;
            hops.push(hop);
            proof {
                assert(input_hops_match(hops_views(hops@), tv, i as int + 1)) by {
                    assert forall|j: int| 0 <= j < i + 1 implies (#[trigger] hops_views(
                        hops@,
                    )[j]).hop_index as int == j && hops_views(hops@)[j].switch_id
                        == tv[j].switch_id@ && hops_views(hops@)[j].timestamp == tv[j].timestamp
                        && hops_views(hops@)[j].metrics.delay_ns == tv[j].delay_ns && hops_views(
                        hops@,
                    )[j].metrics.queue_util == tv[j].queue_util by {
                        if j < i {
                            assert(hops@[j] == hops_before[j]);
                            assert((#[trigger] hops_views(hops_before)[j]).hop_index as int == j);
                        } else {
                            assert(hops@[j] == hop);
                        }
                    }
                }
            }
            i = i + 1;
        }
        proof {
            assert(indexes_ok(hops_views(hops@)));
            assert(hops_views(hops@)[0].timestamp == tv[0].timestamp);
            assert(hops_views(hops@).last().timestamp == tv.last().timestamp);
        }
        Flow::new(input.flow_id, hops)
    }
}

impl Clone for Flow {
    fn clone(&self) -> (r: Self)
        ensures
            r@ == self@,
            r.wf() == self.wf(),
            r.path.path_hash == self.path.path_hash,
            r.path.hash_consistent() == self.path.hash_consistent(),
    {
        let r = Flow {
            flow_id: self.flow_id.clone(),
            path: self.path.clone(),
            hops: clone_hops_pub(&self.hops),
            start_time: self.start_time,
            end_time: self.end_time,
            status: self.status.clone(),
        };
        proof {
            assert(r.path.switches_view() == self.path.switches_view());
            assert(r.hops_view() == self.hops_view());
        }
        r
    }
}

/// Copy a vector of hops, preserving every hop's value.
pub fn clone_hops_pub(v: &Vec<Hop>) -> (r: Vec<Hop>)
    ensures
        hops_views(r@) == hops_views(v@),
        r@.len() == v@.len(),
{
    let mut r: Vec<Hop> = Vec::new();
    let mut i: usize = 0;
    while i < v.len()
        invariant
            i <= v.len(),
            r@.len() == i,
            forall|j: int| 0 <= j < i ==> #[trigger] r@[j]@ == v@[j]@,
        decreases v.len() - i,
    {
        r.push(v[i].clone());
        i = i + 1;
    }
    proof {
        assert(hops_views(r@) =~= hops_views(v@));
    }
    r
}

/// The switch identifiers of the hops, in hop order, as owned strings.
fn switch_ids_of(hops: &Vec<Hop>) -> (r: Vec<String>)
    ensures
        strs_view(r@) == switches_of_hops(hops_views(hops@)),
{
    let mut r: Vec<String> = Vec::new();
    let mut i: usize = 0;
    while i < hops.len()
        invariant
            i <= hops@.len(),
            r@.len() == i,
            forall|j: int| 0 <= j < i ==> #[trigger] r@[j]@ == hops@[j].switch_id@,
        decreases hops.len() - i,
    {
        r.push(hops[i].switch_id.clone());
        i = i + 1;
    }
    proof {
        assert(strs_view(r@) =~= switches_of_hops(hops_views(hops@)));
    }
    r
}

/// Sort hops ascending by hop index. Equal indexes keep their relative
/// order. The result holds exactly the input hops.
fn sort_hops_by_index(hops: Vec<Hop>) -> (r: Vec<Hop>)
    ensures
        r@.to_multiset() == hops@.to_multiset(),
        r@.len() == hops@.len(),
        sorted_by_index(hops_views(r@)),
{
    broadcast use vstd::seq_lib::group_to_multiset_ensures;

    let ghost orig = hops@;
    let mut src = hops;
    let mut out: Vec<Hop> = Vec::new();
    while src.len() > 0
        invariant
            out@.to_multiset().add(src@.to_multiset()) == orig.to_multiset(),
            out@.len() + src@.len() == orig.len(),
            sorted_by_index(hops_views(out@)),
            forall|a: int, b: int|
                0 <= a < out@.len() && 0 <= b < src@.len() ==> (#[trigger] hops_views(
                    out@,
                )[a]).hop_index <= (#[trigger] hops_views(src@)[b]).hop_index,
        decreases src.len(),
    {
        let mut min_i: usize = 0;
        let mut k: usize = 1;
        while k < src.len()
            invariant
                src@.len() > 0,
                min_i < k <= src@.len(),
                forall|t: int| 0 <= t < k ==> (#[trigger] hops_views(src@)[min_i as int]).hop_index
                    <= hops_views(src@)[t].hop_index,
            decreases src.len() - k,
        {
            if src[k].hop_index < src[min_i].hop_index {
                min_i = k;
            }
            k = k + 1;
        }
        let ghost src_before = src@;
        let h = src.remove(min_i);
        let ghost out_before = out@;
        out.push(h);
        proof {
            broadcast use vstd::multiset::group_multiset_axioms;

            out_before.to_multiset_ensures();
            src_before.to_multiset_ensures();
            assert(src@ == src_before.remove(min_i as int));
            assert(out@ == out_before.push(h));
            assert(h == src_before[min_i as int]);
            assert(out_before.push(h).to_multiset() =~= out_before.to_multiset().insert(h));
            assert(src_before.contains(h));
            assert(src_before.to_multiset().count(h) > 0);
            assert(src_before.remove(min_i as int).to_multiset() =~= src_before.to_multiset().remove(h));
            assert(out@.to_multiset().add(src@.to_multiset()) =~= orig.to_multiset());
            assert(sorted_by_index(hops_views(out@))) by {
                assert forall|a: int, b: int| 0 <= a <= b < out@.len() implies (
                #[trigger] hops_views(out@)[a]).hop_index <= (#[trigger] hops_views(
                    out@,
                )[b]).hop_index by {
                    if b < out@.len() - 1 {
                        assert(hops_views(out_before)[a].hop_index
                            <= hops_views(out_before)[b].hop_index);
                    } else if a < b {
                        assert(hops_views(out_before)[a].hop_index <= hops_views(
                            src_before,
                        )[min_i as int].hop_index);
                    }
                }
            }
            assert forall|a: int, b: int|
                0 <= a < out@.len() && 0 <= b < src@.len() implies (#[trigger] hops_views(
                out@,
            )[a]).hop_index <= (#[trigger] hops_views(src@)[b]).hop_index by {
                let b0 = if b < min_i {
                    b
                } else {
                    b + 1
                };
                assert(src@[b] == src_before[b0]);
                assert(hops_views(src_before)[min_i as int].hop_index <= hops_views(
                    src_before,
                )[b0].hop_index);
                if a < out@.len() - 1 {
                    assert(hops_views(out_before)[a].hop_index <= hops_views(
                        src_before,
                    )[min_i as int].hop_index);
                }
            }
        }
    }
    proof {
        src@.to_multiset_ensures();
        assert(src@.to_multiset() =~= Multiset::empty()) by {
            assert(src@.to_multiset().len() == 0);
        }
        assert(out@.to_multiset() =~= orig.to_multiset());
    }
    out
}

/// Wire-format input for creating a flow: an identifier and a sequence
/// of telemetry entries without explicit hop indexes.
pub struct FlowInput {
    pub flow_id: String,
    pub telemetry: Vec<HopInput>,
}

} // verus!
