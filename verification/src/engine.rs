//! The storage engine: the primary flow store, both indexes, the
//! insert protocol with append semantics, and the query planner.

use vstd::prelude::*;

use crate::flow::{seq_has, switches_of_hops, Flow, FlowView};
use crate::path::NetworkPath;
use crate::path_index::{flow_exact_key, prefix_key, PathIndex};
use crate::strutil::string_eq;
use crate::idmap::{ids_distinct, strs_contain};
use crate::planner::{contains_string, exec_pair_view, intersect_ids, pair_of, sort_pairs_len,
    sort_survivors, spec_matching_pairs, spec_page, spec_query_ids};
use crate::query::{spec_metric_matches, spec_path_cond_wf, spec_path_matches, spec_query_matches,
    spec_time_matches, PathCondition, QueryBuilder, QueryResult, TimeCondition};
use crate::strutil::{lemma_window_join_contains, spec_contains, spec_join, spec_starts_with,
    str_to_owned, strs_view};
use crate::time_index::lemma_bucket_monotonic;

use crate::time_index::{spec_bucket, TimeIndex, MAX_BUCKET_SIZE};

verus! {

/// Storage engine configuration.
pub struct EngineConfig {
    /// Width of the time-index buckets, in seconds.
    pub time_bucket_size: i64,
    /// Maximum number of flows kept in memory, if capped.
    pub max_flows: Option<usize>,
    /// Retention period in hours. Configured but not enforced: the
    /// engine starts no background reaper.
    pub auto_cleanup_hours: Option<i64>,
}

impl Clone for EngineConfig {
    fn clone(&self) -> (r: Self)
        ensures
            r == *self,
    {
        EngineConfig {
            time_bucket_size: self.time_bucket_size,
            max_flows: self.max_flows,
            auto_cleanup_hours: self.auto_cleanup_hours,
        }
    }
}

impl Default for EngineConfig {
    /// One-minute buckets, a one-million-flow cap, 24-hour retention.
    fn default() -> (r: Self)
        ensures
            r.time_bucket_size == 60,
            r.max_flows == Some(1000000usize),
            r.auto_cleanup_hours == Some(24i64),
    {
        EngineConfig { time_bucket_size: 60, max_flows: Some(1000000), auto_cleanup_hours: Some(24) }
    }
}

/// Storage engine errors.
#[derive(Debug)]
pub enum StorageError {
    /// No flow with the given identifier exists.
    FlowNotFound(String),
    /// A flow with the given identifier already exists.
    FlowAlreadyExists(String),
    /// The store reached its capacity.
    StorageFull,
    /// The query is malformed.
    InvalidQuery(String),
    /// The engine is read-only.
    ReadOnly,
}

impl StorageError {
    /// A short description of the error.
    pub fn message(&self) -> (r: &'static str)
        ensures
            *self is FlowNotFound ==> r@ == "flow not found"@,
            *self is FlowAlreadyExists ==> r@ == "flow already exists"@,
            *self is StorageFull ==> r@ == "storage full: reached maximum capacity"@,
            *self is InvalidQuery ==> r@ == "invalid query"@,
            *self is ReadOnly ==> r@ == "engine is read-only"@,
    {
        match self {
            StorageError::FlowNotFound(_) => "flow not found",
            StorageError::FlowAlreadyExists(_) => "flow already exists",
            StorageError::StorageFull => "storage full: reached maximum capacity",
            StorageError::InvalidQuery(_) => "invalid query",
            StorageError::ReadOnly => "engine is read-only",
        }
    }
}

/// Relies on chrono's Utc::now: the current wall-clock time as epoch
/// milliseconds. Nothing is assumed of the value returned.
#[verifier::external_body]
pub(crate) fn now_millis() -> i64 {
    chrono::Utc::now().timestamp_millis()
}

/// The in-memory storage engine: the primary flow store, the path
/// index and the time index, kept consistent by every operation.
pub struct StorageEngine {
    pub(crate) flows: Vec<Flow>,
    pub(crate) path_index: PathIndex,
    pub(crate) time_index: TimeIndex,
    pub(crate) config: EngineConfig,
    pub(crate) read_only: bool,
}

impl StorageEngine {
    /// The stored flows, in insertion order.
    pub closed spec fn flows_seq(&self) -> Seq<Flow> {
        self.flows@
    }

    /// The path index.
    pub closed spec fn pindex(&self) -> PathIndex {
        self.path_index
    }

    /// The time index.
    pub closed spec fn tindex(&self) -> TimeIndex {
        self.time_index
    }

    /// The engine configuration.
    pub closed spec fn spec_config(&self) -> EngineConfig {
        self.config
    }

    /// Whether the engine rejects writes.
    pub closed spec fn spec_read_only(&self) -> bool {
        self.read_only
    }

    /// A flow with identifier `id` is stored.
    pub open spec fn has_id(&self, id: Seq<char>) -> bool {
        exists|i: int| 0 <= i < self.flows_seq().len() && (#[trigger] self.flows_seq()[i]).flow_id@
            == id
    }

    /// The position of the flow with identifier `id`.
    pub open spec fn index_of(&self, id: Seq<char>) -> int {
        choose|i: int|
            0 <= i < self.flows_seq().len() && (#[trigger] self.flows_seq()[i]).flow_id@ == id
    }

    /// The stored flows are well-formed and carry distinct identifiers.
    pub open spec fn flows_wf(&self) -> bool {
        &&& forall|i: int| 0 <= i < self.flows_seq().len() ==> (#[trigger] self.flows_seq()[i]).wf()
        &&& forall|i: int, j: int|
            0 <= i < j < self.flows_seq().len() ==> (#[trigger] self.flows_seq()[i]).flow_id@ != (
            #[trigger] self.flows_seq()[j]).flow_id@
    }

    /// Every pair held by an index belongs to a stored flow: the flow
    /// exists and the key is one of the flow's keys.
    pub open spec fn indexes_tight(&self) -> bool {
        &&& forall|k: Seq<char>, x: Seq<char>|
            #[trigger] self.pindex().exact_has(k, x) ==> (exists|i: int|
                0 <= i < self.flows_seq().len() && (#[trigger] self.flows_seq()[i]).flow_id@ == x
                    && k == flow_exact_key(self.flows_seq()[i]))
        &&& forall|k: Seq<char>, x: Seq<char>|
            #[trigger] self.pindex().switch_has(k, x) ==> (exists|i: int|
                0 <= i < self.flows_seq().len() && (#[trigger] self.flows_seq()[i]).flow_id@ == x
                    && seq_has(self.flows_seq()[i].path.switches_view(), k))
        &&& forall|k: Seq<char>, x: Seq<char>|
            #[trigger] self.pindex().prefix_has(k, x) ==> (exists|i: int|
                0 <= i < self.flows_seq().len() && (#[trigger] self.flows_seq()[i]).flow_id@ == x
                    && (exists|j: int|
                    1 <= j <= self.flows_seq()[i].path.switches_view().len() && k == prefix_key(
                        self.flows_seq()[i].path.switches_view(),
                        j,
                    )))
        &&& forall|b: int, x: Seq<char>|
            #[trigger] self.tindex().has(b, x) ==> (exists|i: int|
                0 <= i < self.flows_seq().len() && (#[trigger] self.flows_seq()[i]).flow_id@ == x
                    && b == spec_bucket(self.flows_seq()[i].start_time as int, self.tindex().width()))
    }

    /// Every stored flow is filed under all of its keys in both
    /// indexes.
    pub open spec fn indexes_complete(&self) -> bool {
        &&& forall|i: int|
            0 <= i < self.flows_seq().len() ==> self.pindex().exact_has(
                flow_exact_key(#[trigger] self.flows_seq()[i]),
                self.flows_seq()[i].flow_id@,
            )
        &&& forall|i: int, t: int|
            0 <= i < self.flows_seq().len() && 0 <= t < (
            #[trigger] self.flows_seq()[i]).path.switches_view().len() ==> self.pindex().switch_has(
                #[trigger] self.flows_seq()[i].path.switches_view()[t],
                self.flows_seq()[i].flow_id@,
            )
        &&& forall|i: int, j: int|
            0 <= i < self.flows_seq().len() && 1 <= j <= self.flows_seq()[i].path.switches_view().len()
                ==> self.pindex().prefix_has(
                #[trigger] prefix_key(self.flows_seq()[i].path.switches_view(), j),
                self.flows_seq()[i].flow_id@,
            )
        &&& forall|i: int|
            0 <= i < self.flows_seq().len() ==> self.tindex().has(
                spec_bucket(
                    (#[trigger] self.flows_seq()[i]).start_time as int,
                    self.tindex().width(),
                ),
                self.flows_seq()[i].flow_id@,
            )
    }

    /// The engine invariant: well-formed flows and indexes, matching
    /// bucket width, and indexes that hold exactly the stored flows'
    /// keys.
    pub open spec fn wf(&self) -> bool {
        &&& self.flows_wf()
        &&& self.pindex().wf()
        &&& self.tindex().wf()
        &&& self.tindex().width() == self.spec_config().time_bucket_size as int
        &&& self.indexes_tight()
        &&& self.indexes_complete()
    }

    /// Create a storage engine with the default configuration.
    pub fn new() -> (r: Self)
        ensures
            r.wf(),
            r.flows_seq().len() == 0,
            r.spec_config().time_bucket_size == 60,
            r.spec_config().max_flows == Some(1000000usize),
            !r.spec_read_only(),
    {
        StorageEngine::with_config(EngineConfig::default())
    }

    /// Create a storage engine with the given configuration.
    pub fn with_config(config: EngineConfig) -> (r: Self)
        requires
            1 <= config.time_bucket_size <= MAX_BUCKET_SIZE,
        ensures
            r.wf(),
            r.flows_seq().len() == 0,
            r.spec_config() == config,
            !r.spec_read_only(),
    {
        let time_index = TimeIndex::new(config.time_bucket_size);
        StorageEngine {
            flows: Vec::new(),
            path_index: PathIndex::new(),
            time_index,
            config,
            read_only: false,
        }
    }

    /// The stored flow with identifier `flow_id`, or `None`.
    pub fn get_flow(&self, flow_id: &str) -> (r: Option<Flow>)
        requires
            self.flows_wf(),
        ensures
            r is Some <==> self.has_id(flow_id@),
            r matches Some(f) ==> f@ == self.flows_seq()[self.index_of(flow_id@)]@ && f.wf(),
    {
        let n = self.flows.len();
        let mut i: usize = 0;
        while i < n
            invariant
                self.flows_wf(),
                n == self.flows@.len(),
                i <= n,
                forall|j: int| 0 <= j < i ==> (#[trigger] self.flows@[j]).flow_id@ != flow_id@,
            decreases n - i,
        {
            if crate::strutil::str_eq(self.flows[i].flow_id.as_str(), flow_id) {
                let f = self.flows[i].clone();
                proof {
                    assert(self.flows_seq()[i as int].flow_id@ == flow_id@);
                    let w = self.index_of(flow_id@);
                    if w != i {
                        assert(self.flows_seq()[w].flow_id@ == self.flows_seq()[
                        i as int].flow_id@);
                        assert(false);
                    }
                }
                return Some(f);
            }
            i = i + 1;
        }
        None
    }

    /// The stored flows among `flow_ids`, in the order given; missing
    /// identifiers are silently dropped.
    pub fn get_flows(&self, flow_ids: &[String]) -> (r: Vec<Flow>)
        requires
            self.flows_wf(),
        ensures
            r@.map_values(|f: Flow| f@) == spec_present_flows(
                self.flows_seq(),
                flow_ids@.map_values(|s: String| s@),
            ),
            forall|i: int| 0 <= i < r@.len() ==> (#[trigger] r@[i]).wf(),
    {
        let ghost idseq = flow_ids@.map_values(|s: String| s@);
        let mut r: Vec<Flow> = Vec::new();
        let mut i: usize = 0;
        while i < flow_ids.len()
            invariant
                self.flows_wf(),
                i <= flow_ids@.len(),
                idseq == flow_ids@.map_values(|s: String| s@),
                r@.map_values(|f: Flow| f@) == spec_present_flows(
                    self.flows_seq(),
                    idseq.take(i as int),
                ),
                forall|t: int| 0 <= t < r@.len() ==> (#[trigger] r@[t]).wf(),
            decreases flow_ids@.len() - i,
        {
            let ghost pre = idseq.take(i as int);
            let ghost rpre = r@.map_values(|f: Flow| f@);
            match self.get_flow(flow_ids[i].as_str()) {
                Some(f) => {
                    r.push(f);
                },
                None => {},
            }
            i = i + 1;
            proof {
                assert(idseq.take(i as int).drop_last() =~= pre);
                assert(idseq.take(i as int).last() == idseq[i - 1]);
                assert(r@.map_values(|f: Flow| f@) =~= spec_present_flows(
                    self.flows_seq(),
                    idseq.take(i as int),
                ));
            }
        }
        proof {
            assert(idseq.take(idseq.len() as int) =~= idseq);
        }
        r
    }

    /// The number of stored flows.
    pub fn flow_count(&self) -> (r: usize)
        ensures
            r == self.flows_seq().len(),
    {
        self.flows.len()
    }
}

/// The views of the flows of `flows` whose identifier occurs in `ids`,
/// in the order of `ids`; absent identifiers contribute nothing.
pub open spec fn spec_present_flows(flows: Seq<Flow>, ids: Seq<Seq<char>>) -> Seq<FlowView>
    decreases ids.len(),
{
    if ids.len() == 0 {
        Seq::empty()
    } else {
        let rest = spec_present_flows(flows, ids.drop_last());
        if exists|i: int| 0 <= i < flows.len() && (#[trigger] flows[i]).flow_id@ == ids.last() {
            let w = choose|i: int|
                0 <= i < flows.len() && (#[trigger] flows[i]).flow_id@ == ids.last();
            rest.push(flows[w]@)
        } else {
            rest
        }
    }
}


/// The hops of `hops` renumbered to start at `base`.
pub open spec fn spec_renumbered(hops: Seq<crate::hop::HopView>, base: int) -> Seq<
    crate::hop::HopView,
> {
    Seq::new(
        hops.len(),
        |j: int|
            crate::hop::HopView {
                hop_index: (base + j) as u32,
                switch_id: hops[j].switch_id,
                timestamp: hops[j].timestamp,
                metrics: hops[j].metrics,
            },
    )
}

/// The switches of `a` followed by each switch of `b` not yet present,
/// in first-occurrence order.
pub open spec fn spec_append_switches(a: Seq<Seq<char>>, b: Seq<Seq<char>>) -> Seq<Seq<char>>
    decreases b.len(),
{
    if b.len() == 0 {
        a
    } else {
        let prev = spec_append_switches(a, b.drop_last());
        if seq_has(prev, b.last()) {
            prev
        } else {
            prev.push(b.last())
        }
    }
}

/// Appending switches unions the switch sets.
pub proof fn lemma_append_switches_set(a: Seq<Seq<char>>, b: Seq<Seq<char>>)
    ensures
        forall|s: Seq<char>|
            #[trigger] seq_has(spec_append_switches(a, b), s) <==> (seq_has(a, s) || seq_has(b, s)),
    decreases b.len(),
{
    if b.len() > 0 {
        lemma_append_switches_set(a, b.drop_last());
        let prev = spec_append_switches(a, b.drop_last());
        let full = spec_append_switches(a, b);
        assert forall|s: Seq<char>| #[trigger]
            seq_has(full, s) <==> (seq_has(a, s) || seq_has(b, s)) by {
            if seq_has(full, s) {
                if seq_has(prev, s) {
                    if !seq_has(a, s) {
                        let k = choose|k: int|
                            0 <= k < b.drop_last().len() && (#[trigger] b.drop_last()[k]) == s;
                        assert(b[k] == s);
                    }
                } else {
                    let k = choose|k: int| 0 <= k < full.len() && (#[trigger] full[k]) == s;
                    assert(k == full.len() - 1);
                    assert(b.last() == s);
                    assert(b[b.len() - 1] == s);
                }
            }
            if seq_has(a, s) || seq_has(b, s) {
                if seq_has(a, s) || (exists|k: int|
                    0 <= k < b.len() - 1 && (#[trigger] b[k]) == s) {
                    assert(seq_has(b.drop_last(), s) || seq_has(a, s)) by {
                        if !seq_has(a, s) {
                            let k = choose|k: int| 0 <= k < b.len() - 1 && (#[trigger] b[k]) == s;
                            assert(b.drop_last()[k] == s);
                        }
                    }
                    assert(seq_has(prev, s));
                    if seq_has(prev, b.last()) {
                        assert(seq_has(full, s));
                    } else {
                        let k = choose|k: int| 0 <= k < prev.len() && (#[trigger] prev[k]) == s;
                        assert(full[k] == s);
                        assert(seq_has(full, s));
                    }
                } else {
                    assert(b[b.len() - 1] == s) by {
                        let k = choose|k: int| 0 <= k < b.len() && (#[trigger] b[k]) == s;
                        assert(k == b.len() - 1);
                    }
                    if seq_has(prev, s) {
                        let k = choose|k: int| 0 <= k < prev.len() && (#[trigger] prev[k]) == s;
                        if seq_has(prev, b.last()) {
                            assert(full == prev);
                            assert(full[k] == s);
                        } else {
                            assert(full[k] == s);
                        }
                        assert(seq_has(full, s));
                    } else {
                        assert(full == prev.push(s));
                        assert(full.last() == s);
                        assert(seq_has(full, s));
                    }
                }
            }
        }
    }
}

/// Renumbering is possible: the incoming hops fit after the existing
/// flow's last hop index.
pub open spec fn merge_fits(ex: Flow, inc: Flow) -> bool {
    ex.hops_view().last().hop_index + inc.hops_view().len() <= u32::MAX
}

/// What the merge of an incoming flow into an existing flow looks
/// like: hops appended and renumbered past the existing maximum, time
/// bounds widened, unseen switches appended to the path.
pub open spec fn merge_ok(ex: Flow, inc: Flow, m: Flow) -> bool {
    let base = ex.hops_view().last().hop_index as int + 1;
    &&& m.flow_id@ == ex.flow_id@
    &&& m.hops_view() == ex.hops_view() + spec_renumbered(inc.hops_view(), base)
    &&& m.start_time == if inc.start_time < ex.start_time {
        inc.start_time
    } else {
        ex.start_time
    }
    &&& m.end_time == if inc.end_time > ex.end_time {
        inc.end_time
    } else {
        ex.end_time
    }
    &&& m.path.switches_view() == spec_append_switches(
        ex.path.switches_view(),
        inc.path.switches_view(),
    )
    &&& m.status@ == ex.status@
    &&& m.wf()
}

/// Merge an incoming flow into a copy of the existing flow with the
/// same identifier: clone the incoming hops with indexes renumbered to
/// follow the existing ones, widen the time bounds, append unseen
/// switches to the path, and rebuild the path hash.
fn merge_flows(existing: &Flow, incoming: &Flow) -> (r: Result<Flow, ()>)
    requires
        existing.wf(),
        incoming.wf(),
    ensures
        r is Ok <==> merge_fits(*existing, *incoming),
        r matches Ok(m) ==> merge_ok(*existing, *incoming, m),
{
    let ghost exv = existing.hops_view();
    let ghost incv = incoming.hops_view();
    let n_ex = existing.hops.len();
    let last_idx = existing.hops[n_ex - 1].hop_index;
    let inc_len = incoming.hops.len();
    proof {
        assert(exv.last().hop_index == last_idx);
    }
    if (inc_len as u64) > (u32::MAX as u64) - (last_idx as u64) {
        return Err(());
    }
    let base = last_idx + 1;
    let mut hops = crate::flow::clone_hops_pub(&existing.hops);
    let mut j: usize = 0;
    while j < inc_len
        invariant
            inc_len == incv.len(),
            incv == incoming.hops_view(),
            exv == existing.hops_view(),
            base == last_idx + 1,
            last_idx as int + inc_len as int <= u32::MAX as int,
            j <= inc_len,
            hops@.len() == exv.len() + j,
            forall|w: int| 0 <= w < exv.len() ==> (#[trigger] hops@[w])@ == exv[w],
            forall|w: int| 0 <= w < j ==> (#[trigger] hops@[exv.len() + w])@ == spec_renumbered(
                incv,
                base as int,
            )[w],
        decreases inc_len - j,
    {
        let h = &incoming.hops[j];
        let nh = crate::hop::Hop {
            hop_index: base + (j as u32),
            switch_id: h.switch_id.clone(),
            timestamp: h.timestamp,
            metrics: h.metrics.clone(),
        };
        hops.push(nh);
        j = j + 1;
    }
    proof {
        let ren = spec_renumbered(incv, base as int);
        assert forall|w: int|
            0 <= w < hops@.len() implies #[trigger] crate::flow::hops_views(hops@)[w] == (exv
            + ren)[w] by {
            if w < exv.len() {
                assert(hops@[w]@ == exv[w]);
            } else {
                assert(hops@[exv.len() + (w - exv.len())]@ == ren[w - exv.len()]);
            }
        }
        assert(crate::flow::hops_views(hops@) =~= exv + ren);
    }
    // Append the incoming path's unseen switches to the existing path.
    let mut switches = crate::strutil::clone_strings(&existing.path.switches);
    let ghost ex_sv = existing.path.switches_view();
    let ghost inc_sv = incoming.path.switches_view();
    let m_inc = incoming.path.switches.len();
    let mut t: usize = 0;
    while t < m_inc
        invariant
            m_inc == inc_sv.len(),
            inc_sv == incoming.path.switches_view(),
            ex_sv == existing.path.switches_view(),
            t <= m_inc,
            crate::strutil::strs_view(switches@) == spec_append_switches(
                ex_sv,
                inc_sv.take(t as int),
            ),
        decreases m_inc - t,
    {
        let ghost cur = crate::strutil::strs_view(switches@);
        let candidate = &incoming.path.switches[t];
        let sn = switches.len();
        let mut u: usize = 0;
        let mut present = false;
        while u < sn && !present
            invariant
                sn == switches@.len(),
                u <= sn,
                cur == crate::strutil::strs_view(switches@),
                !present ==> forall|w: int| 0 <= w < u ==> (#[trigger] switches@[w])@ != candidate@,
                present ==> seq_has(cur, candidate@),
            decreases sn - u + (if present { 0int } else { 1int }),
        {
            if string_eq(&switches[u], candidate) {
                proof {
                    assert(cur[u as int] == candidate@);
                }
                present = true;
            } else {
                u = u + 1;
            }
        }
        if !present {
            proof {
                if seq_has(cur, candidate@) {
                    let w = choose|w: int| 0 <= w < cur.len() && (#[trigger] cur[w]) == candidate@;
                    assert(switches@[w]@ == candidate@);
                    assert(false);
                }
            }
            switches.push(candidate.clone());
        }
        t = t + 1;
        proof {
            assert(inc_sv.take(t as int).drop_last() =~= inc_sv.take(t - 1));
            assert(inc_sv.take(t as int).last() == inc_sv[t - 1]);
            assert(inc_sv[t - 1] == candidate@);
            if present {
                assert(crate::strutil::strs_view(switches@) == cur);
            } else {
                assert(crate::strutil::strs_view(switches@) =~= cur.push(candidate@));
            }
        }
    }
    proof {
        assert(inc_sv.take(m_inc as int) =~= inc_sv);
    }
    let path = NetworkPath::new(switches);
    let start_time = if incoming.start_time < existing.start_time {
        incoming.start_time
    } else {
        existing.start_time
    };
    let end_time = if incoming.end_time > existing.end_time {
        incoming.end_time
    } else {
        existing.end_time
    };
    let merged = Flow {
        flow_id: existing.flow_id.clone(),
        path,
        hops,
        start_time,
        end_time,
        status: existing.status.clone(),
    };
    proof {
        let mv = merged.hops_view();
        let ren = spec_renumbered(incv, base as int);
        // Hop indexes stay non-decreasing: old hops are sorted below
        // `base`, renumbered hops ascend from `base`.
        assert(crate::flow::sorted_by_index(mv)) by {
            assert forall|a: int, b: int| 0 <= a <= b < mv.len() implies (
            #[trigger] mv[a]).hop_index <= (#[trigger] mv[b]).hop_index by {
                if b < exv.len() {
                    assert(exv[a].hop_index <= exv[b].hop_index);
                } else if a >= exv.len() {
                    assert(mv[a] == ren[a - exv.len()]);
                    assert(mv[b] == ren[b - exv.len()]);
                } else {
                    assert(exv[a].hop_index <= exv[exv.len() - 1].hop_index);
                    assert(mv[b] == ren[b - exv.len()]);
                }
            }
        }
        // The merged path and the merged hops name the same switches.
        let msv = merged.path.switches_view();
        let mhs = switches_of_hops(mv);
        lemma_append_switches_set(ex_sv, inc_sv);
        assert(crate::flow::same_switch_set(msv, mhs)) by {
            assert forall|i: int| 0 <= i < msv.len() implies seq_has(mhs, #[trigger] msv[i]) by {
                assert(seq_has(msv, msv[i]));
                assert(seq_has(ex_sv, msv[i]) || seq_has(inc_sv, msv[i]));
                if seq_has(ex_sv, msv[i]) {
                    let k = choose|k: int|
                        0 <= k < switches_of_hops(exv).len() && (#[trigger] switches_of_hops(
                            exv,
                        )[k]) == msv[i];
                    assert(mhs[k] == msv[i]);
                } else {
                    let k = choose|k: int|
                        0 <= k < switches_of_hops(incv).len() && (#[trigger] switches_of_hops(
                            incv,
                        )[k]) == msv[i];
                    assert(mv[exv.len() + k] == ren[k]);
                    assert(mhs[exv.len() + k] == msv[i]);
                }
            }
            assert forall|i: int| 0 <= i < mhs.len() implies seq_has(msv, #[trigger] mhs[i]) by {
                if i < exv.len() {
                    assert(mhs[i] == switches_of_hops(exv)[i]);
                    assert(seq_has(switches_of_hops(exv), switches_of_hops(exv)[i]));
                    assert(seq_has(ex_sv, mhs[i]));
                } else {
                    assert(mv[i] == ren[i - exv.len()]);
                    assert(mhs[i] == switches_of_hops(incv)[i - exv.len()]);
                    assert(seq_has(switches_of_hops(incv), switches_of_hops(incv)[i - exv.len()]));
                    assert(seq_has(inc_sv, mhs[i]));
                }
            }
        }
    }
    Ok(merged)
}


impl StorageEngine {
    /// The configured capacity cap is reached.
    pub open spec fn at_capacity(&self) -> bool {
        match self.spec_config().max_flows {
            Some(m) => self.flows_seq().len() >= m,
            None => false,
        }
    }

    /// Insert a flow. A new identifier is stored, subject to the
    /// capacity cap. An existing identifier has the incoming flow's
    /// hops appended with renumbered indexes, the time bounds widened,
    /// and unseen switches appended to the path; both indexes drop the
    /// old keys and file the new ones. `StorageFull` reports a full
    /// store, and also an append whose renumbering would exceed the
    /// hop-index range.
    pub fn insert_flow(&mut self, flow: Flow) -> (r: Result<(), StorageError>)
        requires
            old(self).wf(),
            flow.wf(),
        ensures
            final(self).wf(),
            final(self).spec_config() == old(self).spec_config(),
            final(self).spec_read_only() == old(self).spec_read_only(),
            (r matches Err(e) && e is ReadOnly) <==> old(self).spec_read_only(),
            r is Err ==> *final(self) == *old(self),
            (!old(self).spec_read_only() && !old(self).has_id(flow.flow_id@) && old(
                self,
            ).at_capacity()) ==> (r matches Err(e) && e is StorageFull),
            (!old(self).spec_read_only() && !old(self).has_id(flow.flow_id@) && !old(
                self,
            ).at_capacity()) ==> (r is Ok && final(self).flows_seq() == old(
                self,
            ).flows_seq().push(flow)),
            (!old(self).spec_read_only() && old(self).has_id(flow.flow_id@) && merge_fits(
                old(self).flows_seq()[old(self).index_of(flow.flow_id@)],
                flow,
            )) ==> (r is Ok && final(self).flows_seq().len() == old(self).flows_seq().len() && (
            forall|j: int|
                0 <= j < old(self).flows_seq().len() && j != old(self).index_of(flow.flow_id@)
                    ==> final(self).flows_seq()[j] == old(self).flows_seq()[j]) && merge_ok(
                old(self).flows_seq()[old(self).index_of(flow.flow_id@)],
                flow,
                final(self).flows_seq()[old(self).index_of(flow.flow_id@)],
            )),
            (!old(self).spec_read_only() && old(self).has_id(flow.flow_id@) && !merge_fits(
                old(self).flows_seq()[old(self).index_of(flow.flow_id@)],
                flow,
            )) ==> (r matches Err(e) && e is StorageFull),
    {
        if self.read_only {
            return Err(StorageError::ReadOnly);
        }
        let ghost f0 = self.flows@;
        let n = self.flows.len();
        let mut idx: usize = 0;
        let mut found = false;
        while idx < n && !found
            invariant
                self == old(self),
                n == f0.len(),
                f0 == self.flows@,
                idx <= n,
                !found ==> forall|j: int| 0 <= j < idx ==> (#[trigger] f0[j]).flow_id@
                    != flow.flow_id@,
                found ==> idx < n && f0[idx as int].flow_id@ == flow.flow_id@,
            decreases n - idx + (if found { 0int } else { 1int }),
        {
            if string_eq(&self.flows[idx].flow_id, &flow.flow_id) {
                found = true;
            } else {
                idx = idx + 1;
            }
        }
        if !found {
            proof {
                if self.has_id(flow.flow_id@) {
                    let w = choose|i: int|
                        0 <= i < f0.len() && (#[trigger] f0[i]).flow_id@ == flow.flow_id@;
                    assert(false);
                }
            }
            match self.config.max_flows {
                Some(m) => {
                    if self.flows.len() >= m {
                        return Err(StorageError::StorageFull);
                    }
                },
                None => {},
            }
            self.store_new_flow(flow);
            return Ok(());
        }
        proof {
            assert(self.has_id(flow.flow_id@)) by {
                assert(f0[idx as int].flow_id@ == flow.flow_id@);
            }
            let w = self.index_of(flow.flow_id@);
            if w != idx {
                assert(f0[w].flow_id@ == f0[idx as int].flow_id@);
                assert(false);
            }
        }
        self.append_into_existing(flow, idx)
    }

    /// Store a flow under a fresh identifier: file it in both indexes
    /// and append it to the primary store.
    #[verifier::rlimit(60)]
    fn store_new_flow(&mut self, flow: Flow)
        requires
            old(self).wf(),
            flow.wf(),
            !old(self).has_id(flow.flow_id@),
        ensures
            final(self).wf(),
            final(self).spec_config() == old(self).spec_config(),
            final(self).spec_read_only() == old(self).spec_read_only(),
            final(self).flows_seq() == old(self).flows_seq().push(flow),
    {
        let ghost f0 = self.flows@;
            self.path_index.add_flow(&flow);
            self.time_index.add_flow(&flow);
            self.flows.push(flow);
            proof {
                let fin = self.flows_seq();
                let idn = f0.len() as int;
                assert(fin == f0.push(flow));
                assert(fin[idn] == flow);
                assert(self.flows_wf()) by {
                    assert forall|i: int, j: int| 0 <= i < j < fin.len() implies (
                    #[trigger] fin[i]).flow_id@ != (#[trigger] fin[j]).flow_id@ by {
                        if j < idn {
                            assert(f0[i].flow_id@ != f0[j].flow_id@);
                        } else {
                            assert(fin[i] == f0[i]);
                        }
                    }
                }
                assert(self.indexes_tight()) by {
                    assert forall|k: Seq<char>, x: Seq<char>| #[trigger]
                        self.pindex().exact_has(k, x) implies (exists|i: int|
                        0 <= i < fin.len() && (#[trigger] fin[i]).flow_id@ == x && k
                            == flow_exact_key(fin[i])) by {
                        if old(self).pindex().exact_has(k, x) {
                            let i = choose|i: int|
                                0 <= i < f0.len() && (#[trigger] f0[i]).flow_id@ == x && k
                                    == flow_exact_key(f0[i]);
                            assert(fin[i].flow_id@ == x && k == flow_exact_key(fin[i]));
                        } else {
                            assert(fin[idn].flow_id@ == x && k == flow_exact_key(fin[idn]));
                        }
                    }
                    assert forall|k: Seq<char>, x: Seq<char>| #[trigger]
                        self.pindex().switch_has(k, x) implies (exists|i: int|
                        0 <= i < fin.len() && (#[trigger] fin[i]).flow_id@ == x && seq_has(
                            fin[i].path.switches_view(),
                            k,
                        )) by {
                        if old(self).pindex().switch_has(k, x) {
                            let i = choose|i: int|
                                0 <= i < f0.len() && (#[trigger] f0[i]).flow_id@ == x && seq_has(
                                    f0[i].path.switches_view(),
                                    k,
                                );
                            assert(fin[i].flow_id@ == x && seq_has(fin[i].path.switches_view(), k));
                        } else {
                            assert(fin[idn].flow_id@ == x && seq_has(
                                fin[idn].path.switches_view(),
                                k,
                            ));
                        }
                    }
                    assert forall|k: Seq<char>, x: Seq<char>| #[trigger]
                        self.pindex().prefix_has(k, x) implies (exists|i: int|
                        0 <= i < fin.len() && (#[trigger] fin[i]).flow_id@ == x && (exists|j: int|
                            1 <= j <= fin[i].path.switches_view().len() && k == prefix_key(
                                fin[i].path.switches_view(),
                                j,
                            ))) by {
                        if old(self).pindex().prefix_has(k, x) {
                            let i = choose|i: int|
                                0 <= i < f0.len() && (#[trigger] f0[i]).flow_id@ == x && (exists|
                                j: int|
                                    1 <= j <= f0[i].path.switches_view().len() && k == prefix_key(
                                        f0[i].path.switches_view(),
                                        j,
                                    ));
                            assert(fin[i].flow_id@ == x && (exists|j: int|
                                1 <= j <= fin[i].path.switches_view().len() && k == prefix_key(
                                    fin[i].path.switches_view(),
                                    j,
                                )));
                        } else {
                            assert(fin[idn].flow_id@ == x && (exists|j: int|
                                1 <= j <= fin[idn].path.switches_view().len() && k == prefix_key(
                                    fin[idn].path.switches_view(),
                                    j,
                                )));
                        }
                    }
                    assert forall|b: int, x: Seq<char>| #[trigger]
                        self.tindex().has(b, x) implies (exists|i: int|
                        0 <= i < fin.len() && (#[trigger] fin[i]).flow_id@ == x && b == spec_bucket(
                            fin[i].start_time as int,
                            self.tindex().width(),
                        )) by {
                        if old(self).tindex().has(b, x) {
                            let i = choose|i: int|
                                0 <= i < f0.len() && (#[trigger] f0[i]).flow_id@ == x && b
                                    == spec_bucket(
                                    f0[i].start_time as int,
                                    old(self).tindex().width(),
                                );
                            assert(fin[i].flow_id@ == x && b == spec_bucket(
                                fin[i].start_time as int,
                                self.tindex().width(),
                            ));
                        } else {
                            assert(fin[idn].flow_id@ == x && b == spec_bucket(
                                fin[idn].start_time as int,
                                self.tindex().width(),
                            ));
                        }
                    }
                }
                assert(self.indexes_complete()) by {
                    assert forall|i: int| 0 <= i < fin.len() implies self.pindex().exact_has(
                        flow_exact_key(#[trigger] fin[i]),
                        fin[i].flow_id@,
                    ) by {
                        if i < idn {
                            assert(old(self).pindex().exact_has(
                                flow_exact_key(f0[i]),
                                f0[i].flow_id@,
                            ));
                        }
                    }
                    assert forall|i: int, t: int|
                        0 <= i < fin.len() && 0 <= t < (
                        #[trigger] fin[i]).path.switches_view().len() implies self.pindex().switch_has(
                        #[trigger] fin[i].path.switches_view()[t],
                        fin[i].flow_id@,
                    ) by {
                        if i < idn {
                            assert(old(self).pindex().switch_has(
                                f0[i].path.switches_view()[t],
                                f0[i].flow_id@,
                            ));
                        } else {
                            assert(flow.path.switches_view()[t] == flow.path.switches_view()[t]);
                        }
                    }
                    assert forall|i: int, j: int|
                        0 <= i < fin.len() && 1 <= j <= fin[i].path.switches_view().len()
                        implies self.pindex().prefix_has(
                        #[trigger] prefix_key(fin[i].path.switches_view(), j),
                        fin[i].flow_id@,
                    ) by {
                        if i < idn {
                            assert(old(self).pindex().prefix_has(
                                prefix_key(f0[i].path.switches_view(), j),
                                f0[i].flow_id@,
                            ));
                        }
                    }
                    assert forall|i: int| 0 <= i < fin.len() implies self.tindex().has(
                        spec_bucket((#[trigger] fin[i]).start_time as int, self.tindex().width()),
                        fin[i].flow_id@,
                    ) by {
                        if i < idn {
                            assert(old(self).tindex().has(
                                spec_bucket(f0[i].start_time as int, old(self).tindex().width()),
                                f0[i].flow_id@,
                            ));
                        }
                    }
                }
            }
    }

    /// Merge a flow into the stored flow at `idx`, which carries the
    /// same identifier: move both indexes from the old keys to the
    /// merged flow's keys and store the merged flow.
    #[verifier::rlimit(60)]
    fn append_into_existing(&mut self, flow: Flow, idx: usize) -> (r: Result<(), StorageError>)
        requires
            old(self).wf(),
            flow.wf(),
            idx < old(self).flows_seq().len(),
            old(self).flows_seq()[idx as int].flow_id@ == flow.flow_id@,
        ensures
            final(self).wf(),
            final(self).spec_config() == old(self).spec_config(),
            final(self).spec_read_only() == old(self).spec_read_only(),
            r is Err ==> *final(self) == *old(self) && (r matches Err(e) && e is StorageFull),
            merge_fits(old(self).flows_seq()[idx as int], flow) <==> r is Ok,
            r is Ok ==> final(self).flows_seq().len() == old(self).flows_seq().len() && (forall|
                j: int|
                0 <= j < old(self).flows_seq().len() && j != idx ==> final(self).flows_seq()[j]
                    == old(self).flows_seq()[j]) && merge_ok(
                old(self).flows_seq()[idx as int],
                flow,
                final(self).flows_seq()[idx as int],
            ),
    {
        let ghost f0 = self.flows@;
        // Append semantics: merge the incoming flow into the stored one.
        let existing = self.flows[idx].clone();
        proof {
            assert(existing@ == f0[idx as int]@);
            assert(self.has_id(flow.flow_id@)) by {
                assert(f0[idx as int].flow_id@ == flow.flow_id@);
            }
            let w = self.index_of(flow.flow_id@);
            if w != idx {
                assert(f0[w].flow_id@ == f0[idx as int].flow_id@);
                assert(false);
            }
            assert(existing.hops_view() == f0[idx as int].hops_view());
            assert(existing.path.switches_view() == f0[idx as int].path.switches_view());
        }
        let merged = match merge_flows(&existing, &flow) {
            Err(_) => {
                proof {
                    assert(!merge_fits(f0[idx as int], flow)) by {
                        assert(existing.hops_view() == f0[idx as int].hops_view());
                    }
                }
                return Err(StorageError::StorageFull);
            },
            Ok(m) => m,
        };
        proof {
            assert(merge_fits(f0[idx as int], flow)) by {
                assert(existing.hops_view() == f0[idx as int].hops_view());
            }
            assert(merge_ok(f0[idx as int], flow, merged)) by {
                assert(existing.hops_view() == f0[idx as int].hops_view());
                assert(existing.flow_id@ == f0[idx as int].flow_id@);
                assert(existing.path.switches_view() == f0[idx as int].path.switches_view());
                assert(existing.start_time == f0[idx as int].start_time);
                assert(existing.end_time == f0[idx as int].end_time);
                assert(existing.status@ == f0[idx as int].status@);
            }
        }
        self.path_index.remove_flow(&existing);
        self.path_index.add_flow(&merged);
        self.time_index.update_flow(&existing, &merged);
        self.flows.set(idx, merged);
        proof {
            let fin = self.flows_seq();
            let i0 = idx as int;
            let ex = f0[i0];
            let m = fin[i0];
            let id = flow.flow_id@;
            assert(fin == f0.update(i0, m));
            assert(m.flow_id@ == id);
            assert(m.wf());
            // Identifier uniqueness and flow well-formedness carry over.
            assert(self.flows_wf()) by {
                assert forall|i: int, j: int| 0 <= i < j < fin.len() implies (
                #[trigger] fin[i]).flow_id@ != (#[trigger] fin[j]).flow_id@ by {
                    assert(f0[i].flow_id@ != f0[j].flow_id@);
                    assert(fin[i].flow_id@ == f0[i].flow_id@ || i == i0);
                    assert(fin[j].flow_id@ == f0[j].flow_id@ || j == i0);
                }
            }
            // Flows other than the merged one are unchanged.
            assert forall|i: int| 0 <= i < fin.len() && i != i0 implies #[trigger] fin[i] == f0[i]
                by {}
            assert(self.indexes_tight()) by {
                assert forall|k: Seq<char>, x: Seq<char>| #[trigger]
                    self.pindex().exact_has(k, x) implies (exists|i: int|
                    0 <= i < fin.len() && (#[trigger] fin[i]).flow_id@ == x && k == flow_exact_key(
                        fin[i],
                    )) by {
                    if x == id && k == flow_exact_key(m) {
                        assert(fin[i0].flow_id@ == x && k == flow_exact_key(fin[i0]));
                    } else {
                        assert(old(self).pindex().exact_has(k, x));
                        let i = choose|i: int|
                            0 <= i < f0.len() && (#[trigger] f0[i]).flow_id@ == x && k
                                == flow_exact_key(f0[i]);
                        if i == i0 {
                            assert(x == id && k == flow_exact_key(ex));
                            assert(k == flow_exact_key(existing)) by {
                                assert(existing.path.switches_view() == ex.path.switches_view());
                            }
                            assert(false);
                        } else {
                            assert(fin[i].flow_id@ == x && k == flow_exact_key(fin[i]));
                        }
                    }
                }
                assert forall|k: Seq<char>, x: Seq<char>| #[trigger]
                    self.pindex().switch_has(k, x) implies (exists|i: int|
                    0 <= i < fin.len() && (#[trigger] fin[i]).flow_id@ == x && seq_has(
                        fin[i].path.switches_view(),
                        k,
                    )) by {
                    if x == id && seq_has(m.path.switches_view(), k) {
                        assert(fin[i0].flow_id@ == x && seq_has(fin[i0].path.switches_view(), k));
                    } else {
                        assert(old(self).pindex().switch_has(k, x));
                        let i = choose|i: int|
                            0 <= i < f0.len() && (#[trigger] f0[i]).flow_id@ == x && seq_has(
                                f0[i].path.switches_view(),
                                k,
                            );
                        if i == i0 {
                            assert(x == id);
                            assert(seq_has(existing.path.switches_view(), k));
                            assert(false);
                        } else {
                            assert(fin[i].flow_id@ == x && seq_has(fin[i].path.switches_view(), k));
                        }
                    }
                }
                assert forall|k: Seq<char>, x: Seq<char>| #[trigger]
                    self.pindex().prefix_has(k, x) implies (exists|i: int|
                    0 <= i < fin.len() && (#[trigger] fin[i]).flow_id@ == x && (exists|j: int|
                        1 <= j <= fin[i].path.switches_view().len() && k == prefix_key(
                            fin[i].path.switches_view(),
                            j,
                        ))) by {
                    if x == id && (exists|j: int|
                        1 <= j <= m.path.switches_view().len() && k == prefix_key(
                            m.path.switches_view(),
                            j,
                        )) {
                        assert(fin[i0].flow_id@ == x && (exists|j: int|
                            1 <= j <= fin[i0].path.switches_view().len() && k == prefix_key(
                                fin[i0].path.switches_view(),
                                j,
                            )));
                    } else {
                        assert(old(self).pindex().prefix_has(k, x));
                        let i = choose|i: int|
                            0 <= i < f0.len() && (#[trigger] f0[i]).flow_id@ == x && (exists|j: int|
                                1 <= j <= f0[i].path.switches_view().len() && k == prefix_key(
                                    f0[i].path.switches_view(),
                                    j,
                                ));
                        if i == i0 {
                            assert(x == id);
                            let j = choose|j: int|
                                1 <= j <= f0[i0].path.switches_view().len() && k == prefix_key(
                                    f0[i0].path.switches_view(),
                                    j,
                                );
                            assert(1 <= j <= existing.path.switches_view().len() && k == prefix_key(
                                existing.path.switches_view(),
                                j,
                            ));
                            assert(false);
                        } else {
                            assert(fin[i].flow_id@ == x && (exists|j: int|
                                1 <= j <= fin[i].path.switches_view().len() && k == prefix_key(
                                    fin[i].path.switches_view(),
                                    j,
                                )));
                        }
                    }
                }
                assert forall|b: int, x: Seq<char>| #[trigger]
                    self.tindex().has(b, x) implies (exists|i: int|
                    0 <= i < fin.len() && (#[trigger] fin[i]).flow_id@ == x && b == spec_bucket(
                        fin[i].start_time as int,
                        self.tindex().width(),
                    )) by {
                    if x == id && b == spec_bucket(m.start_time as int, self.tindex().width()) {
                        assert(fin[i0].flow_id@ == x);
                    } else {
                        assert(old(self).tindex().has(b, x));
                        let i = choose|i: int|
                            0 <= i < f0.len() && (#[trigger] f0[i]).flow_id@ == x && b
                                == spec_bucket(f0[i].start_time as int, old(self).tindex().width());
                        if i == i0 {
                            assert(x == id);
                            assert(b == spec_bucket(
                                existing.start_time as int,
                                old(self).tindex().width(),
                            ));
                            assert(false);
                        } else {
                            assert(fin[i].flow_id@ == x && b == spec_bucket(
                                fin[i].start_time as int,
                                self.tindex().width(),
                            ));
                        }
                    }
                }
            }
            assert(self.indexes_complete()) by {
                assert forall|i: int| 0 <= i < fin.len() implies self.pindex().exact_has(
                    flow_exact_key(#[trigger] fin[i]),
                    fin[i].flow_id@,
                ) by {
                    if i != i0 {
                        assert(old(self).pindex().exact_has(flow_exact_key(f0[i]), f0[i].flow_id@));
                        assert(f0[i].flow_id@ != id);
                        assert(!(flow_exact_key(f0[i]) == flow_exact_key(existing)
                            && f0[i].flow_id@ == existing.flow_id@));
                    }
                }
                assert forall|i: int, t: int|
                    0 <= i < fin.len() && 0 <= t < (
                    #[trigger] fin[i]).path.switches_view().len() implies self.pindex().switch_has(
                    #[trigger] fin[i].path.switches_view()[t],
                    fin[i].flow_id@,
                ) by {
                    if i != i0 {
                        assert(old(self).pindex().switch_has(
                            f0[i].path.switches_view()[t],
                            f0[i].flow_id@,
                        ));
                        assert(f0[i].flow_id@ != id);
                    }
                }
                assert forall|i: int, j: int|
                    0 <= i < fin.len() && 1 <= j <= fin[i].path.switches_view().len()
                    implies self.pindex().prefix_has(
                    #[trigger] prefix_key(fin[i].path.switches_view(), j),
                    fin[i].flow_id@,
                ) by {
                    if i != i0 {
                        assert(old(self).pindex().prefix_has(
                            prefix_key(f0[i].path.switches_view(), j),
                            f0[i].flow_id@,
                        ));
                        assert(f0[i].flow_id@ != id);
                    }
                }
                assert forall|i: int| 0 <= i < fin.len() implies self.tindex().has(
                    spec_bucket((#[trigger] fin[i]).start_time as int, self.tindex().width()),
                    fin[i].flow_id@,
                ) by {
                    if i != i0 {
                        assert(old(self).tindex().has(
                            spec_bucket(f0[i].start_time as int, old(self).tindex().width()),
                            f0[i].flow_id@,
                        ));
                        assert(f0[i].flow_id@ != id);
                    }
                }
            }
        }
        Ok(())
    }
}

/// All of a query's conditions hold of a result: the total and the
/// returned page agree with the naive evaluation — filter every stored
/// flow by every condition, order by start time descending with ties
/// by identifier ascending, then apply `skip` and `limit`.
pub open spec fn spec_query_outcome(
    e: StorageEngine,
    q: QueryBuilder,
    now: int,
    res: QueryResult,
) -> bool {
    &&& res.total_count == spec_matching_pairs(e.flows_seq(), q, now).len()
    &&& res.limit == q.spec_limit()
    &&& res.flow_ids@.map_values(|s: String| s@) == spec_page(
        spec_query_ids(e.flows_seq(), q, now),
        q.spec_skip(),
        q.spec_limit(),
    )
}

/// Clamp a wide time value into the representable range.
fn clamp_to_i64(v: i128) -> (r: i64)
    ensures
        v < i64::MIN as i128 ==> r == i64::MIN,
        v > i64::MAX as i128 ==> r == i64::MAX,
        i64::MIN as i128 <= v <= i64::MAX as i128 ==> r as int == v as int,
{
    if v < i64::MIN as i128 {
        i64::MIN
    } else if v > i64::MAX as i128 {
        i64::MAX
    } else {
        v as i64
    }
}

impl StorageEngine {
    /// The candidate set that the path index contributes for one
    /// condition: a superset of the flows matching the condition, or
    /// `None` when the index cannot answer it.
    #[verifier::rlimit(60)]
    fn get_path_candidates(&self, condition: &PathCondition) -> (r: Option<Vec<String>>)
        requires
            self.wf(),
            spec_path_cond_wf(*condition),
        ensures
            r matches Some(c) ==> ids_distinct(c@) && (forall|fi: int|
                0 <= fi < self.flows_seq().len() && spec_path_matches(
                    *condition,
                    #[trigger] self.flows_seq()[fi],
                ) ==> strs_contain(c@, self.flows_seq()[fi].flow_id@)),
    {
        match condition {
            PathCondition::ExactPath(p) => {
                let c = self.path_index.find_exact_path(p);
                proof {
                    assert forall|fi: int|
                        0 <= fi < self.flows_seq().len() && spec_path_matches(
                            *condition,
                            #[trigger] self.flows_seq()[fi],
                        ) implies strs_contain(c@, self.flows_seq()[fi].flow_id@) by {
                        let f = self.flows_seq()[fi];
                        assert(self.pindex().exact_has(flow_exact_key(f), f.flow_id@));
                        assert(flow_exact_key(f) == crate::path::spec_path_hash(
                            p.switches_view(),
                        ));
                    }
                }
                Some(c)
            },
            PathCondition::ThroughSwitch(s) => {
                let c = self.path_index.find_flows_through_switch(s.as_str());
                proof {
                    assert forall|fi: int|
                        0 <= fi < self.flows_seq().len() && spec_path_matches(
                            *condition,
                            #[trigger] self.flows_seq()[fi],
                        ) implies strs_contain(c@, self.flows_seq()[fi].flow_id@) by {
                        let f = self.flows_seq()[fi];
                        assert(f.wf());
                        let hs = crate::flow::switches_of_hops(f.hops_view());
                        let k = choose|k: int| 0 <= k < hs.len() && hs[k] == s@;
                        assert(seq_has(f.path.switches_view(), hs[k]));
                        let t = choose|t: int|
                            0 <= t < f.path.switches_view().len()
                                && (#[trigger] f.path.switches_view()[t]) == s@;
                        assert(self.pindex().switch_has(f.path.switches_view()[t], f.flow_id@));
                    }
                }
                Some(c)
            },
            PathCondition::ContainsPath(sub) => {
                let c = self.path_index.find_flows_containing_path(sub.as_slice());
                proof {
                    let needle = spec_join(strs_view(sub@), "->"@);
                    assert forall|fi: int|
                        0 <= fi < self.flows_seq().len() && spec_path_matches(
                            *condition,
                            #[trigger] self.flows_seq()[fi],
                        ) implies strs_contain(c@, self.flows_seq()[fi].flow_id@) by {
                        let f = self.flows_seq()[fi];
                        assert(f.wf());
                        let sv = f.path.switches_view();
                        let subv = strs_view(sub@);
                        assert(sv.len() > 0) by {
                            let hs = crate::flow::switches_of_hops(f.hops_view());
                            assert(hs.len() > 0);
                            assert(seq_has(sv, hs[0]));
                        }
                        if subv.len() == 0 {
                            assert(self.pindex().prefix_has(prefix_key(sv, 1), f.flow_id@));
                            let ei = choose|ei: int|
                                0 <= ei < self.pindex().prefix_entries().len() && (
                                #[trigger] self.pindex().prefix_entries()[ei]).key@ == prefix_key(
                                    sv,
                                    1,
                                ) && crate::idmap::strs_contain(
                                    self.pindex().prefix_entries()[ei].ids@,
                                    f.flow_id@,
                                );
                            let key = self.pindex().prefix_entries()[ei].key@;
                            assert(key.subrange(0, 0 + needle.len() as int) =~= needle);
                            assert(spec_contains(key, needle));
                            assert(self.pindex().prefix_union_contains(needle, f.flow_id@));
                        } else {
                            let k = choose|k: int|
                                0 <= k && k + subv.len() <= sv.len() && #[trigger] sv.subrange(
                                    k,
                                    k + subv.len() as int,
                                ) == subv;
                            let e = k + subv.len() as int;
                            assert(self.pindex().prefix_has(prefix_key(sv, e), f.flow_id@));
                            let ei = choose|ei: int|
                                0 <= ei < self.pindex().prefix_entries().len() && (
                                #[trigger] self.pindex().prefix_entries()[ei]).key@ == prefix_key(
                                    sv,
                                    e,
                                ) && crate::idmap::strs_contain(
                                    self.pindex().prefix_entries()[ei].ids@,
                                    f.flow_id@,
                                );
                            lemma_window_join_contains(sv, e, subv.len() as int, "->"@);
                            assert(sv.subrange(e - subv.len(), e) == subv);
                            assert(spec_contains(
                                self.pindex().prefix_entries()[ei].key@,
                                needle,
                            ));
                            assert(self.pindex().prefix_union_contains(needle, f.flow_id@));
                        }
                    }
                }
                Some(c)
            },
            PathCondition::StartsWith(pre) => {
                let c = self.path_index.find_flows_with_prefix(pre.as_slice());
                proof {
                    let needle = spec_join(strs_view(pre@), "->"@);
                    assert forall|fi: int|
                        0 <= fi < self.flows_seq().len() && spec_path_matches(
                            *condition,
                            #[trigger] self.flows_seq()[fi],
                        ) implies strs_contain(c@, self.flows_seq()[fi].flow_id@) by {
                        let f = self.flows_seq()[fi];
                        assert(f.wf());
                        let sv = f.path.switches_view();
                        let pv = strs_view(pre@);
                        assert(sv.len() > 0) by {
                            let hs = crate::flow::switches_of_hops(f.hops_view());
                            assert(hs.len() > 0);
                            assert(seq_has(sv, hs[0]));
                        }
                        if pv.len() == 0 {
                            assert(self.pindex().prefix_has(prefix_key(sv, 1), f.flow_id@));
                            let ei = choose|ei: int|
                                0 <= ei < self.pindex().prefix_entries().len() && (
                                #[trigger] self.pindex().prefix_entries()[ei]).key@ == prefix_key(
                                    sv,
                                    1,
                                ) && crate::idmap::strs_contain(
                                    self.pindex().prefix_entries()[ei].ids@,
                                    f.flow_id@,
                                );
                            let key = self.pindex().prefix_entries()[ei].key@;
                            assert(key.subrange(0, needle.len() as int) =~= needle);
                            assert(spec_starts_with(key, needle));
                            assert(self.pindex().prefix_union_starts(needle, f.flow_id@));
                        } else {
                            let plen = pv.len() as int;
                            assert(self.pindex().prefix_has(prefix_key(sv, plen), f.flow_id@));
                            let ei = choose|ei: int|
                                0 <= ei < self.pindex().prefix_entries().len() && (
                                #[trigger] self.pindex().prefix_entries()[ei]).key@ == prefix_key(
                                    sv,
                                    plen,
                                ) && crate::idmap::strs_contain(
                                    self.pindex().prefix_entries()[ei].ids@,
                                    f.flow_id@,
                                );
                            assert(sv.take(plen) =~= sv.subrange(0, plen));
                            assert(prefix_key(sv, plen) == needle);
                            let key = self.pindex().prefix_entries()[ei].key@;
                            assert(key.subrange(0, needle.len() as int) =~= needle);
                            assert(spec_starts_with(key, needle));
                            assert(self.pindex().prefix_union_starts(needle, f.flow_id@));
                        }
                    }
                }
                Some(c)
            },
            PathCondition::EndsWith(_) => None,
            PathCondition::LengthEquals(_) => None,
            PathCondition::LengthInRange(_, _) => None,
        }
    }

    /// The candidate set that the time index contributes for one
    /// condition: a superset of the flows matching it under the clock
    /// sample `now_ms`.
    #[verifier::rlimit(60)]
    fn get_time_candidates(&self, condition: &TimeCondition, now_ms: i64) -> (r: Vec<String>)
        requires
            self.wf(),
        ensures
            ids_distinct(r@),
            forall|fi: int|
                0 <= fi < self.flows_seq().len() && spec_time_matches(
                    *condition,
                    #[trigger] self.flows_seq()[fi],
                    now_ms as int,
                ) ==> strs_contain(r@, self.flows_seq()[fi].flow_id@),
    {
        let w = self.config.time_bucket_size;
        proof {
            assert(self.tindex().width() == w as int);
        }
        match condition {
            TimeCondition::After(t) => {
                let c = self.time_index.find_flows_after(*t);
                proof {
                    assert forall|fi: int|
                        0 <= fi < self.flows_seq().len() && spec_time_matches(
                            *condition,
                            #[trigger] self.flows_seq()[fi],
                            now_ms as int,
                        ) implies strs_contain(c@, self.flows_seq()[fi].flow_id@) by {
                        let f = self.flows_seq()[fi];
                        lemma_bucket_monotonic(*t as int, f.start_time as int, w as int);
                        assert(self.tindex().has(
                            spec_bucket(f.start_time as int, self.tindex().width()),
                            f.flow_id@,
                        ));
                    }
                }
                c
            },
            TimeCondition::Before(t) => {
                let c = self.time_index.find_flows_before(*t);
                proof {
                    assert forall|fi: int|
                        0 <= fi < self.flows_seq().len() && spec_time_matches(
                            *condition,
                            #[trigger] self.flows_seq()[fi],
                            now_ms as int,
                        ) implies strs_contain(c@, self.flows_seq()[fi].flow_id@) by {
                        let f = self.flows_seq()[fi];
                        lemma_bucket_monotonic(f.start_time as int, *t as int, w as int);
                        assert(self.tindex().has(
                            spec_bucket(f.start_time as int, self.tindex().width()),
                            f.flow_id@,
                        ));
                    }
                }
                c
            },
            TimeCondition::InRange(s, e) => {
                let c = self.time_index.find_flows_in_range(*s, *e);
                proof {
                    assert forall|fi: int|
                        0 <= fi < self.flows_seq().len() && spec_time_matches(
                            *condition,
                            #[trigger] self.flows_seq()[fi],
                            now_ms as int,
                        ) implies strs_contain(c@, self.flows_seq()[fi].flow_id@) by {
                        let f = self.flows_seq()[fi];
                        lemma_bucket_monotonic(*s as int, f.start_time as int, w as int);
                        lemma_bucket_monotonic(f.start_time as int, *e as int, w as int);
                        assert(self.tindex().has(
                            spec_bucket(f.start_time as int, self.tindex().width()),
                            f.flow_id@,
                        ));
                    }
                }
                c
            },
            TimeCondition::WithinLast(secs) => {
                let cutoff = (now_ms as i128) - (*secs as i128) * 1000;
                let cl = clamp_to_i64(cutoff);
                let c = self.time_index.find_flows_after(cl);
                proof {
                    assert forall|fi: int|
                        0 <= fi < self.flows_seq().len() && spec_time_matches(
                            *condition,
                            #[trigger] self.flows_seq()[fi],
                            now_ms as int,
                        ) implies strs_contain(c@, self.flows_seq()[fi].flow_id@) by {
                        let f = self.flows_seq()[fi];
                        assert(f.start_time as int >= cl as int);
                        lemma_bucket_monotonic(cl as int, f.start_time as int, w as int);
                        assert(self.tindex().has(
                            spec_bucket(f.start_time as int, self.tindex().width()),
                            f.flow_id@,
                        ));
                    }
                }
                c
            },
            TimeCondition::WithinLastMinutes(m) => {
                let cutoff = (now_ms as i128) - (*m as i128) * 60000;
                let cl = clamp_to_i64(cutoff);
                let c = self.time_index.find_flows_after(cl);
                proof {
                    assert forall|fi: int|
                        0 <= fi < self.flows_seq().len() && spec_time_matches(
                            *condition,
                            #[trigger] self.flows_seq()[fi],
                            now_ms as int,
                        ) implies strs_contain(c@, self.flows_seq()[fi].flow_id@) by {
                        let f = self.flows_seq()[fi];
                        assert(f.start_time as int >= cl as int);
                        lemma_bucket_monotonic(cl as int, f.start_time as int, w as int);
                        assert(self.tindex().has(
                            spec_bucket(f.start_time as int, self.tindex().width()),
                            f.flow_id@,
                        ));
                    }
                }
                c
            },
            TimeCondition::WithinLastHours(h) => {
                let cutoff = (now_ms as i128) - (*h as i128) * 3600000;
                let cl = clamp_to_i64(cutoff);
                let c = self.time_index.find_flows_after(cl);
                proof {
                    assert forall|fi: int|
                        0 <= fi < self.flows_seq().len() && spec_time_matches(
                            *condition,
                            #[trigger] self.flows_seq()[fi],
                            now_ms as int,
                        ) implies strs_contain(c@, self.flows_seq()[fi].flow_id@) by {
                        let f = self.flows_seq()[fi];
                        assert(f.start_time as int >= cl as int);
                        lemma_bucket_monotonic(cl as int, f.start_time as int, w as int);
                        assert(self.tindex().has(
                            spec_bucket(f.start_time as int, self.tindex().width()),
                            f.flow_id@,
                        ));
                    }
                }
                c
            },
        }
    }

    /// Whether a flow matches every condition of the query under the
    /// clock sample `now_ms`: the residual filter's exact evaluation.
    fn matches_all_conditions(&self, flow: &Flow, query: &QueryBuilder, now_ms: i64) -> (r: bool)
        requires
            flow.path.hash_consistent(),
            query.wf(),
        ensures
            r == spec_query_matches(*query, *flow, now_ms as int),
    {
        let (pcs, tcs, mcs) = query.conditions();
        let mut i: usize = 0;
        while i < pcs.len()
            invariant
                flow.path.hash_consistent(),
                query.wf(),
                pcs@ == query.spec_path_conditions(),
                tcs@ == query.spec_time_conditions(),
                mcs@ == query.spec_metric_conditions(),
                i <= pcs@.len(),
                forall|j: int| 0 <= j < i ==> spec_path_matches(
                    #[trigger] query.spec_path_conditions()[j],
                    *flow,
                ),
            decreases pcs@.len() - i,
        {
            if !pcs[i].matches(flow) {
                return false;
            }
            i = i + 1;
        }
        let mut i: usize = 0;
        while i < tcs.len()
            invariant
                query.wf(),
                pcs@ == query.spec_path_conditions(),
                tcs@ == query.spec_time_conditions(),
                mcs@ == query.spec_metric_conditions(),
                i <= tcs@.len(),
                forall|j: int| 0 <= j < pcs@.len() ==> spec_path_matches(
                    #[trigger] query.spec_path_conditions()[j],
                    *flow,
                ),
                forall|j: int| 0 <= j < i ==> spec_time_matches(
                    #[trigger] query.spec_time_conditions()[j],
                    *flow,
                    now_ms as int,
                ),
            decreases tcs@.len() - i,
        {
            if !tcs[i].matches(flow, now_ms) {
                return false;
            }
            i = i + 1;
        }
        let mut i: usize = 0;
        while i < mcs.len()
            invariant
                query.wf(),
                pcs@ == query.spec_path_conditions(),
                tcs@ == query.spec_time_conditions(),
                mcs@ == query.spec_metric_conditions(),
                i <= mcs@.len(),
                forall|j: int| 0 <= j < pcs@.len() ==> spec_path_matches(
                    #[trigger] query.spec_path_conditions()[j],
                    *flow,
                ),
                forall|j: int| 0 <= j < tcs@.len() ==> spec_time_matches(
                    #[trigger] query.spec_time_conditions()[j],
                    *flow,
                    now_ms as int,
                ),
                forall|j: int| 0 <= j < i ==> spec_metric_matches(
                    #[trigger] query.spec_metric_conditions()[j],
                    *flow,
                ),
            decreases mcs@.len() - i,
        {
            if !mcs[i].matches(flow) {
                return false;
            }
            i = i + 1;
        }
        true
    }

    /// Evaluate a query against the clock sample `now_ms`.
    ///
    /// For a valid query the result is exactly the naive evaluation:
    /// every stored flow is kept iff it matches every condition; the
    /// survivors are ordered by start time descending with ties broken
    /// by identifier ascending; `total_count` counts all survivors and
    /// the returned identifiers are the page selected by `skip` and
    /// `limit`. A query with an inverted length range fails with
    /// `InvalidQuery`.
    #[verifier::rlimit(100)]
    pub fn query_at(&self, query: &QueryBuilder, now_ms: i64) -> (r: Result<
        QueryResult,
        StorageError,
    >)
        requires
            self.wf(),
            query.wf(),
        ensures
            (r matches Err(e) && e is InvalidQuery) <==> !query.valid(),
            query.valid() ==> (r matches Ok(res) && spec_query_outcome(
                *self,
                *query,
                now_ms as int,
                res,
            )),
    {
        let ghost nowi = now_ms as int;
        let ghost q = *query;
        let (pcs, tcs, _mcs) = query.conditions();
        // Validation: a length range must not be inverted.
        let mut vi: usize = 0;
        while vi < pcs.len()
            invariant
                pcs@ == query.spec_path_conditions(),
                vi <= pcs@.len(),
                forall|j: int| 0 <= j < vi ==> match #[trigger] query.spec_path_conditions()[j] {
                    PathCondition::LengthInRange(min, max) => min <= max,
                    _ => true,
                },
            decreases pcs@.len() - vi,
        {
            match &pcs[vi] {
                PathCondition::LengthInRange(min, max) => {
                    if min > max {
                        proof {
                            assert(!query.valid());
                        }
                        return Err(StorageError::InvalidQuery(str_to_owned(
                            "length range has min greater than max",
                        )));
                    }
                },
                _ => {},
            }
            vi = vi + 1;
        }
        proof {
            assert(query.valid());
        }
        // Candidate assembly from the indexes.
        let mut cand: Option<Vec<String>> = None;
        let mut i: usize = 0;
        while i < pcs.len()
            invariant
                self.wf(),
                query.wf(),
                pcs@ == query.spec_path_conditions(),
                i <= pcs@.len(),
                cand matches Some(c) ==> ids_distinct(c@) && (forall|fi: int|
                    0 <= fi < self.flows_seq().len() && spec_query_matches(
                        q,
                        #[trigger] self.flows_seq()[fi],
                        nowi,
                    ) ==> strs_contain(c@, self.flows_seq()[fi].flow_id@)),
                q == *query,
                nowi == now_ms as int,
            decreases pcs@.len() - i,
        {
            let probe = self.get_path_candidates(&pcs[i]);
            proof {
                if probe is Some {
                    assert forall|fi: int|
                        0 <= fi < self.flows_seq().len() && spec_query_matches(
                            q,
                            #[trigger] self.flows_seq()[fi],
                            nowi,
                        ) implies spec_path_matches(
                        query.spec_path_conditions()[i as int],
                        self.flows_seq()[fi],
                    ) by {}
                }
            }
            cand = match (cand, probe) {
                (c, None) => c,
                (None, Some(p)) => Some(p),
                (Some(c), Some(p)) => Some(intersect_ids(c, &p)),
            };
            i = i + 1;
        }
        let mut i: usize = 0;
        while i < tcs.len()
            invariant
                self.wf(),
                query.wf(),
                tcs@ == query.spec_time_conditions(),
                i <= tcs@.len(),
                cand matches Some(c) ==> ids_distinct(c@) && (forall|fi: int|
                    0 <= fi < self.flows_seq().len() && spec_query_matches(
                        q,
                        #[trigger] self.flows_seq()[fi],
                        nowi,
                    ) ==> strs_contain(c@, self.flows_seq()[fi].flow_id@)),
                q == *query,
                nowi == now_ms as int,
            decreases tcs@.len() - i,
        {
            let probe = self.get_time_candidates(&tcs[i], now_ms);
            proof {
                assert forall|fi: int|
                    0 <= fi < self.flows_seq().len() && spec_query_matches(
                        q,
                        #[trigger] self.flows_seq()[fi],
                        nowi,
                    ) implies spec_time_matches(
                    query.spec_time_conditions()[i as int],
                    self.flows_seq()[fi],
                    nowi,
                ) by {}
            }
            cand = match cand {
                None => Some(probe),
                Some(c) => Some(intersect_ids(c, &probe)),
            };
            i = i + 1;
        }
        // Early exit when the candidate set is already empty.
        let cand_empty = match &cand {
            Some(c) => c.len() == 0,
            None => false,
        };
        if cand_empty {
            proof {
                assert forall|fi: int|
                    0 <= fi < self.flows_seq().len() implies !spec_query_matches(
                    q,
                    #[trigger] self.flows_seq()[fi],
                    nowi,
                ) by {
                    if spec_query_matches(q, self.flows_seq()[fi], nowi) {
                        let c = cand.unwrap();
                        assert(strs_contain(c@, self.flows_seq()[fi].flow_id@));
                        let t = choose|t: int|
                            0 <= t < c@.len() && (#[trigger] c@[t])@ == self.flows_seq()[
                        fi].flow_id@;
                        assert(false);
                    }
                }
                self.flows_seq().lemma_all_neg_filter_empty(
                    |f: Flow| spec_query_matches(q, f, nowi),
                );
                assert(spec_matching_pairs(self.flows_seq(), q, nowi) =~= Seq::empty());
                assert(spec_query_ids(self.flows_seq(), q, nowi) =~= Seq::empty());
            }
            let (limit, _skip) = query.pagination();
            let res = QueryResult::new(Vec::new(), 0, limit);
            proof {
                assert(res.flow_ids@.map_values(|s: String| s@) =~= spec_page(
                    spec_query_ids(self.flows_seq(), q, nowi),
                    q.spec_skip(),
                    q.spec_limit(),
                ));
            }
            return Ok(res);
        }
        // Residual filter over the primary store.
        let ghost pred = |f: Flow| spec_query_matches(q, f, nowi);
        let mut survivors: Vec<(i64, String)> = Vec::new();
        let n = self.flows.len();
        let mut fi: usize = 0;
        while fi < n
            invariant
                self.wf(),
                query.wf(),
                n == self.flows_seq().len(),
                fi <= n,
                q == *query,
                nowi == now_ms as int,
                pred == (|f: Flow| spec_query_matches(q, f, nowi)),
                cand matches Some(c) ==> (forall|fj: int|
                    0 <= fj < self.flows_seq().len() && spec_query_matches(
                        q,
                        #[trigger] self.flows_seq()[fj],
                        nowi,
                    ) ==> strs_contain(c@, self.flows_seq()[fj].flow_id@)),
                survivors@.map_values(|p: (i64, String)| exec_pair_view(p)) == spec_matching_pairs(
                    self.flows_seq().take(fi as int),
                    q,
                    nowi,
                ),
            decreases n - fi,
        {
            let ghost pre = self.flows_seq().take(fi as int);
            let ghost spre = survivors@.map_values(|p: (i64, String)| exec_pair_view(p));
            let in_cand = match &cand {
                None => true,
                Some(c) => contains_string(c, &self.flows[fi].flow_id),
            };
            let keep = if in_cand {
                proof {
                    assert(self.flows_seq()[fi as int].wf());
                }
                self.matches_all_conditions(&self.flows[fi], query, now_ms)
            } else {
                proof {
                    assert(!spec_query_matches(q, self.flows_seq()[fi as int], nowi));
                }
                false
            };
            if keep {
                survivors.push((self.flows[fi].start_time, self.flows[fi].flow_id.clone()));
            }
            fi = fi + 1;
            proof {
                reveal(Seq::filter);
                let cur = self.flows_seq().take(fi as int);
                assert(cur.drop_last() =~= pre);
                assert(cur.last() == self.flows_seq()[fi - 1]);
                if keep {
                    assert(cur.filter(pred) == pre.filter(pred).push(self.flows_seq()[fi - 1]));
                    let lhs = survivors@.map_values(|p: (i64, String)| exec_pair_view(p));
                    let rhs = spec_matching_pairs(cur, q, nowi);
                    assert(lhs.len() == spre.len() + 1);
                    assert(rhs.len() == spec_matching_pairs(pre, q, nowi).len() + 1);
                    assert(lhs.len() == rhs.len());
                    assert forall|w: int| 0 <= w < lhs.len() implies #[trigger] lhs[w]
                        == rhs[w] by {
                        if w < spre.len() {
                            assert(lhs[w] == spre[w]);
                            assert(rhs[w] == spec_matching_pairs(pre, q, nowi)[w]);
                        } else {
                            assert(lhs[w] == exec_pair_view(survivors@.last()));
                            assert(rhs[w] == pair_of(self.flows_seq()[fi - 1]));
                        }
                    }
                    assert(lhs =~= rhs);
                } else {
                    assert(cur.filter(pred) == pre.filter(pred));
                    assert(survivors@.map_values(|p: (i64, String)| exec_pair_view(p))
                        =~= spec_matching_pairs(cur, q, nowi));
                }
            }
        }
        proof {
            assert(self.flows_seq().take(n as int) =~= self.flows_seq());
        }
        // Order: start time descending, ties by identifier ascending.
        let total = survivors.len();
        let sorted = sort_survivors(survivors);
        proof {
            sort_pairs_len(spec_matching_pairs(self.flows_seq(), q, nowi));
        }
        // Pagination.
        let (limit, skip) = query.pagination();
        let start = match skip {
            Some(s) => if s > total {
                total
            } else {
                s
            },
            None => 0,
        };
        let end = match limit {
            Some(l) => if l > total - start {
                total
            } else {
                start + l
            },
            None => total,
        };
        let mut ids: Vec<String> = Vec::new();
        let mut k: usize = start;
        let ghost sortedv = sorted@.map_values(|p: (i64, String)| exec_pair_view(p));
        while k < end
            invariant
                start <= k <= end <= sorted@.len(),
                sortedv == sorted@.map_values(|p: (i64, String)| exec_pair_view(p)),
                ids@.len() == k - start,
                forall|t: int| 0 <= t < k - start ==> (#[trigger] ids@[t])@ == sortedv[start
                    + t].1,
            decreases end - k,
        {
            ids.push(sorted[k].1.clone());
            k = k + 1;
        }
        proof {
            let allids = spec_query_ids(self.flows_seq(), q, nowi);
            assert(allids.len() == sortedv.len());
            assert forall|t: int| 0 <= t < allids.len() implies #[trigger] allids[t]
                == sortedv[t].1 by {}
            assert(ids@.map_values(|s: String| s@) =~= spec_page(
                allids,
                q.spec_skip(),
                q.spec_limit(),
            ));
        }
        Ok(QueryResult::new(ids, total, limit))
    }

    /// Evaluate a query. The wall clock is sampled once at entry; the
    /// candidate probes, the residual filter and the ordering all use
    /// that sample, so the result is the naive evaluation under some
    /// single clock value.
    pub fn query(&self, query: QueryBuilder) -> (r: Result<QueryResult, StorageError>)
        requires
            self.wf(),
            query.wf(),
        ensures
            (r matches Err(e) && e is InvalidQuery) <==> !query.valid(),
            query.valid() ==> (r matches Ok(res) && (exists|now: int|
                spec_query_outcome(*self, query, now, res))),
    {
        let now_ms = crate::engine::now_millis();
        let r = self.query_at(&query, now_ms);
        proof {
            if query.valid() {
                assert(r matches Ok(res) && spec_query_outcome(
                    *self,
                    query,
                    now_ms as int,
                    res,
                ));
            }
        }
        r
    }
}



/// Clamp a non-negative count into the range of `usize`.
pub open spec fn clamp_usize(v: int) -> int {
    if v > usize::MAX as int {
        usize::MAX as int
    } else {
        v
    }
}

/// The byte length of a string's UTF-8 encoding, as the standard
/// library reports it.
pub open spec fn byte_len(s: Seq<char>) -> int {
    (vstd::utf8::encode_utf8(s).len() as usize) as int
}

/// The estimated bytes of the switch identifiers of a path: each
/// identifier's bytes plus a constant per-element overhead.
pub open spec fn spec_switches_mem(sv: Seq<Seq<char>>) -> int
    decreases sv.len(),
{
    if sv.len() == 0 {
        0
    } else {
        spec_switches_mem(sv.drop_last()) + byte_len(sv.last()) + 8
    }
}

/// The estimated bytes of a hop sequence: each hop's switch identifier
/// bytes plus a constant per-hop overhead.
pub open spec fn spec_hops_mem(hv: Seq<crate::hop::HopView>) -> int
    decreases hv.len(),
{
    if hv.len() == 0 {
        0
    } else {
        spec_hops_mem(hv.drop_last()) + byte_len(hv.last().switch_id) + 64
    }
}

/// The estimated bytes of one flow: identifier, path switches, hops,
/// and a constant record overhead.
pub open spec fn spec_flow_mem(f: Flow) -> int {
    byte_len(f.flow_id@) + spec_switches_mem(f.path.switches_view()) + spec_hops_mem(f.hops_view())
        + 32
}

/// The estimated bytes of the stored flows.
pub open spec fn spec_flows_mem(flows: Seq<Flow>) -> int
    decreases flows.len(),
{
    if flows.len() == 0 {
        0
    } else {
        spec_flows_mem(flows.drop_last()) + spec_flow_mem(flows.last())
    }
}

/// Constant advisory overhead attributed to the path index.
pub const PATH_INDEX_BASE_BYTES: usize = 1024;

/// Constant advisory overhead attributed to the time index.
pub const TIME_INDEX_BASE_BYTES: usize = 512;

proof fn lemma_clamp_add(a: int, b: int)
    requires
        a >= 0,
        b >= 0,
    ensures
        clamp_usize(clamp_usize(a) + b) == clamp_usize(a + b),
{
}

/// Add, saturating at the largest `usize`.
fn sat_add(a: usize, b: usize) -> (r: usize)
    ensures
        r as int == clamp_usize(a as int + b as int),
{
    if usize::MAX - a >= b {
        a + b
    } else {
        usize::MAX
    }
}

proof fn lemma_switches_mem_nonneg(sv: Seq<Seq<char>>)
    ensures
        spec_switches_mem(sv) >= 0,
    decreases sv.len(),
{
    if sv.len() > 0 {
        lemma_switches_mem_nonneg(sv.drop_last());
    }
}

proof fn lemma_hops_mem_nonneg(hv: Seq<crate::hop::HopView>)
    ensures
        spec_hops_mem(hv) >= 0,
    decreases hv.len(),
{
    if hv.len() > 0 {
        lemma_hops_mem_nonneg(hv.drop_last());
    }
}

proof fn lemma_flows_mem_nonneg(flows: Seq<Flow>)
    ensures
        spec_flows_mem(flows) >= 0,
    decreases flows.len(),
{
    if flows.len() > 0 {
        lemma_flows_mem_nonneg(flows.drop_last());
        lemma_switches_mem_nonneg(flows.last().path.switches_view());
        lemma_hops_mem_nonneg(flows.last().hops_view());
    }
}

/// The estimated bytes of one flow, saturating at the largest `usize`.
fn estimate_flow_memory(flow: &Flow) -> (r: usize)
    ensures
        r as int == clamp_usize(spec_flow_mem(*flow)),
{
    let ghost sv = flow.path.switches_view();
    let ghost hv = flow.hops_view();
    let mut bytes: usize = flow.flow_id.as_str().len();
    let mut i: usize = 0;
    while i < flow.path.switches.len()
        invariant
            sv == flow.path.switches_view(),
            hv == flow.hops_view(),
            i <= flow.path.switches@.len(),
            sv.len() == flow.path.switches@.len(),
            bytes as int == clamp_usize(byte_len(flow.flow_id@) + spec_switches_mem(
                sv.take(i as int),
            )),
        decreases flow.path.switches@.len() - i,
    {
        let ghost pre = sv.take(i as int);
        let add = sat_add(flow.path.switches[i].as_str().len(), 8);
        bytes = sat_add(bytes, add);
        i = i + 1;
        proof {
            assert(sv.take(i as int).drop_last() =~= pre);
            assert(sv.take(i as int).last() == sv[i - 1]);
            lemma_switches_mem_nonneg(pre);
            lemma_clamp_add(byte_len(sv[i - 1]) + 8, 0);
            lemma_clamp_add(
                byte_len(flow.flow_id@) + spec_switches_mem(pre),
                (bytes as int) - (bytes as int),
            );
            assert(bytes as int == clamp_usize(
                byte_len(flow.flow_id@) + spec_switches_mem(sv.take(i as int)),
            )) by {
                let a = byte_len(flow.flow_id@) + spec_switches_mem(pre);
                let b = byte_len(sv[i - 1]) + 8;
                assert(spec_switches_mem(sv.take(i as int)) == spec_switches_mem(pre) + b);
                lemma_clamp_add(a, clamp_usize(b));
                lemma_clamp_add(b, 0);
            }
        }
    }
    proof {
        assert(sv.take(flow.path.switches@.len() as int) =~= sv);
    }
    let mut j: usize = 0;
    while j < flow.hops.len()
        invariant
            sv == flow.path.switches_view(),
            hv == flow.hops_view(),
            j <= flow.hops@.len(),
            hv.len() == flow.hops@.len(),
            bytes as int == clamp_usize(byte_len(flow.flow_id@) + spec_switches_mem(sv)
                + spec_hops_mem(hv.take(j as int))),
        decreases flow.hops@.len() - j,
    {
        let ghost pre = hv.take(j as int);
        let add = sat_add(flow.hops[j].switch_id.as_str().len(), 64);
        bytes = sat_add(bytes, add);
        j = j + 1;
        proof {
            assert(hv.take(j as int).drop_last() =~= pre);
            assert(hv.take(j as int).last() == hv[j - 1]);
            lemma_hops_mem_nonneg(pre);
            lemma_switches_mem_nonneg(sv);
            assert(bytes as int == clamp_usize(byte_len(flow.flow_id@) + spec_switches_mem(sv)
                + spec_hops_mem(hv.take(j as int)))) by {
                let a = byte_len(flow.flow_id@) + spec_switches_mem(sv) + spec_hops_mem(pre);
                let b = byte_len(hv[j - 1].switch_id) + 64;
                assert(spec_hops_mem(hv.take(j as int)) == spec_hops_mem(pre) + b);
                lemma_clamp_add(a, clamp_usize(b));
                lemma_clamp_add(b, 0);
            }
        }
    }
    proof {
        assert(hv.take(flow.hops@.len() as int) =~= hv);
        lemma_switches_mem_nonneg(sv);
        lemma_hops_mem_nonneg(hv);
    }
    sat_add(bytes, 32)
}

impl StorageEngine {
    /// An advisory estimate of the memory held by the store: a sum of
    /// per-flow byte estimates plus constant per-index overheads,
    /// saturating at the largest `usize`.
    pub fn estimate_memory_usage(&self) -> (r: usize)
        ensures
            r as int == clamp_usize(
                spec_flows_mem(self.flows_seq()) + PATH_INDEX_BASE_BYTES as int
                    + TIME_INDEX_BASE_BYTES as int,
            ),
    {
        let ghost fs = self.flows_seq();
        let mut total: usize = 0;
        let n = self.flows.len();
        let mut i: usize = 0;
        while i < n
            invariant
                fs == self.flows_seq(),
                n == fs.len(),
                i <= n,
                total as int == clamp_usize(spec_flows_mem(fs.take(i as int))),
            decreases n - i,
        {
            let ghost pre = fs.take(i as int);
            let add = estimate_flow_memory(&self.flows[i]);
            total = sat_add(total, add);
            i = i + 1;
            proof {
                assert(fs.take(i as int).drop_last() =~= pre);
                assert(fs.take(i as int).last() == fs[i - 1]);
                lemma_flows_mem_nonneg(pre);
                lemma_switches_mem_nonneg(fs[i - 1].path.switches_view());
                lemma_hops_mem_nonneg(fs[i - 1].hops_view());
                assert(total as int == clamp_usize(spec_flows_mem(fs.take(i as int)))) by {
                    let a = spec_flows_mem(pre);
                    let b = spec_flow_mem(fs[i - 1]);
                    assert(spec_flows_mem(fs.take(i as int)) == a + b);
                    lemma_clamp_add(a, clamp_usize(b));
                    lemma_clamp_add(b, 0);
                }
            }
        }
        proof {
            assert(fs.take(n as int) =~= fs);
            lemma_flows_mem_nonneg(fs);
        }
        let with_path = sat_add(total, PATH_INDEX_BASE_BYTES);
        let r = sat_add(with_path, TIME_INDEX_BASE_BYTES);
        proof {
            lemma_clamp_add(spec_flows_mem(fs), PATH_INDEX_BASE_BYTES as int);
            lemma_clamp_add(
                spec_flows_mem(fs) + PATH_INDEX_BASE_BYTES as int,
                TIME_INDEX_BASE_BYTES as int,
            );
        }
        r
    }
}


impl StorageEngine {
    /// Counts of the path index's maps.
    pub fn path_index_stats(&self) -> (r: crate::path_index::IndexStats)
        ensures
            r.unique_paths == self.pindex().exact_entries().len(),
            r.unique_switches == self.pindex().switch_entries().len(),
            r.prefix_entries == self.pindex().prefix_entries().len(),
    {
        self.path_index.stats()
    }

    /// Counts of the time index.
    pub fn time_index_stats(&self) -> (r: crate::time_index::TimeIndexStats)
        ensures
            r.bucket_count == self.tindex().entries().len(),
            r.bucket_size_secs as int == self.tindex().width(),
    {
        self.time_index.stats()
    }
}

} // verus!
