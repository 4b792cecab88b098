//! The store's laws, stated and proved over the engine's model: the
//! insert/lookup round trip, index consistency, append-on-reinsert,
//! and completeness of query results.

use vstd::prelude::*;

use crate::engine::{merge_fits, merge_ok, spec_renumbered, StorageEngine};
use crate::flow::{seq_has, Flow};
use crate::planner::{pair_of, insert_pair_sorted, sort_pairs, spec_matching_pairs, spec_query_ids};
use crate::query::{spec_query_matches, QueryBuilder};
use crate::path_index::prefix_key;
use crate::time_index::spec_bucket;

verus! {

/// Round-trip: after an insert under a fresh identifier, the store
/// holds that identifier and the flow found under it is the inserted
/// flow itself.
pub proof fn lemma_insert_then_get_round_trip(pre: StorageEngine, post: StorageEngine, flow: Flow)
    requires
        pre.flows_wf(),
        !pre.has_id(flow.flow_id@),
        post.flows_seq() == pre.flows_seq().push(flow),
    ensures
        post.has_id(flow.flow_id@),
        post.flows_seq()[post.index_of(flow.flow_id@)] == flow,
{
    let n = pre.flows_seq().len() as int;
    assert(post.flows_seq()[n] == flow);
    assert(post.has_id(flow.flow_id@));
    let w = post.index_of(flow.flow_id@);
    if w != n {
        assert(pre.flows_seq()[w].flow_id@ == flow.flow_id@) by {
            assert(post.flows_seq()[w] == pre.flows_seq()[w]);
        }
        assert(false);
    }
}

/// Index consistency, exact-path map: every pair the map holds names a
/// stored flow, under that flow's own path hash.
pub proof fn lemma_exact_index_consistent(e: StorageEngine, k: Seq<char>, id: Seq<char>)
    requires
        e.wf(),
        e.pindex().exact_has(k, id),
    ensures
        e.has_id(id),
        k == crate::path_index::flow_exact_key(e.flows_seq()[e.index_of(id)]),
{
    let i = choose|i: int|
        0 <= i < e.flows_seq().len() && (#[trigger] e.flows_seq()[i]).flow_id@ == id && k
            == crate::path_index::flow_exact_key(e.flows_seq()[i]);
    assert(e.has_id(id));
    let w = e.index_of(id);
    if w != i {
        assert(e.flows_seq()[w].flow_id@ == e.flows_seq()[i].flow_id@);
        assert(false);
    }
}

/// Index consistency, through-switch map: for every pair the map
/// holds, the flow is stored and the switch occurs in its path.
pub proof fn lemma_switch_index_consistent(e: StorageEngine, switch: Seq<char>, id: Seq<char>)
    requires
        e.wf(),
        e.pindex().switch_has(switch, id),
    ensures
        e.has_id(id),
        seq_has(e.flows_seq()[e.index_of(id)].path.switches_view(), switch),
{
    let i = choose|i: int|
        0 <= i < e.flows_seq().len() && (#[trigger] e.flows_seq()[i]).flow_id@ == id && seq_has(
            e.flows_seq()[i].path.switches_view(),
            switch,
        );
    assert(e.has_id(id));
    let w = e.index_of(id);
    if w != i {
        assert(e.flows_seq()[w].flow_id@ == e.flows_seq()[i].flow_id@);
        assert(false);
    }
}

/// Index consistency, prefix map: for every pair the map holds, the
/// flow is stored and the key is one of its path's prefix keys.
pub proof fn lemma_prefix_index_consistent(e: StorageEngine, k: Seq<char>, id: Seq<char>)
    requires
        e.wf(),
        e.pindex().prefix_has(k, id),
    ensures
        e.has_id(id),
        exists|j: int|
            1 <= j <= e.flows_seq()[e.index_of(id)].path.switches_view().len() && k == prefix_key(
                e.flows_seq()[e.index_of(id)].path.switches_view(),
                j,
            ),
{
    let i = choose|i: int|
        0 <= i < e.flows_seq().len() && (#[trigger] e.flows_seq()[i]).flow_id@ == id && (exists|
        j: int|
            1 <= j <= e.flows_seq()[i].path.switches_view().len() && k == prefix_key(
                e.flows_seq()[i].path.switches_view(),
                j,
            ));
    assert(e.has_id(id));
    let w = e.index_of(id);
    if w != i {
        assert(e.flows_seq()[w].flow_id@ == e.flows_seq()[i].flow_id@);
        assert(false);
    }
}

/// Index consistency, time index: for every pair the index holds, the
/// flow is stored and the bucket is the bucket of its start time.
pub proof fn lemma_time_index_consistent(e: StorageEngine, b: int, id: Seq<char>)
    requires
        e.wf(),
        e.tindex().has(b, id),
    ensures
        e.has_id(id),
        b == spec_bucket(e.flows_seq()[e.index_of(id)].start_time as int, e.tindex().width()),
{
    let i = choose|i: int|
        0 <= i < e.flows_seq().len() && (#[trigger] e.flows_seq()[i]).flow_id@ == id && b
            == spec_bucket(e.flows_seq()[i].start_time as int, e.tindex().width());
    assert(e.has_id(id));
    let w = e.index_of(id);
    if w != i {
        assert(e.flows_seq()[w].flow_id@ == e.flows_seq()[i].flow_id@);
        assert(false);
    }
}

/// Re-insert appends: inserting under an identifier that is already
/// stored leaves the flow count unchanged and yields a flow whose hops
/// are the stored hops followed by the incoming hops, renumbered past
/// the stored maximum — not a replaced flow.
pub proof fn lemma_reinsert_appends(pre: StorageEngine, post: StorageEngine, flow: Flow)
    requires
        pre.wf(),
        flow.wf(),
        pre.has_id(flow.flow_id@),
        merge_fits(pre.flows_seq()[pre.index_of(flow.flow_id@)], flow),
        post.flows_seq().len() == pre.flows_seq().len(),
        merge_ok(
            pre.flows_seq()[pre.index_of(flow.flow_id@)],
            flow,
            post.flows_seq()[pre.index_of(flow.flow_id@)],
        ),
    ensures
        post.flows_seq().len() == pre.flows_seq().len(),
        post.flows_seq()[pre.index_of(flow.flow_id@)].hops_view() == pre.flows_seq()[pre.index_of(
            flow.flow_id@,
        )].hops_view() + spec_renumbered(
            flow.hops_view(),
            pre.flows_seq()[pre.index_of(flow.flow_id@)].hops_view().last().hop_index as int + 1,
        ),
        post.flows_seq()[pre.index_of(flow.flow_id@)].flow_id@ == flow.flow_id@,
{
    let i = pre.index_of(flow.flow_id@);
    assert(pre.flows_seq()[i].flow_id@ == flow.flow_id@);
}

proof fn lemma_insert_pair_membership(
    p: (i64, Seq<char>),
    s: Seq<(i64, Seq<char>)>,
    x: (i64, Seq<char>),
)
    ensures
        insert_pair_sorted(p, s).contains(x) <==> (x == p || s.contains(x)),
    decreases s.len(),
{
    let out = insert_pair_sorted(p, s);
    if s.len() == 0 {
        assert(out =~= seq![p]);
        if out.contains(x) {
            let t = choose|t: int| 0 <= t < out.len() && out[t] == x;
            assert(x == p);
        }
        if x == p {
            assert(out[0] == x);
        }
    } else if crate::planner::pair_before(p, s[0]) {
        assert(out == seq![p] + s);
        if out.contains(x) {
            let t = choose|t: int| 0 <= t < out.len() && out[t] == x;
            if t == 0 {
                assert(x == p);
            } else {
                assert(s[t - 1] == x);
            }
        }
        if x == p {
            assert(out[0] == x);
        }
        if s.contains(x) {
            let t = choose|t: int| 0 <= t < s.len() && s[t] == x;
            assert(out[t + 1] == x);
        }
    } else {
        let rest = insert_pair_sorted(p, s.drop_first());
        lemma_insert_pair_membership(p, s.drop_first(), x);
        assert(out == seq![s[0]] + rest);
        if out.contains(x) {
            let t = choose|t: int| 0 <= t < out.len() && out[t] == x;
            if t == 0 {
                assert(s[0] == x);
            } else {
                assert(rest[t - 1] == x);
                assert(rest.contains(x));
                if x != p {
                    let u = choose|u: int|
                        0 <= u < s.drop_first().len() && s.drop_first()[u] == x;
                    assert(s[u + 1] == x);
                }
            }
        }
        if x == p {
            assert(rest.contains(x));
            let u = choose|u: int| 0 <= u < rest.len() && rest[u] == x;
            assert(out[u + 1] == x);
        }
        if s.contains(x) {
            let t = choose|t: int| 0 <= t < s.len() && s[t] == x;
            if t == 0 {
                assert(out[0] == x);
            } else {
                assert(s.drop_first()[t - 1] == x);
                assert(rest.contains(x));
                let u = choose|u: int| 0 <= u < rest.len() && rest[u] == x;
                assert(out[u + 1] == x);
            }
        }
    }
}

proof fn lemma_sort_pairs_membership(s: Seq<(i64, Seq<char>)>, x: (i64, Seq<char>))
    ensures
        sort_pairs(s).contains(x) <==> s.contains(x),
    decreases s.len(),
{
    if s.len() > 0 {
        lemma_sort_pairs_membership(s.drop_last(), x);
        lemma_insert_pair_membership(s.last(), sort_pairs(s.drop_last()), x);
        if s.contains(x) {
            let t = choose|t: int| 0 <= t < s.len() && s[t] == x;
            if t < s.len() - 1 {
                assert(s.drop_last()[t] == x);
            } else {
                assert(x == s.last());
            }
        }
        if sort_pairs(s).contains(x) {
            if x == s.last() {
                assert(s[s.len() - 1] == x);
            } else {
                assert(s.drop_last().contains(x));
                let t = choose|t: int| 0 <= t < s.drop_last().len() && s.drop_last()[t] == x;
                assert(s[t] == x);
            }
        }
    }
}

/// Every matching flow is returned: for any query and clock sample, a
/// stored flow that matches every condition appears in the full result
/// enumeration. In particular a time condition whose bounds coincide
/// with bucket edges loses no flow: the bucket scan over-approximates
/// and the residual filter only removes non-matching flows.
pub proof fn lemma_matching_flow_in_results(
    e: StorageEngine,
    q: QueryBuilder,
    now: int,
    fi: int,
)
    requires
        0 <= fi < e.flows_seq().len(),
        spec_query_matches(q, e.flows_seq()[fi], now),
    ensures
        spec_query_ids(e.flows_seq(), q, now).contains(e.flows_seq()[fi].flow_id@),
{
    let flows = e.flows_seq();
    let pred = |f: Flow| spec_query_matches(q, f, now);
    let f = flows[fi];
    flows.lemma_filter_contains(pred, fi);
    assert(flows.filter(pred).contains(f));
    let j = choose|j: int| 0 <= j < flows.filter(pred).len() && flows.filter(pred)[j] == f;
    let pairs = spec_matching_pairs(flows, q, now);
    assert(pairs[j] == pair_of(f));
    assert(pairs.contains(pair_of(f)));
    lemma_sort_pairs_membership(pairs, pair_of(f));
    assert(sort_pairs(pairs).contains(pair_of(f)));
    let t = choose|t: int| 0 <= t < sort_pairs(pairs).len() && sort_pairs(pairs)[t] == pair_of(f);
    assert(spec_query_ids(flows, q, now)[t] == f.flow_id@);
}

} // verus!
