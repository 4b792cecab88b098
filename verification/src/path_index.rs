//! The path-structural index: exact-path, through-switch and prefix
//! multimaps over flow identifiers.

use vstd::prelude::*;
use vstd::string::StringExecFns;

use crate::flow::Flow;
use crate::idmap::{entries_wf, ids_distinct, map_get, map_has, map_insert, map_remove, strs_contain,
    union_ids, MapEntry};
use crate::path::{spec_path_hash, NetworkPath};
use crate::strutil::{join_strs, spec_contains, spec_join, spec_starts_with, str_contains,
    str_starts_with, strs_view};

verus! {

/// The key under which a flow is filed in the exact-path map.
pub open spec fn flow_exact_key(f: Flow) -> Seq<char> {
    spec_path_hash(f.path.switches_view())
}

/// The prefix-map key for the first `j` switches of a switch sequence.
pub open spec fn prefix_key(sv: Seq<Seq<char>>, j: int) -> Seq<char> {
    spec_join(sv.take(j), "->"@)
}

/// An index over flow paths: an exact-path map keyed by content hash,
/// a through-switch map keyed by switch identifier, and a prefix map
/// keyed by every non-empty path prefix joined with `"->"`.
pub struct PathIndex {
    exact_paths: Vec<MapEntry>,
    switch_flows: Vec<MapEntry>,
    prefix_index: Vec<MapEntry>,
}

/// Counts of a path index: distinct path hashes, distinct switches,
/// distinct prefix keys, and flow references in the exact-path map.
#[derive(Debug, Clone, Copy, PartialEq, Eq, Structural)]
pub struct IndexStats {
    pub unique_paths: usize,
    pub unique_switches: usize,
    pub prefix_entries: usize,
    pub total_flow_refs: usize,
}

/// The number of flow references held by the entries.
pub open spec fn spec_sum_ids(entries: Seq<MapEntry>) -> int
    decreases entries.len(),
{
    if entries.len() == 0 {
        0
    } else {
        spec_sum_ids(entries.drop_last()) + entries.last().ids@.len()
    }
}

impl PathIndex {
    /// The entries of the exact-path map.
    pub closed spec fn exact_entries(&self) -> Seq<MapEntry> {
        self.exact_paths@
    }

    /// The entries of the through-switch map.
    pub closed spec fn switch_entries(&self) -> Seq<MapEntry> {
        self.switch_flows@
    }

    /// The entries of the prefix map.
    pub closed spec fn prefix_entries(&self) -> Seq<MapEntry> {
        self.prefix_index@
    }

    /// All three maps are well-formed multimaps.
    pub open spec fn wf(&self) -> bool {
        &&& entries_wf(self.exact_entries())
        &&& entries_wf(self.switch_entries())
        &&& entries_wf(self.prefix_entries())
    }

    /// The exact-path map files `id` under the path hash `k`.
    pub open spec fn exact_has(&self, k: Seq<char>, id: Seq<char>) -> bool {
        map_has(self.exact_entries(), k, id)
    }

    /// The through-switch map files `id` under the switch `k`.
    pub open spec fn switch_has(&self, k: Seq<char>, id: Seq<char>) -> bool {
        map_has(self.switch_entries(), k, id)
    }

    /// The prefix map files `id` under the prefix key `k`.
    pub open spec fn prefix_has(&self, k: Seq<char>, id: Seq<char>) -> bool {
        map_has(self.prefix_entries(), k, id)
    }

    /// Some prefix-map key starting with `pre` files `id`.
    pub open spec fn prefix_union_starts(&self, pre: Seq<char>, id: Seq<char>) -> bool {
        exists|i: int|
            0 <= i < self.prefix_entries().len() && spec_starts_with(
                (#[trigger] self.prefix_entries()[i]).key@,
                pre,
            ) && strs_contain(self.prefix_entries()[i].ids@, id)
    }

    /// Some prefix-map key containing `sub` files `id`.
    pub open spec fn prefix_union_contains(&self, sub: Seq<char>, id: Seq<char>) -> bool {
        exists|i: int|
            0 <= i < self.prefix_entries().len() && spec_contains(
                (#[trigger] self.prefix_entries()[i]).key@,
                sub,
            ) && strs_contain(self.prefix_entries()[i].ids@, id)
    }

    /// Create an empty path index.
    pub fn new() -> (r: Self)
        ensures
            r.wf(),
            r.exact_entries().len() == 0,
            r.switch_entries().len() == 0,
            r.prefix_entries().len() == 0,
    {
        PathIndex { exact_paths: Vec::new(), switch_flows: Vec::new(), prefix_index: Vec::new() }
    }

    /// File a flow under its path hash, under every switch of its path,
    /// and under every non-empty prefix of its path. Filing a flow
    /// whose pairs are already present leaves the maps unchanged.
    pub fn add_flow(&mut self, flow: &Flow)
        requires
            old(self).wf(),
            flow.path.hash_consistent(),
        ensures
            final(self).wf(),
            forall|k: Seq<char>, x: Seq<char>|
                final(self).exact_has(k, x) <==> (old(self).exact_has(k, x) || (k
                    == flow_exact_key(*flow) && x == flow.flow_id@)),
            forall|k: Seq<char>, x: Seq<char>|
                final(self).switch_has(k, x) <==> (old(self).switch_has(k, x) || ((exists|t: int|
                    0 <= t < flow.path.switches_view().len() && #[trigger] flow.path.switches_view()[t]
                        == k) && x == flow.flow_id@)),
            forall|k: Seq<char>, x: Seq<char>|
                final(self).prefix_has(k, x) <==> (old(self).prefix_has(k, x) || ((exists|j: int|
                    1 <= j <= flow.path.switches_view().len() && k == prefix_key(
                        flow.path.switches_view(),
                        j,
                    )) && x == flow.flow_id@)),
            final(self).exact_has(flow_exact_key(*flow), flow.flow_id@),
            forall|t: int|
                0 <= t < flow.path.switches_view().len() ==> final(self).switch_has(
                    #[trigger] flow.path.switches_view()[t],
                    flow.flow_id@,
                ),
            forall|j: int|
                1 <= j <= flow.path.switches_view().len() ==> final(self).prefix_has(
                    #[trigger] prefix_key(flow.path.switches_view(), j),
                    flow.flow_id@,
                ),
    {
        let ghost sv = flow.path.switches_view();
        let hash = flow.path.hash();
        map_insert(&mut self.exact_paths, &hash, &flow.flow_id);
        let ghost ex1 = self.exact_paths@;
        let ghost sw0 = self.switch_flows@;
        let ghost pf0 = self.prefix_index@;
        let n = flow.path.switches.len();
        let mut i: usize = 0;
        while i < n
            invariant
                n == sv.len(),
                n == flow.path.switches@.len(),
                sv == flow.path.switches_view(),
                i <= n,
                self.exact_paths@ == ex1,
                self.prefix_index@ == pf0,
                entries_wf(self.switch_flows@),
                forall|k: Seq<char>, x: Seq<char>|
                    #[trigger] map_has(self.switch_flows@, k, x) <==> (map_has(sw0, k, x) || ((
                    exists|t: int| 0 <= t < i && #[trigger] sv[t] == k) && x == flow.flow_id@)),
            decreases n - i,
        {
            let ghost prev = self.switch_flows@;
            map_insert(&mut self.switch_flows, &flow.path.switches[i], &flow.flow_id);
            proof {
                assert(sv[i as int] == flow.path.switches@[i as int]@);
                assert forall|k: Seq<char>, x: Seq<char>| #[trigger]
                    map_has(self.switch_flows@, k, x) <==> (map_has(sw0, k, x) || ((exists|t: int|
                        0 <= t < i + 1 && #[trigger] sv[t] == k) && x == flow.flow_id@)) by {
                    assert(map_has(self.switch_flows@, k, x) <==> (map_has(prev, k, x) || (k
                        == flow.path.switches@[i as int]@ && x == flow.flow_id@)));
                    if map_has(self.switch_flows@, k, x) {
                        if map_has(prev, k, x) {
                            if !map_has(sw0, k, x) {
                                let t = choose|t: int| 0 <= t < i && #[trigger] sv[t] == k;
                                assert(0 <= t < i + 1 && sv[t] == k);
                            }
                        } else {
                            assert(k == sv[i as int] && x == flow.flow_id@);
                        }
                    }
                    if map_has(sw0, k, x) {
                        assert(map_has(prev, k, x));
                    }
                    if (exists|t: int| 0 <= t < i + 1 && #[trigger] sv[t] == k) && x
                        == flow.flow_id@ {
                        let t = choose|t: int| 0 <= t < i + 1 && #[trigger] sv[t] == k;
                        if t < i {
                            assert(map_has(prev, k, x));
                        }
                    }
                }
            }
            i = i + 1;
        }
        let ghost sw1 = self.switch_flows@;
        let mut key = String::new();
        let mut j: usize = 0;
        while j < n
            invariant
                n == sv.len(),
                n == flow.path.switches@.len(),
                sv == flow.path.switches_view(),
                j <= n,
                self.exact_paths@ == ex1,
                self.switch_flows@ == sw1,
                key@ == spec_join(sv.take(j as int), "->"@),
                entries_wf(self.prefix_index@),
                forall|k: Seq<char>, x: Seq<char>|
                    #[trigger] map_has(self.prefix_index@, k, x) <==> (map_has(pf0, k, x) || ((
                    exists|t: int| 1 <= t <= j && k == prefix_key(sv, t)) && x == flow.flow_id@)),
            decreases n - j,
        {
            if j > 0 {
                key.append("->");
            }
            key.append(flow.path.switches[j].as_str());
            j = j + 1;
            proof {
                assert(sv.take(j as int).drop_last() =~= sv.take(j - 1));
                assert(sv.take(j as int).last() == sv[j - 1]);
                assert(sv[j - 1] == flow.path.switches@[j - 1]@);
            }
            let ghost prev = self.prefix_index@;
            map_insert(&mut self.prefix_index, &key, &flow.flow_id);
            proof {
                assert forall|k: Seq<char>, x: Seq<char>| #[trigger]
                    map_has(self.prefix_index@, k, x) <==> (map_has(pf0, k, x) || ((exists|t: int|
                        1 <= t <= j && k == prefix_key(sv, t)) && x == flow.flow_id@)) by {
                    if map_has(self.prefix_index@, k, x) {
                        if map_has(prev, k, x) {
                            if !map_has(pf0, k, x) {
                                let t = choose|t: int| 1 <= t <= j - 1 && k == prefix_key(sv, t);
                                assert(1 <= t <= j && k == prefix_key(sv, t));
                            }
                        } else {
                            assert(k == key@ && x == flow.flow_id@);
                            assert(k == prefix_key(sv, j as int));
                        }
                    }
                    if map_has(pf0, k, x) {
                        assert(map_has(prev, k, x));
                    }
                    if (exists|t: int| 1 <= t <= j && k == prefix_key(sv, t)) && x
                        == flow.flow_id@ {
                        let t = choose|t: int| 1 <= t <= j && k == prefix_key(sv, t);
                        if t < j {
                            assert(map_has(prev, k, x));
                        } else {
                            assert(k == key@);
                        }
                    }
                }
            }
        }
        proof {
            assert forall|j2: int| 1 <= j2 <= sv.len() implies self.prefix_has(
                #[trigger] prefix_key(sv, j2),
                flow.flow_id@,
            ) by {
                assert((exists|t: int| 1 <= t <= n && prefix_key(sv, j2) == prefix_key(sv, t))
                    && flow.flow_id@ == flow.flow_id@) by {
                    assert(1 <= j2 <= n && prefix_key(sv, j2) == prefix_key(sv, j2));
                }
            }
        }
    }

    /// Remove a flow's pairs: its identifier leaves the entry of its
    /// path hash, of every switch of its path, and of every prefix of
    /// its path; entries left empty are purged.
    pub fn remove_flow(&mut self, flow: &Flow)
        requires
            old(self).wf(),
            flow.path.hash_consistent(),
        ensures
            final(self).wf(),
            forall|k: Seq<char>, x: Seq<char>|
                final(self).exact_has(k, x) <==> (old(self).exact_has(k, x) && !(k
                    == flow_exact_key(*flow) && x == flow.flow_id@)),
            forall|k: Seq<char>, x: Seq<char>|
                final(self).switch_has(k, x) <==> (old(self).switch_has(k, x) && !((exists|t: int|
                    0 <= t < flow.path.switches_view().len() && #[trigger] flow.path.switches_view()[t]
                        == k) && x == flow.flow_id@)),
            forall|k: Seq<char>, x: Seq<char>|
                final(self).prefix_has(k, x) <==> (old(self).prefix_has(k, x) && !((exists|j: int|
                    1 <= j <= flow.path.switches_view().len() && k == prefix_key(
                        flow.path.switches_view(),
                        j,
                    )) && x == flow.flow_id@)),
    {
        let ghost sv = flow.path.switches_view();
        let hash = flow.path.hash();
        map_remove(&mut self.exact_paths, &hash, &flow.flow_id);
        let ghost ex1 = self.exact_paths@;
        let ghost sw0 = self.switch_flows@;
        let ghost pf0 = self.prefix_index@;
        let n = flow.path.switches.len();
        let mut i: usize = 0;
        while i < n
            invariant
                n == sv.len(),
                n == flow.path.switches@.len(),
                sv == flow.path.switches_view(),
                i <= n,
                self.exact_paths@ == ex1,
                self.prefix_index@ == pf0,
                entries_wf(self.switch_flows@),
                forall|k: Seq<char>, x: Seq<char>|
                    #[trigger] map_has(self.switch_flows@, k, x) <==> (map_has(sw0, k, x) && !((
                    exists|t: int| 0 <= t < i && #[trigger] sv[t] == k) && x == flow.flow_id@)),
            decreases n - i,
        {
            let ghost prev = self.switch_flows@;
            map_remove(&mut self.switch_flows, &flow.path.switches[i], &flow.flow_id);
            proof {
                assert(sv[i as int] == flow.path.switches@[i as int]@);
                assert forall|k: Seq<char>, x: Seq<char>| #[trigger]
                    map_has(self.switch_flows@, k, x) <==> (map_has(sw0, k, x) && !((exists|t: int|
                        0 <= t < i + 1 && #[trigger] sv[t] == k) && x == flow.flow_id@)) by {
                    if map_has(self.switch_flows@, k, x) {
                        assert(map_has(prev, k, x));
                        assert(map_has(sw0, k, x));
                        if (exists|t: int| 0 <= t < i + 1 && #[trigger] sv[t] == k) && x
                            == flow.flow_id@ {
                            let t = choose|t: int| 0 <= t < i + 1 && #[trigger] sv[t] == k;
                            if t < i {
                                assert(!map_has(prev, k, x));
                            }
                            assert(false);
                        }
                    } else {
                        if map_has(sw0, k, x) && !((exists|t: int|
                            0 <= t < i + 1 && #[trigger] sv[t] == k) && x == flow.flow_id@) {
                            assert(map_has(prev, k, x)) by {
                                assert(!((exists|t: int| 0 <= t < i && #[trigger] sv[t] == k) && x
                                    == flow.flow_id@));
                            }
                            assert(k == sv[i as int] && x == flow.flow_id@);
                            assert(false);
                        }
                    }
                }
            }
            i = i + 1;
        }
        let ghost sw1 = self.switch_flows@;
        let mut key = String::new();
        let mut j: usize = 0;
        while j < n
            invariant
                n == sv.len(),
                n == flow.path.switches@.len(),
                sv == flow.path.switches_view(),
                j <= n,
                self.exact_paths@ == ex1,
                self.switch_flows@ == sw1,
                key@ == spec_join(sv.take(j as int), "->"@),
                entries_wf(self.prefix_index@),
                forall|k: Seq<char>, x: Seq<char>|
                    #[trigger] map_has(self.prefix_index@, k, x) <==> (map_has(pf0, k, x) && !((
                    exists|t: int| 1 <= t <= j && k == prefix_key(sv, t)) && x == flow.flow_id@)),
            decreases n - j,
        {
            if j > 0 {
                key.append("->");
            }
            key.append(flow.path.switches[j].as_str());
            j = j + 1;
            proof {
                assert(sv.take(j as int).drop_last() =~= sv.take(j - 1));
                assert(sv.take(j as int).last() == sv[j - 1]);
                assert(sv[j - 1] == flow.path.switches@[j - 1]@);
            }
            let ghost prev = self.prefix_index@;
            map_remove(&mut self.prefix_index, &key, &flow.flow_id);
            proof {
                assert(key@ == prefix_key(sv, j as int));
                assert forall|k: Seq<char>, x: Seq<char>| #[trigger]
                    map_has(self.prefix_index@, k, x) <==> (map_has(pf0, k, x) && !((exists|t: int|
                        1 <= t <= j && k == prefix_key(sv, t)) && x == flow.flow_id@)) by {
                    if map_has(self.prefix_index@, k, x) {
                        assert(map_has(prev, k, x));
                        assert(map_has(pf0, k, x));
                        if (exists|t: int| 1 <= t <= j && k == prefix_key(sv, t)) && x
                            == flow.flow_id@ {
                            let t = choose|t: int| 1 <= t <= j && k == prefix_key(sv, t);
                            if t < j {
                                assert(!map_has(prev, k, x));
                            }
                            assert(false);
                        }
                    } else {
                        if map_has(pf0, k, x) && !((exists|t: int|
                            1 <= t <= j && k == prefix_key(sv, t)) && x == flow.flow_id@) {
                            assert(map_has(prev, k, x)) by {
                                assert(!((exists|t: int|
                                    1 <= t <= j - 1 && k == prefix_key(sv, t)) && x
                                    == flow.flow_id@));
                            }
                            assert(k == key@ && x == flow.flow_id@);
                            assert(false);
                        }
                    }
                }
            }
        }
    }

    /// The flows whose path has the same content hash as `path`.
    pub fn find_exact_path(&self, path: &NetworkPath) -> (r: Vec<String>)
        requires
            self.wf(),
            path.hash_consistent(),
        ensures
            ids_distinct(r@),
            forall|x: Seq<char>|
                #[trigger] strs_contain(r@, x) <==> self.exact_has(
                    spec_path_hash(path.switches_view()),
                    x,
                ),
    {
        let hash = path.hash();
        map_get(&self.exact_paths, hash.as_str())
    }

    /// The flows filed under the switch `switch_id`.
    pub fn find_flows_through_switch(&self, switch_id: &str) -> (r: Vec<String>)
        requires
            self.wf(),
        ensures
            ids_distinct(r@),
            forall|x: Seq<char>| #[trigger] strs_contain(r@, x) <==> self.switch_has(switch_id@, x),
    {
        map_get(&self.switch_flows, switch_id)
    }

    /// The union of the prefix-map entries whose key starts with the
    /// switches of `prefix` joined with `"->"`.
    pub fn find_flows_with_prefix(&self, prefix: &[String]) -> (r: Vec<String>)
        requires
            self.wf(),
        ensures
            ids_distinct(r@),
            forall|x: Seq<char>|
                #[trigger] strs_contain(r@, x) <==> self.prefix_union_starts(
                    spec_join(strs_view(prefix@), "->"@),
                    x,
                ),
    {
        let needle = join_strs(prefix, "->");
        let n = self.prefix_index.len();
        let mut acc: Vec<String> = Vec::new();
        let mut i: usize = 0;
        while i < n
            invariant
                self.wf(),
                n == self.prefix_index@.len(),
                i <= n,
                needle@ == spec_join(strs_view(prefix@), "->"@),
                ids_distinct(acc@),
                forall|x: Seq<char>|
                    #[trigger] strs_contain(acc@, x) <==> (exists|t: int|
                        0 <= t < i && spec_starts_with(
                            (#[trigger] self.prefix_index@[t]).key@,
                            needle@,
                        ) && strs_contain(self.prefix_index@[t].ids@, x)),
        decreases n - i,
        {
            if str_starts_with(self.prefix_index[i].key.as_str(), needle.as_str()) {
                union_ids(&mut acc, &self.prefix_index[i].ids);
            }
            i = i + 1;
        }
        acc
    }

    /// The union of the prefix-map entries whose key contains the
    /// switches of `path` joined with `"->"`.
    pub fn find_flows_containing_path(&self, path: &[String]) -> (r: Vec<String>)
        requires
            self.wf(),
        ensures
            ids_distinct(r@),
            forall|x: Seq<char>|
                #[trigger] strs_contain(r@, x) <==> self.prefix_union_contains(
                    spec_join(strs_view(path@), "->"@),
                    x,
                ),
    {
        let needle = join_strs(path, "->");
        let n = self.prefix_index.len();
        let mut acc: Vec<String> = Vec::new();
        let mut i: usize = 0;
        while i < n
            invariant
                self.wf(),
                n == self.prefix_index@.len(),
                i <= n,
                needle@ == spec_join(strs_view(path@), "->"@),
                ids_distinct(acc@),
                forall|x: Seq<char>|
                    #[trigger] strs_contain(acc@, x) <==> (exists|t: int|
                        0 <= t < i && spec_contains(
                            (#[trigger] self.prefix_index@[t]).key@,
                            needle@,
                        ) && strs_contain(self.prefix_index@[t].ids@, x)),
        decreases n - i,
        {
            if str_contains(self.prefix_index[i].key.as_str(), needle.as_str()) {
                union_ids(&mut acc, &self.prefix_index[i].ids);
            }
            i = i + 1;
        }
        acc
    }

    /// Counts of the index's maps.
    pub fn stats(&self) -> (r: IndexStats)
        ensures
            r.unique_paths == self.exact_entries().len(),
            r.unique_switches == self.switch_entries().len(),
            r.prefix_entries == self.prefix_entries().len(),
            r.total_flow_refs as int == spec_sum_ids(self.exact_entries()) || r.total_flow_refs
                == usize::MAX,
    {
        let n = self.exact_paths.len();
        let mut total: usize = 0;
        let mut i: usize = 0;
        let mut exact = true;
        while i < n
            invariant
                n == self.exact_paths@.len(),
                i <= n,
                exact ==> total as int == spec_sum_ids(self.exact_paths@.take(i as int)),
                !exact ==> total == usize::MAX,
            decreases n - i,
        {
            let ghost pre = self.exact_paths@.take(i as int);
            let add = self.exact_paths[i].ids.len();
            if usize::MAX - total >= add {
                total = total + add;
                proof {
                    if !exact {
                        assert(total == usize::MAX && add == 0);
                    }
                }
            } else {
                total = usize::MAX;
                exact = false;
            }
            i = i + 1;
            proof {
                assert(self.exact_paths@.take(i as int).drop_last() =~= pre);
                if exact {
                    assert(total as int == spec_sum_ids(self.exact_paths@.take(i as int)));
                }
            }
        }
        proof {
            assert(self.exact_paths@.take(n as int) =~= self.exact_paths@);
        }
        IndexStats {
            unique_paths: n,
            unique_switches: self.switch_flows.len(),
            prefix_entries: self.prefix_index.len(),
            total_flow_refs: total,
        }
    }
}

impl Default for PathIndex {
    /// An empty path index.
    fn default() -> (r: Self)
        ensures
            r.wf(),
            r.exact_entries().len() == 0,
            r.switch_entries().len() == 0,
            r.prefix_entries().len() == 0,
    {
        PathIndex::new()
    }
}

} // verus!
