//! The time-bucketed index: flows filed under fixed-width buckets of
//! their start time, scanned by range for candidate sets.

use vstd::prelude::*;
use vstd::arithmetic::div_mod::{lemma_div_is_ordered, lemma_div_multiples_vanish_fancy,
    lemma_fundamental_div_mod, lemma_mod_bound};
use vstd::arithmetic::mul::lemma_mul_inequality;

use crate::flow::Flow;
use crate::idmap::{ids_distinct, strs_contain, union_ids};
use crate::strutil::string_eq;

verus! {

/// The largest accepted bucket width, in seconds.
pub const MAX_BUCKET_SIZE: i64 = 0x2000_0000_0000_0000;

/// The start of the fixed-width bucket holding the epoch-millisecond
/// time `t`: the epoch seconds of `t` rounded down to a multiple of
/// the width `w`.
pub open spec fn spec_bucket(t: int, w: int) -> int
    recommends
        w >= 1,
{
    ((t / 1000) / w) * w
}

/// Larger times never fall into earlier buckets.
pub proof fn lemma_bucket_monotonic(t1: int, t2: int, w: int)
    requires
        w >= 1,
        t1 <= t2,
    ensures
        spec_bucket(t1, w) <= spec_bucket(t2, w),
{
    lemma_div_is_ordered(t1, t2, 1000);
    lemma_div_is_ordered(t1 / 1000, t2 / 1000, w);
    lemma_mul_inequality((t1 / 1000) / w, (t2 / 1000) / w, w);
}

/// Division rounding toward negative infinity, the rounding of the
/// mathematical integer division.
fn floor_div(a: i64, b: i64) -> (r: i64)
    requires
        1 <= b <= MAX_BUCKET_SIZE,
    ensures
        r as int == a as int / b as int,
{
    if a >= 0 {
        let q = (a as u64) / (b as u64);
        proof {
            assert(q as int == a as int / b as int);
        }
        q as i64
    } else {
        let na: u64 = (-(a as i128)) as u64;
        let bu: u64 = b as u64;
        let q: u64 = (na + (bu - 1)) / bu;
        proof {
            let ai = a as int;
            let bi = b as int;
            let nai = na as int;
            assert(nai == -ai);
            assert(q as int == (nai + bi - 1) / bi);
            lemma_fundamental_div_mod(nai + bi - 1, bi);
            lemma_mod_bound(nai + bi - 1, bi);
            let r0 = (nai + bi - 1) % bi;
            assert(nai + bi - 1 == bi * (q as int) + r0);
            assert(nai <= bi * (q as int) <= nai + bi - 1);
            assert(bi * (-(q as int)) <= ai < bi * (-(q as int)) + bi) by (nonlinear_arith)
                requires
                    nai <= bi * (q as int) <= nai + bi - 1,
                    nai == -ai,
            ;
            lemma_div_multiples_vanish_fancy(-(q as int), ai - bi * (-(q as int)), bi);
            assert(bi * (-(q as int)) + (ai - bi * (-(q as int))) == ai);
            assert(ai / bi == -(q as int));
            assert(q as int <= nai) by (nonlinear_arith)
                requires
                    bi * (q as int) <= nai + bi - 1,
                    bi >= 1,
                    nai >= 1,
                    q as int >= 0,
            ;
        }
        (-(q as i128)) as i64
    }
}

/// The start of the bucket holding the epoch-millisecond time `t_ms`,
/// as epoch seconds, for the bucket width `w` in seconds.
pub fn bucket_start(t_ms: i64, w: i64) -> (r: i64)
    requires
        1 <= w <= MAX_BUCKET_SIZE,
    ensures
        r as int == spec_bucket(t_ms as int, w as int),
{
    let secs = floor_div(t_ms, 1000);
    let b = floor_div(secs, w);
    proof {
        let si = secs as int;
        let wi = w as int;
        lemma_div_is_ordered(i64::MIN as int, t_ms as int, 1000);
        lemma_div_is_ordered(t_ms as int, i64::MAX as int, 1000);
        lemma_fundamental_div_mod(si, wi);
        lemma_mod_bound(si, wi);
        assert(wi * (b as int) == si - si % wi);
        assert((b as int) * wi == wi * (b as int)) by (nonlinear_arith);
        assert(i64::MIN as int <= (b as int) * wi <= i64::MAX as int);
    }
    b * w
}

/// One time bucket together with the flow identifiers filed under it.
pub struct BucketEntry {
    pub bucket: i64,
    pub ids: Vec<String>,
}

/// Well-formed bucket entries: bucket keys strictly ascending, every
/// entry non-empty, identifiers under a bucket pairwise distinct.
pub open spec fn bentries_wf(entries: Seq<BucketEntry>) -> bool {
    &&& forall|i: int, j: int|
        0 <= i < j < entries.len() ==> (#[trigger] entries[i]).bucket < (
        #[trigger] entries[j]).bucket
    &&& forall|i: int| 0 <= i < entries.len() ==> (#[trigger] entries[i]).ids@.len() > 0
    &&& forall|i: int| 0 <= i < entries.len() ==> ids_distinct((#[trigger] entries[i]).ids@)
}

/// The bucket map files `id` under the bucket that starts at `b`.
pub open spec fn bmap_has(entries: Seq<BucketEntry>, b: int, id: Seq<char>) -> bool {
    exists|i: int|
        0 <= i < entries.len() && (#[trigger] entries[i]).bucket == b && strs_contain(
            entries[i].ids@,
            id,
        )
}

/// A time-bucketed index over flow start times: a map from bucket
/// starts (epoch seconds, ascending) to the flows that started in the
/// bucket.
pub struct TimeIndex {
    time_buckets: Vec<BucketEntry>,
    bucket_size_secs: i64,
}

/// Counts of a time index.
#[derive(Debug, Clone)]
pub struct TimeIndexStats {
    pub bucket_count: usize,
    pub bucket_size_secs: i64,
    /// Earliest bucket start, epoch seconds.
    pub earliest_time: Option<i64>,
    /// Latest bucket start, epoch seconds.
    pub latest_time: Option<i64>,
    pub total_flow_refs: usize,
}

/// The number of flow references held by the bucket entries.
pub open spec fn spec_sum_bucket_ids(entries: Seq<BucketEntry>) -> int
    decreases entries.len(),
{
    if entries.len() == 0 {
        0
    } else {
        spec_sum_bucket_ids(entries.drop_last()) + entries.last().ids@.len()
    }
}

impl TimeIndex {
    /// The entries of the bucket map, ascending by bucket start.
    pub closed spec fn entries(&self) -> Seq<BucketEntry> {
        self.time_buckets@
    }

    /// The configured bucket width in seconds.
    pub closed spec fn width(&self) -> int {
        self.bucket_size_secs as int
    }

    /// A well-formed index: a positive, bounded width and well-formed
    /// bucket entries.
    pub open spec fn wf(&self) -> bool {
        &&& 1 <= self.width() <= MAX_BUCKET_SIZE as int
        &&& bentries_wf(self.entries())
    }

    /// The index files `id` under the bucket starting at `b`.
    pub open spec fn has(&self, b: int, id: Seq<char>) -> bool {
        bmap_has(self.entries(), b, id)
    }

    /// The bucket a flow is filed under: the bucket of its start time.
    pub open spec fn bucket_of(&self, f: Flow) -> int {
        spec_bucket(f.start_time as int, self.width())
    }

    /// Create a time index with the given bucket width in seconds.
    pub fn new(bucket_size_secs: i64) -> (r: Self)
        requires
            1 <= bucket_size_secs <= MAX_BUCKET_SIZE,
        ensures
            r.wf(),
            r.width() == bucket_size_secs,
            r.entries().len() == 0,
    {
        TimeIndex { time_buckets: Vec::new(), bucket_size_secs }
    }

    /// Create a time index with one-minute buckets.
    pub fn with_minute_buckets() -> (r: Self)
        ensures
            r.wf(),
            r.width() == 60,
            r.entries().len() == 0,
    {
        TimeIndex::new(60)
    }

    /// Create a time index with five-minute buckets.
    pub fn with_five_minute_buckets() -> (r: Self)
        ensures
            r.wf(),
            r.width() == 300,
            r.entries().len() == 0,
    {
        TimeIndex::new(300)
    }

    /// File a flow under the bucket of its start time. Filing a pair
    /// that is already present leaves the index unchanged.
    pub fn add_flow(&mut self, flow: &Flow)
        requires
            old(self).wf(),
        ensures
            final(self).wf(),
            final(self).width() == old(self).width(),
            forall|b: int, x: Seq<char>|
                final(self).has(b, x) <==> (old(self).has(b, x) || (b == old(self).bucket_of(
                    *flow,
                ) && x == flow.flow_id@)),
    {
        let key = bucket_start(flow.start_time, self.bucket_size_secs);
        bucket_insert(&mut self.time_buckets, key, &flow.flow_id);
    }

    /// Remove a flow's pair from the bucket of its start time, purging
    /// the bucket when it becomes empty.
    pub fn remove_flow(&mut self, flow: &Flow)
        requires
            old(self).wf(),
        ensures
            final(self).wf(),
            final(self).width() == old(self).width(),
            forall|b: int, x: Seq<char>|
                final(self).has(b, x) <==> (old(self).has(b, x) && !(b == old(self).bucket_of(
                    *flow,
                ) && x == flow.flow_id@)),
    {
        let key = bucket_start(flow.start_time, self.bucket_size_secs);
        bucket_remove(&mut self.time_buckets, key, &flow.flow_id);
    }

    /// Move a flow whose start time changed: remove it under the old
    /// flow's bucket, then file it under the new flow's bucket.
    pub fn update_flow(&mut self, old_flow: &Flow, new_flow: &Flow)
        requires
            old(self).wf(),
            old_flow.flow_id@ == new_flow.flow_id@,
        ensures
            final(self).wf(),
            final(self).width() == old(self).width(),
            forall|b: int, x: Seq<char>|
                final(self).has(b, x) <==> ((old(self).has(b, x) && !(b == old(self).bucket_of(
                    *old_flow,
                ) && x == old_flow.flow_id@)) || (b == old(self).bucket_of(*new_flow) && x
                    == new_flow.flow_id@)),
    {
        self.remove_flow(old_flow);
        self.add_flow(new_flow);
    }

    /// The flows filed under buckets within `[bucket(start), bucket(end)]`.
    /// This is a candidate set: bucket granularity may include flows
    /// outside the requested range.
    pub fn find_flows_in_range(&self, start_time: i64, end_time: i64) -> (r: Vec<String>)
        requires
            self.wf(),
        ensures
            ids_distinct(r@),
            forall|x: Seq<char>|
                #[trigger] strs_contain(r@, x) <==> (exists|b: int|
                    spec_bucket(start_time as int, self.width()) <= b <= spec_bucket(
                        end_time as int,
                        self.width(),
                    ) && #[trigger] self.has(b, x)),
    {
        let lo = bucket_start(start_time, self.bucket_size_secs);
        let hi = bucket_start(end_time, self.bucket_size_secs);
        let n = self.time_buckets.len();
        let mut acc: Vec<String> = Vec::new();
        let mut i: usize = 0;
        while i < n
            invariant
                self.wf(),
                n == self.time_buckets@.len(),
                i <= n,
                lo as int == spec_bucket(start_time as int, self.width()),
                hi as int == spec_bucket(end_time as int, self.width()),
                ids_distinct(acc@),
                forall|x: Seq<char>|
                    #[trigger] strs_contain(acc@, x) <==> (exists|t: int|
                        0 <= t < i && lo as int <= (#[trigger] self.time_buckets@[t]).bucket as int
                            <= hi as int && strs_contain(self.time_buckets@[t].ids@, x)),
            decreases n - i,
        {
            let b = self.time_buckets[i].bucket;
            if lo <= b && b <= hi {
                union_ids(&mut acc, &self.time_buckets[i].ids);
            }
            i = i + 1;
        }
        proof {
            assert forall|x: Seq<char>| #[trigger]
                strs_contain(acc@, x) <==> (exists|b: int|
                    lo as int <= b <= hi as int && #[trigger] self.has(b, x)) by {
                if strs_contain(acc@, x) {
                    let t = choose|t: int|
                        0 <= t < n && lo as int <= (#[trigger] self.time_buckets@[t]).bucket as int
                            <= hi as int && strs_contain(self.time_buckets@[t].ids@, x);
                    assert(self.has(self.time_buckets@[t].bucket as int, x));
                }
                if exists|b: int| lo as int <= b <= hi as int && #[trigger] self.has(b, x) {
                    let b = choose|b: int| lo as int <= b <= hi as int && #[trigger] self.has(b, x);
                    let t = choose|t: int|
                        0 <= t < self.entries().len() && (#[trigger] self.entries()[t]).bucket == b
                            && strs_contain(self.entries()[t].ids@, x);
                    assert(0 <= t < n && lo as int <= self.time_buckets@[t].bucket as int
                        <= hi as int && strs_contain(self.time_buckets@[t].ids@, x));
                }
            }
        }
        acc
    }

    /// The flows filed under buckets at or after `bucket(timestamp)`.
    pub fn find_flows_after(&self, timestamp: i64) -> (r: Vec<String>)
        requires
            self.wf(),
        ensures
            ids_distinct(r@),
            forall|x: Seq<char>|
                #[trigger] strs_contain(r@, x) <==> (exists|b: int|
                    spec_bucket(timestamp as int, self.width()) <= b && #[trigger] self.has(b, x)),
    {
        let lo = bucket_start(timestamp, self.bucket_size_secs);
        let n = self.time_buckets.len();
        let mut acc: Vec<String> = Vec::new();
        let mut i: usize = 0;
        while i < n
            invariant
                self.wf(),
                n == self.time_buckets@.len(),
                i <= n,
                lo as int == spec_bucket(timestamp as int, self.width()),
                ids_distinct(acc@),
                forall|x: Seq<char>|
                    #[trigger] strs_contain(acc@, x) <==> (exists|t: int|
                        0 <= t < i && lo as int <= (#[trigger] self.time_buckets@[t]).bucket as int
                            && strs_contain(self.time_buckets@[t].ids@, x)),
            decreases n - i,
        {
            let b = self.time_buckets[i].bucket;
            if lo <= b {
                union_ids(&mut acc, &self.time_buckets[i].ids);
            }
            i = i + 1;
        }
        proof {
            assert forall|x: Seq<char>| #[trigger]
                strs_contain(acc@, x) <==> (exists|b: int|
                    lo as int <= b && #[trigger] self.has(b, x)) by {
                if strs_contain(acc@, x) {
                    let t = choose|t: int|
                        0 <= t < n && lo as int <= (#[trigger] self.time_buckets@[t]).bucket as int
                            && strs_contain(self.time_buckets@[t].ids@, x);
                    assert(self.has(self.time_buckets@[t].bucket as int, x));
                }
                if exists|b: int| lo as int <= b && #[trigger] self.has(b, x) {
                    let b = choose|b: int| lo as int <= b && #[trigger] self.has(b, x);
                    let t = choose|t: int|
                        0 <= t < self.entries().len() && (#[trigger] self.entries()[t]).bucket == b
                            && strs_contain(self.entries()[t].ids@, x);
                    assert(0 <= t < n && lo as int <= self.time_buckets@[t].bucket as int
                        && strs_contain(self.time_buckets@[t].ids@, x));
                }
            }
        }
        acc
    }

    /// The flows filed under buckets at or before `bucket(timestamp)`.
    pub fn find_flows_before(&self, timestamp: i64) -> (r: Vec<String>)
        requires
            self.wf(),
        ensures
            ids_distinct(r@),
            forall|x: Seq<char>|
                #[trigger] strs_contain(r@, x) <==> (exists|b: int|
                    b <= spec_bucket(timestamp as int, self.width()) && #[trigger] self.has(b, x)),
    {
        let hi = bucket_start(timestamp, self.bucket_size_secs);
        let n = self.time_buckets.len();
        let mut acc: Vec<String> = Vec::new();
        let mut i: usize = 0;
        while i < n
            invariant
                self.wf(),
                n == self.time_buckets@.len(),
                i <= n,
                hi as int == spec_bucket(timestamp as int, self.width()),
                ids_distinct(acc@),
                forall|x: Seq<char>|
                    #[trigger] strs_contain(acc@, x) <==> (exists|t: int|
                        0 <= t < i && (#[trigger] self.time_buckets@[t]).bucket as int
                            <= hi as int && strs_contain(self.time_buckets@[t].ids@, x)),
            decreases n - i,
        {
            let b = self.time_buckets[i].bucket;
            if b <= hi {
                union_ids(&mut acc, &self.time_buckets[i].ids);
            }
            i = i + 1;
        }
        proof {
            assert forall|x: Seq<char>| #[trigger]
                strs_contain(acc@, x) <==> (exists|b: int|
                    b <= hi as int && #[trigger] self.has(b, x)) by {
                if strs_contain(acc@, x) {
                    let t = choose|t: int|
                        0 <= t < n && (#[trigger] self.time_buckets@[t]).bucket as int <= hi as int
                            && strs_contain(self.time_buckets@[t].ids@, x);
                    assert(self.has(self.time_buckets@[t].bucket as int, x));
                }
                if exists|b: int| b <= hi as int && #[trigger] self.has(b, x) {
                    let b = choose|b: int| b <= hi as int && #[trigger] self.has(b, x);
                    let t = choose|t: int|
                        0 <= t < self.entries().len() && (#[trigger] self.entries()[t]).bucket == b
                            && strs_contain(self.entries()[t].ids@, x);
                    assert(0 <= t < n && self.time_buckets@[t].bucket as int <= hi as int
                        && strs_contain(self.time_buckets@[t].ids@, x));
                }
            }
        }
        acc
    }

    /// The earliest bucket start, epoch seconds, if any bucket exists.
    pub fn earliest_time(&self) -> (r: Option<i64>)
        ensures
            self.entries().len() == 0 <==> r is None,
            r matches Some(b) ==> b == self.entries()[0].bucket,
    {
        if self.time_buckets.len() == 0 {
            None
        } else {
            Some(self.time_buckets[0].bucket)
        }
    }

    /// The latest bucket start, epoch seconds, if any bucket exists.
    pub fn latest_time(&self) -> (r: Option<i64>)
        ensures
            self.entries().len() == 0 <==> r is None,
            r matches Some(b) ==> b == self.entries().last().bucket,
    {
        if self.time_buckets.len() == 0 {
            None
        } else {
            Some(self.time_buckets[self.time_buckets.len() - 1].bucket)
        }
    }

    /// Counts of the index.
    pub fn stats(&self) -> (r: TimeIndexStats)
        ensures
            r.bucket_count == self.entries().len(),
            r.bucket_size_secs as int == self.width(),
            self.entries().len() == 0 <==> r.earliest_time is None,
            r.earliest_time matches Some(b) ==> b == self.entries()[0].bucket,
            self.entries().len() == 0 <==> r.latest_time is None,
            r.latest_time matches Some(b) ==> b == self.entries().last().bucket,
            r.total_flow_refs as int == spec_sum_bucket_ids(self.entries()) || r.total_flow_refs
                == usize::MAX,
    {
        let n = self.time_buckets.len();
        let mut total: usize = 0;
        let mut exact = true;
        let mut i: usize = 0;
        while i < n
            invariant
                n == self.time_buckets@.len(),
                i <= n,
                exact ==> total as int == spec_sum_bucket_ids(self.time_buckets@.take(i as int)),
                !exact ==> total == usize::MAX,
            decreases n - i,
        {
            let ghost pre = self.time_buckets@.take(i as int);
            let add = self.time_buckets[i].ids.len();
            if usize::MAX - total >= add {
                total = total + add;
            } else {
                total = usize::MAX;
                exact = false;
            }
            i = i + 1;
            proof {
                assert(self.time_buckets@.take(i as int).drop_last() =~= pre);
            }
        }
        proof {
            assert(self.time_buckets@.take(n as int) =~= self.time_buckets@);
        }
        TimeIndexStats {
            bucket_count: n,
            bucket_size_secs: self.bucket_size_secs,
            earliest_time: self.earliest_time(),
            latest_time: self.latest_time(),
            total_flow_refs: total,
        }
    }
}

impl Default for TimeIndex {
    /// A time index with one-minute buckets.
    fn default() -> (r: Self)
        ensures
            r.wf(),
            r.width() == 60,
            r.entries().len() == 0,
    {
        TimeIndex::with_minute_buckets()
    }
}

/// File `id` under the bucket starting at `key`, keeping the entries
/// ascending by bucket start.
fn bucket_insert(entries: &mut Vec<BucketEntry>, key: i64, id: &String)
    requires
        bentries_wf(old(entries)@),
    ensures
        bentries_wf(final(entries)@),
        forall|b: int, x: Seq<char>|
            #[trigger] bmap_has(final(entries)@, b, x) <==> (bmap_has(old(entries)@, b, x) || (b
                == key as int && x == id@)),
{
    let ghost orig = entries@;
    let n = entries.len();
    let mut idx: usize = 0;
    while idx < n && entries[idx].bucket < key
        invariant
            entries@ == orig,
            n == orig.len(),
            idx <= n,
            forall|j: int| 0 <= j < idx ==> (#[trigger] orig[j]).bucket < key,
        decreases n - idx,
    {
        idx = idx + 1;
    }
    if idx < n && entries[idx].bucket == key {
        // The bucket exists; extend its identifier set if the id is new.
        let mut entry = entries.remove(idx);
        let ghost entry0 = entry;
        let m = entry.ids.len();
        let mut j: usize = 0;
        let mut present = false;
        while j < m && !present
            invariant
                entry == entry0,
                m == entry0.ids@.len(),
                j <= m,
                !present ==> forall|t: int| 0 <= t < j ==> (#[trigger] entry0.ids@[t])@ != id@,
                present ==> strs_contain(entry0.ids@, id@),
            decreases m - j + (if present { 0int } else { 1int }),
        {
            if string_eq(&entry.ids[j], id) {
                present = true;
            } else {
                j = j + 1;
            }
        }
        if !present {
            entry.ids.push(id.clone());
        }
        entries.insert(idx, entry);
        proof {
            let fin = entries@;
            assert(fin =~= orig.update(idx as int, entry));
            assert(bentries_wf(fin)) by {
                assert forall|a: int, b: int| 0 <= a < b < fin.len() implies (
                #[trigger] fin[a]).bucket < (#[trigger] fin[b]).bucket by {
                    assert(orig[a].bucket < orig[b].bucket);
                }
                assert forall|i: int| 0 <= i < fin.len() implies ids_distinct(
                    (#[trigger] fin[i]).ids@,
                ) by {
                    assert(ids_distinct(orig[i].ids@));
                    if i == idx && !present {
                        assert forall|a: int, b: int|
                            0 <= a < b < fin[i].ids@.len() implies (#[trigger] fin[i].ids@[a])@
                            != (#[trigger] fin[i].ids@[b])@ by {
                            if b == fin[i].ids@.len() - 1 {
                                assert(fin[i].ids@[a]@ == entry0.ids@[a]@);
                            }
                        }
                    }
                }
            }
            assert forall|b: int, x: Seq<char>| #[trigger]
                bmap_has(fin, b, x) <==> (bmap_has(orig, b, x) || (b == key as int && x == id@)) by {
                if bmap_has(fin, b, x) {
                    let i = choose|i: int|
                        0 <= i < fin.len() && (#[trigger] fin[i]).bucket == b && strs_contain(
                            fin[i].ids@,
                            x,
                        );
                    if i != idx {
                        assert(orig[i].bucket == b && strs_contain(orig[i].ids@, x));
                        assert(bmap_has(orig, b, x));
                    } else {
                        let t = choose|t: int|
                            0 <= t < fin[i].ids@.len() && (#[trigger] fin[i].ids@[t])@ == x;
                        if t < entry0.ids@.len() {
                            assert(strs_contain(orig[idx as int].ids@, x));
                            assert(bmap_has(orig, b, x));
                        } else {
                            assert(x == id@ && b == key as int);
                        }
                    }
                }
                if bmap_has(orig, b, x) {
                    let i = choose|i: int|
                        0 <= i < orig.len() && (#[trigger] orig[i]).bucket == b && strs_contain(
                            orig[i].ids@,
                            x,
                        );
                    if i != idx {
                        assert(fin[i].bucket == b && strs_contain(fin[i].ids@, x));
                    } else {
                        let t = choose|t: int|
                            0 <= t < orig[i].ids@.len() && (#[trigger] orig[i].ids@[t])@ == x;
                        assert(fin[idx as int].ids@[t]@ == x);
                        assert(strs_contain(fin[idx as int].ids@, x));
                    }
                }
                if b == key as int && x == id@ {
                    if present {
                        let t = choose|t: int|
                            0 <= t < entry0.ids@.len() && (#[trigger] entry0.ids@[t])@ == id@;
                        assert(fin[idx as int].ids@[t]@ == id@);
                    } else {
                        assert(fin[idx as int].ids@.last()@ == id@);
                    }
                    assert(strs_contain(fin[idx as int].ids@, x));
                    assert(fin[idx as int].bucket == b);
                }
            }
        }
    } else {
        // No bucket starts at `key`: open one at the sorted position.
        let mut ids: Vec<String> = Vec::new();
        ids.push(id.clone());
        entries.insert(idx, BucketEntry { bucket: key, ids });
        proof {
            let fin = entries@;
            let entry = fin[idx as int];
            assert(fin == orig.insert(idx as int, entry));
            assert(bentries_wf(fin)) by {
                assert forall|a: int, b: int| 0 <= a < b < fin.len() implies (
                #[trigger] fin[a]).bucket < (#[trigger] fin[b]).bucket by {
                    let a0 = if a < idx {
                        a
                    } else {
                        a - 1
                    };
                    let b0 = if b < idx {
                        b
                    } else {
                        b - 1
                    };
                    if a == idx {
                        assert(fin[b] == orig[b0]);
                        assert(orig[b0].bucket >= key || b0 < idx);
                        assert(b0 >= idx);
                        assert(!(orig[b0].bucket < key));
                        assert(orig[b0].bucket != key);
                    } else if b == idx {
                        assert(fin[a] == orig[a0]);
                        assert(a0 < idx);
                        assert(orig[a0].bucket < key);
                    } else {
                        assert(fin[a] == orig[a0] && fin[b] == orig[b0]);
                        if a0 < idx && b0 >= idx {
                            assert(orig[a0].bucket < key);
                            assert(!(orig[b0].bucket < key));
                        }
                        assert(orig[a0].bucket < orig[b0].bucket);
                    }
                }
                assert forall|i: int| 0 <= i < fin.len() implies ids_distinct(
                    (#[trigger] fin[i]).ids@,
                ) && (#[trigger] fin[i]).ids@.len() > 0 by {
                    if i != idx {
                        let i0 = if i < idx {
                            i
                        } else {
                            i - 1
                        };
                        assert(fin[i] == orig[i0]);
                        assert(ids_distinct(orig[i0].ids@));
                        assert(orig[i0].ids@.len() > 0);
                    }
                }
            }
            assert forall|b: int, x: Seq<char>| #[trigger]
                bmap_has(fin, b, x) <==> (bmap_has(orig, b, x) || (b == key as int && x == id@)) by {
                if bmap_has(fin, b, x) {
                    let i = choose|i: int|
                        0 <= i < fin.len() && (#[trigger] fin[i]).bucket == b && strs_contain(
                            fin[i].ids@,
                            x,
                        );
                    if i != idx {
                        let i0 = if i < idx {
                            i
                        } else {
                            i - 1
                        };
                        assert(orig[i0].bucket == b && strs_contain(orig[i0].ids@, x));
                        assert(bmap_has(orig, b, x));
                    } else {
                        let t = choose|t: int|
                            0 <= t < fin[i].ids@.len() && (#[trigger] fin[i].ids@[t])@ == x;
                        assert(t == 0);
                        assert(b == key as int && x == id@);
                    }
                }
                if bmap_has(orig, b, x) {
                    let i = choose|i: int|
                        0 <= i < orig.len() && (#[trigger] orig[i]).bucket == b && strs_contain(
                            orig[i].ids@,
                            x,
                        );
                    let i1 = if i < idx {
                        i
                    } else {
                        i + 1
                    };
                    assert(fin[i1] == orig[i]);
                    assert(fin[i1].bucket == b && strs_contain(fin[i1].ids@, x));
                }
                if b == key as int && x == id@ {
                    assert(fin[idx as int].bucket == b);
                    assert(fin[idx as int].ids@[0]@ == x);
                    assert(strs_contain(fin[idx as int].ids@, x));
                }
            }
        }
    }
}

/// Remove the pair `(key, id)` from the bucket map, purging the bucket
/// when its identifier set becomes empty.
fn bucket_remove(entries: &mut Vec<BucketEntry>, key: i64, id: &String)
    requires
        bentries_wf(old(entries)@),
    ensures
        bentries_wf(final(entries)@),
        forall|b: int, x: Seq<char>|
            #[trigger] bmap_has(final(entries)@, b, x) <==> (bmap_has(old(entries)@, b, x) && !(b
                == key as int && x == id@)),
{
    let ghost orig = entries@;
    let n = entries.len();
    let mut idx: usize = 0;
    let mut found = false;
    while idx < n && !found
        invariant
            entries@ == orig,
            n == orig.len(),
            idx <= n,
            !found ==> forall|j: int| 0 <= j < idx ==> (#[trigger] orig[j]).bucket != key,
            found ==> idx < n && orig[idx as int].bucket == key,
        decreases n - idx + (if found { 0int } else { 1int }),
    {
        if entries[idx].bucket == key {
            found = true;
        } else {
            idx = idx + 1;
        }
    }
    if !found {
        proof {
            assert forall|b: int, x: Seq<char>| #[trigger]
                bmap_has(entries@, b, x) <==> (bmap_has(orig, b, x) && !(b == key as int && x
                    == id@)) by {
                if bmap_has(orig, b, x) && b == key as int {
                    let i = choose|i: int|
                        0 <= i < orig.len() && (#[trigger] orig[i]).bucket == b && strs_contain(
                            orig[i].ids@,
                            x,
                        );
                    assert(false);
                }
            }
        }
        return ;
    }
    let mut entry = entries.remove(idx);
    let ghost entry0 = entry;
    let ghost removed = orig.remove(idx as int);
    let m = entry.ids.len();
    let mut j: usize = 0;
    let mut present = false;
    while j < m && !present
        invariant
            entry == entry0,
            m == entry0.ids@.len(),
            j <= m,
            !present ==> forall|t: int| 0 <= t < j ==> (#[trigger] entry0.ids@[t])@ != id@,
            present ==> j < m && entry0.ids@[j as int]@ == id@,
        decreases m - j + (if present { 0int } else { 1int }),
    {
        if string_eq(&entry.ids[j], id) {
            present = true;
        } else {
            j = j + 1;
        }
    }
    if present {
        entry.ids.remove(j);
    }
    if entry.ids.len() > 0 {
        entries.insert(idx, entry);
    }
    proof {
        let fin = entries@;
        assert forall|b: int, x: Seq<char>| #[trigger]
            bmap_has(fin, b, x) <==> (bmap_has(orig, b, x) && !(b == key as int && x == id@)) by {
            if entry.ids@.len() > 0 {
                assert(fin =~= orig.update(idx as int, entry));
                if bmap_has(fin, b, x) {
                    let i = choose|i: int|
                        0 <= i < fin.len() && (#[trigger] fin[i]).bucket == b && strs_contain(
                            fin[i].ids@,
                            x,
                        );
                    if i != idx {
                        assert(orig[i].bucket == b && strs_contain(orig[i].ids@, x));
                        assert(bmap_has(orig, b, x));
                        if b == key as int {
                            assert(orig[i].bucket == orig[idx as int].bucket);
                            assert(false);
                        }
                    } else {
                        let t = choose|t: int|
                            0 <= t < fin[i].ids@.len() && (#[trigger] fin[i].ids@[t])@ == x;
                        if present {
                            let t0 = if t < j {
                                t
                            } else {
                                t + 1
                            };
                            assert(entry0.ids@[t0]@ == x);
                            assert(strs_contain(entry0.ids@, x));
                            assert(bmap_has(orig, b, x));
                            if x == id@ {
                                assert(t0 != j);
                                assert(entry0.ids@[t0]@ == entry0.ids@[j as int]@);
                                assert(false);
                            }
                        } else {
                            assert(strs_contain(entry0.ids@, x));
                            assert(bmap_has(orig, b, x));
                            if x == id@ {
                                let t1 = choose|t1: int|
                                    0 <= t1 < entry0.ids@.len() && (#[trigger] entry0.ids@[t1])@
                                        == id@;
                                assert(false);
                            }
                        }
                    }
                }
                if bmap_has(orig, b, x) && !(b == key as int && x == id@) {
                    let i = choose|i: int|
                        0 <= i < orig.len() && (#[trigger] orig[i]).bucket == b && strs_contain(
                            orig[i].ids@,
                            x,
                        );
                    if i != idx {
                        assert(fin[i].bucket == b && strs_contain(fin[i].ids@, x));
                    } else {
                        let t = choose|t: int|
                            0 <= t < orig[i].ids@.len() && (#[trigger] orig[i].ids@[t])@ == x;
                        if present {
                            assert(x != id@);
                            assert(t != j);
                            let t2 = if t < j {
                                t
                            } else {
                                t - 1
                            };
                            assert(fin[idx as int].ids@[t2]@ == x);
                            assert(strs_contain(fin[idx as int].ids@, x));
                        } else {
                            assert(fin[idx as int].ids@[t]@ == x);
                            assert(strs_contain(fin[idx as int].ids@, x));
                        }
                    }
                }
            } else {
                assert(fin =~= removed);
                assert(present);
                assert(entry0.ids@.len() == 1);
                if bmap_has(fin, b, x) {
                    let i = choose|i: int|
                        0 <= i < fin.len() && (#[trigger] fin[i]).bucket == b && strs_contain(
                            fin[i].ids@,
                            x,
                        );
                    let i0 = if i < idx {
                        i
                    } else {
                        i + 1
                    };
                    assert(orig[i0].bucket == b && strs_contain(orig[i0].ids@, x));
                    assert(bmap_has(orig, b, x));
                    if b == key as int {
                        assert(i0 != idx);
                        assert(orig[i0].bucket == orig[idx as int].bucket);
                        assert(false);
                    }
                }
                if bmap_has(orig, b, x) && !(b == key as int && x == id@) {
                    let i = choose|i: int|
                        0 <= i < orig.len() && (#[trigger] orig[i]).bucket == b && strs_contain(
                            orig[i].ids@,
                            x,
                        );
                    if i == idx {
                        let t = choose|t: int|
                            0 <= t < orig[i].ids@.len() && (#[trigger] orig[i].ids@[t])@ == x;
                        assert(t == 0);
                        assert(x == id@);
                        assert(false);
                    } else {
                        let i2 = if i < idx {
                            i
                        } else {
                            i - 1
                        };
                        assert(fin[i2].bucket == b && strs_contain(fin[i2].ids@, x));
                    }
                }
            }
        }
        assert(bentries_wf(fin)) by {
            if entry.ids@.len() > 0 {
                assert(fin =~= orig.update(idx as int, entry));
                assert forall|a: int, b: int| 0 <= a < b < fin.len() implies (
                #[trigger] fin[a]).bucket < (#[trigger] fin[b]).bucket by {
                    assert(orig[a].bucket < orig[b].bucket);
                }
                assert forall|i: int| 0 <= i < fin.len() implies ids_distinct(
                    (#[trigger] fin[i]).ids@,
                ) by {
                    assert(ids_distinct(orig[i].ids@));
                    if i == idx && present {
                        assert forall|a: int, b: int|
                            0 <= a < b < fin[i].ids@.len() implies (#[trigger] fin[i].ids@[a])@
                            != (#[trigger] fin[i].ids@[b])@ by {
                            let a0 = if a < j {
                                a
                            } else {
                                a + 1
                            };
                            let b0 = if b < j {
                                b
                            } else {
                                b + 1
                            };
                            assert(fin[i].ids@[a]@ == entry0.ids@[a0]@);
                            assert(fin[i].ids@[b]@ == entry0.ids@[b0]@);
                        }
                    }
                }
            } else {
                assert(fin =~= removed);
                assert forall|a: int, b: int| 0 <= a < b < fin.len() implies (
                #[trigger] fin[a]).bucket < (#[trigger] fin[b]).bucket by {
                    let a0 = if a < idx {
                        a
                    } else {
                        a + 1
                    };
                    let b0 = if b < idx {
                        b
                    } else {
                        b + 1
                    };
                    assert(orig[a0].bucket < orig[b0].bucket);
                    assert(fin[a].bucket == orig[a0].bucket && fin[b].bucket == orig[b0].bucket);
                }
                assert forall|i: int| 0 <= i < fin.len() implies ids_distinct(
                    (#[trigger] fin[i]).ids@,
                ) && (#[trigger] fin[i]).ids@.len() > 0 by {
                    let i0 = if i < idx {
                        i
                    } else {
                        i + 1
                    };
                    assert(fin[i] == orig[i0]);
                    assert(ids_distinct(orig[i0].ids@));
                    assert(orig[i0].ids@.len() > 0);
                }
            }
        }
    }
}

} // verus!
