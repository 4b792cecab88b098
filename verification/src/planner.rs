//! The query planner's value-level machinery: the result order, the
//! sorted enumeration of matching flows, pagination, and candidate
//! set operations.

use vstd::prelude::*;

use crate::flow::Flow;
use crate::idmap::{ids_distinct, strs_contain};
use crate::query::{spec_query_matches, QueryBuilder};
use crate::strutil::{lex_lt, str_lt, string_eq, strs_view};

verus! {

/// The sort key of a flow: its start time and its identifier.
pub open spec fn pair_of(f: Flow) -> (i64, Seq<char>) {
    (f.start_time, f.flow_id@)
}

/// The result order: later start times first, ties broken by
/// identifier in ascending lexicographic order.
pub open spec fn pair_before(a: (i64, Seq<char>), b: (i64, Seq<char>)) -> bool {
    a.0 > b.0 || (a.0 == b.0 && lex_lt(a.1, b.1))
}

/// Insert a pair in front of the first entry it precedes.
pub open spec fn insert_pair_sorted(p: (i64, Seq<char>), s: Seq<(i64, Seq<char>)>) -> Seq<
    (i64, Seq<char>),
>
    decreases s.len(),
{
    if s.len() == 0 {
        seq![p]
    } else if pair_before(p, s[0]) {
        seq![p] + s
    } else {
        seq![s[0]] + insert_pair_sorted(p, s.drop_first())
    }
}

/// Sort pairs into the result order by repeated insertion.
pub open spec fn sort_pairs(s: Seq<(i64, Seq<char>)>) -> Seq<(i64, Seq<char>)>
    decreases s.len(),
{
    if s.len() == 0 {
        s
    } else {
        insert_pair_sorted(s.last(), sort_pairs(s.drop_last()))
    }
}

/// The sort keys of the flows that match the query, in store order.
pub open spec fn spec_matching_pairs(flows: Seq<Flow>, q: QueryBuilder, now: int) -> Seq<
    (i64, Seq<char>),
> {
    flows.filter(|f: Flow| spec_query_matches(q, f, now)).map_values(|f: Flow| pair_of(f))
}

/// The identifiers of the matching flows, in the result order.
pub open spec fn spec_query_ids(flows: Seq<Flow>, q: QueryBuilder, now: int) -> Seq<Seq<char>> {
    sort_pairs(spec_matching_pairs(flows, q, now)).map_values(|p: (i64, Seq<char>)| p.1)
}

/// `skip` then `limit` applied to a result sequence.
pub open spec fn spec_page(
    ids: Seq<Seq<char>>,
    skip: Option<usize>,
    limit: Option<usize>,
) -> Seq<Seq<char>> {
    let sk = match skip {
        Some(s) => s as int,
        None => 0int,
    };
    let start = if sk > ids.len() {
        ids.len() as int
    } else {
        sk
    };
    let end = match limit {
        Some(l) => if start + l > ids.len() {
            ids.len() as int
        } else {
            start + l
        },
        None => ids.len() as int,
    };
    ids.subrange(start, end)
}

/// Inserting in front of the first entry the pair precedes realizes
/// the sorted insertion.
proof fn lemma_insert_pair_at(p: (i64, Seq<char>), s: Seq<(i64, Seq<char>)>, pos: int)
    requires
        0 <= pos <= s.len(),
        forall|t: int| 0 <= t < pos ==> !pair_before(p, #[trigger] s[t]),
        pos < s.len() ==> pair_before(p, s[pos]),
    ensures
        insert_pair_sorted(p, s) == s.insert(pos, p),
    decreases s.len(),
{
    if s.len() == 0 {
        assert(insert_pair_sorted(p, s) =~= s.insert(0, p));
    } else if pos == 0 {
        assert(pair_before(p, s[0]));
        assert(insert_pair_sorted(p, s) =~= s.insert(0, p));
    } else {
        assert(!pair_before(p, s[0]));
        let rest = s.drop_first();
        assert forall|t: int| 0 <= t < pos - 1 implies !pair_before(p, #[trigger] rest[t]) by {
            assert(rest[t] == s[t + 1]);
        }
        assert(pos - 1 < rest.len() ==> pair_before(p, rest[pos - 1]));
        lemma_insert_pair_at(p, rest, pos - 1);
        assert(insert_pair_sorted(p, s) == seq![s[0]] + rest.insert(pos - 1, p));
        assert(seq![s[0]] + rest.insert(pos - 1, p) =~= s.insert(pos, p));
    }
}

/// The view of an executable sort-key pair.
pub open spec fn exec_pair_view(p: (i64, String)) -> (i64, Seq<char>) {
    (p.0, p.1@)
}

/// Whether `a` comes before `b` in the result order.
pub(crate) fn pair_before_exec(a: &(i64, String), b: &(i64, String)) -> (r: bool)
    ensures
        r == pair_before(exec_pair_view(*a), exec_pair_view(*b)),
{
    if a.0 > b.0 {
        true
    } else if a.0 == b.0 {
        str_lt(a.1.as_str(), b.1.as_str())
    } else {
        false
    }
}

/// Sort survivor pairs into the result order by insertion.
pub(crate) fn sort_survivors(src: Vec<(i64, String)>) -> (r: Vec<(i64, String)>)
    ensures
        r@.map_values(|p: (i64, String)| exec_pair_view(p)) == sort_pairs(
            src@.map_values(|p: (i64, String)| exec_pair_view(p)),
        ),
{
    let ghost sv = src@.map_values(|p: (i64, String)| exec_pair_view(p));
    let mut out: Vec<(i64, String)> = Vec::new();
    let n = src.len();
    let mut i: usize = 0;
    while i < n
        invariant
            n == src@.len(),
            sv == src@.map_values(|p: (i64, String)| exec_pair_view(p)),
            i <= n,
            out@.map_values(|p: (i64, String)| exec_pair_view(p)) == sort_pairs(
                sv.take(i as int),
            ),
        decreases n - i,
    {
        let ghost outv = out@.map_values(|p: (i64, String)| exec_pair_view(p));
        let p = (src[i].0, src[i].1.clone());
        proof {
            assert(exec_pair_view(p) == sv[i as int]);
        }
        let m = out.len();
        let mut pos: usize = 0;
        while pos < m && !pair_before_exec(&p, &out[pos])
            invariant
                m == out@.len(),
                pos <= m,
                outv == out@.map_values(|q2: (i64, String)| exec_pair_view(q2)),
                exec_pair_view(p) == sv[i as int],
                forall|t: int| 0 <= t < pos ==> !pair_before(exec_pair_view(p), #[trigger] outv[t]),
            decreases m - pos,
        {
            proof {
                assert(outv[pos as int] == exec_pair_view(out@[pos as int]));
            }
            pos = pos + 1;
        }
        proof {
            if pos < m {
                assert(pair_before(exec_pair_view(p), outv[pos as int]));
            }
            lemma_insert_pair_at(exec_pair_view(p), outv, pos as int);
        }
        out.insert(pos, p);
        i = i + 1;
        proof {
            assert(sv.take(i as int).drop_last() =~= sv.take(i - 1));
            assert(sv.take(i as int).last() == sv[i - 1]);
            assert(out@.map_values(|q2: (i64, String)| exec_pair_view(q2)) =~= outv.insert(
                pos as int,
                sv[i - 1],
            ));
        }
    }
    proof {
        assert(sv.take(n as int) =~= sv);
    }
    out
}

/// The identifiers of `a` that also occur in `b`.
pub(crate) fn intersect_ids(a: Vec<String>, b: &Vec<String>) -> (r: Vec<String>)
    requires
        ids_distinct(a@),
    ensures
        ids_distinct(r@),
        forall|x: Seq<char>|
            #[trigger] strs_contain(r@, x) <==> (strs_contain(a@, x) && strs_contain(b@, x)),
{
    let mut r: Vec<String> = Vec::new();
    let n = a.len();
    let mut i: usize = 0;
    while i < n
        invariant
            ids_distinct(a@),
            n == a@.len(),
            i <= n,
            ids_distinct(r@),
            forall|x: Seq<char>|
                #[trigger] strs_contain(r@, x) <==> ((exists|t: int|
                    0 <= t < i && (#[trigger] a@[t])@ == x) && strs_contain(b@, x)),
        decreases n - i,
    {
        let ghost rpre = r@;
        if contains_string(b, &a[i]) {
            r.push(a[i].clone());
            proof {
                assert forall|u: int, v: int| 0 <= u < v < r@.len() implies (#[trigger] r@[u])@
                    != (#[trigger] r@[v])@ by {
                    if v == r@.len() - 1 {
                        assert(strs_contain(rpre, rpre[u]@));
                        assert(r@[v]@ == a@[i as int]@);
                        if r@[u]@ == r@[v]@ {
                            let t = choose|t: int|
                                0 <= t < i && (#[trigger] a@[t])@ == rpre[u]@;
                            assert(a@[t]@ == a@[i as int]@);
                            assert(false);
                        }
                    }
                }
            }
        }
        i = i + 1;
        proof {
            assert forall|x: Seq<char>| #[trigger]
                strs_contain(r@, x) <==> ((exists|t: int| 0 <= t < i && (#[trigger] a@[t])@ == x)
                    && strs_contain(b@, x)) by {
                if strs_contain(r@, x) {
                    let w = choose|w: int| 0 <= w < r@.len() && (#[trigger] r@[w])@ == x;
                    if w < rpre.len() {
                        assert(strs_contain(rpre, x));
                    } else {
                        assert(x == a@[i - 1]@);
                    }
                }
                if (exists|t: int| 0 <= t < i && (#[trigger] a@[t])@ == x) && strs_contain(b@, x) {
                    let t = choose|t: int| 0 <= t < i && (#[trigger] a@[t])@ == x;
                    if t < i - 1 {
                        assert(strs_contain(rpre, x));
                        let w = choose|w: int| 0 <= w < rpre.len() && (#[trigger] rpre[w])@ == x;
                        assert(r@[w]@ == x);
                    } else {
                        assert(strs_contain(b@, a@[i - 1]@));
                        assert(r@.last()@ == x || strs_contain(rpre, x)) by {
                            if !strs_contain(rpre, x) {
                                assert(r@.last()@ == a@[i - 1]@);
                            }
                        }
                        if strs_contain(rpre, x) {
                            let w = choose|w: int|
                                0 <= w < rpre.len() && (#[trigger] rpre[w])@ == x;
                            assert(r@[w]@ == x);
                        }
                    }
                }
            }
        }
    }
    r
}

/// Whether `haystack` holds a string with the characters of `needle`.
pub(crate) fn contains_string(haystack: &Vec<String>, needle: &String) -> (r: bool)
    ensures
        r == strs_contain(haystack@, needle@),
{
    let n = haystack.len();
    let mut i: usize = 0;
    while i < n
        invariant
            n == haystack@.len(),
            i <= n,
            forall|t: int| 0 <= t < i ==> (#[trigger] haystack@[t])@ != needle@,
        decreases n - i,
    {
        if string_eq(&haystack[i], needle) {
            proof {
                assert(haystack@[i as int]@ == needle@);
            }
            return true;
        }
        i = i + 1;
    }
    false
}


/// Sorting preserves the number of pairs.
pub proof fn sort_pairs_len(s: Seq<(i64, Seq<char>)>)
    ensures
        sort_pairs(s).len() == s.len(),
    decreases s.len(),
{
    if s.len() > 0 {
        sort_pairs_len(s.drop_last());
        insert_pair_len(s.last(), sort_pairs(s.drop_last()));
    }
}

pub proof fn insert_pair_len(p: (i64, Seq<char>), s: Seq<(i64, Seq<char>)>)
    ensures
        insert_pair_sorted(p, s).len() == s.len() + 1,
    decreases s.len(),
{
    if s.len() > 0 && !pair_before(p, s[0]) {
        insert_pair_len(p, s.drop_first());
    }
}

} // verus!
