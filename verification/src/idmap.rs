//! A verified multimap from string keys to sets of flow identifiers,
//! the building block of the path index.

use vstd::prelude::*;

use crate::strutil::{str_eq, str_to_owned, string_eq};

verus! {

/// One key of a multimap together with the flow identifiers filed
/// under it.
pub struct MapEntry {
    pub key: String,
    pub ids: Vec<String>,
}

/// A sequence of strings with pairwise distinct contents.
pub open spec fn ids_distinct(ids: Seq<String>) -> bool {
    forall|a: int, b: int| 0 <= a < b < ids.len() ==> #[trigger] ids[a]@ != #[trigger] ids[b]@
}

/// A sequence of strings holds `x`.
pub open spec fn strs_contain(ss: Seq<String>, x: Seq<char>) -> bool {
    exists|j: int| 0 <= j < ss.len() && #[trigger] ss[j]@ == x
}

/// A well-formed multimap: keys pairwise distinct, every entry
/// non-empty, and the identifiers under a key pairwise distinct.
pub open spec fn entries_wf(entries: Seq<MapEntry>) -> bool {
    &&& forall|i: int, j: int|
        0 <= i < j < entries.len() ==> (#[trigger] entries[i]).key@ != (
        #[trigger] entries[j]).key@
    &&& forall|i: int| 0 <= i < entries.len() ==> (#[trigger] entries[i]).ids@.len() > 0
    &&& forall|i: int| 0 <= i < entries.len() ==> ids_distinct((#[trigger] entries[i]).ids@)
}

/// The multimap files `id` under `key`.
pub open spec fn map_has(entries: Seq<MapEntry>, key: Seq<char>, id: Seq<char>) -> bool {
    exists|i: int|
        0 <= i < entries.len() && (#[trigger] entries[i]).key@ == key && strs_contain(
            entries[i].ids@,
            id,
        )
}

/// File `id` under `key`; filing a pair that is already present leaves
/// the map unchanged.
pub fn map_insert(entries: &mut Vec<MapEntry>, key: &String, id: &String)
    requires
        entries_wf(old(entries)@),
    ensures
        entries_wf(final(entries)@),
        forall|k: Seq<char>, x: Seq<char>|
            #[trigger] map_has(final(entries)@, k, x) <==> (map_has(old(entries)@, k, x) || (k
                == key@ && x == id@)),
{
    let ghost orig = entries@;
    let n = entries.len();
    let mut idx: usize = 0;
    let mut found = false;
    while idx < n && !found
        invariant
            entries@ == orig,
            n == orig.len(),
            idx <= n,
            !found ==> forall|j: int| 0 <= j < idx ==> (#[trigger] orig[j]).key@ != key@,
            found ==> idx < n && orig[idx as int].key@ == key@,
        decreases n - idx + (if found { 0int } else { 1int }),
    {
        if string_eq(&entries[idx].key, key) {
            found = true;
        } else {
            idx = idx + 1;
        }
    }
    if !found {
        let mut ids: Vec<String> = Vec::new();
        ids.push(id.clone());
        entries.push(MapEntry { key: key.clone(), ids });
        proof {
            let fin = entries@;
            assert forall|k: Seq<char>, x: Seq<char>| #[trigger]
                map_has(fin, k, x) <==> (map_has(orig, k, x) || (k == key@ && x == id@)) by {
                if map_has(fin, k, x) {
                    let i = choose|i: int|
                        0 <= i < fin.len() && (#[trigger] fin[i]).key@ == k && strs_contain(
                            fin[i].ids@,
                            x,
                        );
                    if i < orig.len() {
                        assert(map_has(orig, k, x));
                    } else {
                        assert(fin[i].ids@[0]@ == id@);
                        let j = choose|j: int|
                            0 <= j < fin[i].ids@.len() && (#[trigger] fin[i].ids@[j])@ == x;
                        assert(j == 0);
                    }
                }
                if map_has(orig, k, x) {
                    let i = choose|i: int|
                        0 <= i < orig.len() && (#[trigger] orig[i]).key@ == k && strs_contain(
                            orig[i].ids@,
                            x,
                        );
                    assert(fin[i].key@ == k && strs_contain(fin[i].ids@, x));
                }
                if k == key@ && x == id@ {
                    let last = fin.len() - 1;
                    assert(fin[last].key@ == k);
                    assert(fin[last].ids@[0]@ == x);
                    assert(strs_contain(fin[last].ids@, x));
                }
            }
        }
        return ;
    }
    // The key exists; extend its identifier set if the id is new.
    let mut entry = entries.remove(idx);
    let ghost entry0 = entry;
    let m = entry.ids.len();
    let mut j: usize = 0;
    let mut present = false;
    while j < m && !present
        invariant
            entry == entry0,
            m == entry0.ids@.len(),
            j <= m,
            !present ==> forall|t: int| 0 <= t < j ==> (#[trigger] entry0.ids@[t])@ != id@,
            present ==> strs_contain(entry0.ids@, id@),
        decreases m - j + (if present { 0int } else { 1int }),
    {
        if string_eq(&entry.ids[j], id) {
            present = true;
        } else {
            j = j + 1;
        }
    }
    if !present {
        entry.ids.push(id.clone());
    }
    entries.insert(idx, entry);
    proof {
        let fin = entries@;
        assert(fin =~= orig.update(idx as int, entry));
        assert(entries_wf(fin)) by {
            assert forall|a: int, b: int| 0 <= a < b < fin.len() implies (#[trigger] fin[a]).key@
                != (#[trigger] fin[b]).key@ by {
                assert(orig[a].key@ != orig[b].key@);
                assert(fin[a].key@ == orig[a].key@ && fin[b].key@ == orig[b].key@);
            }
            assert forall|i: int| 0 <= i < fin.len() implies ids_distinct(
                (#[trigger] fin[i]).ids@,
            ) by {
                assert(ids_distinct(orig[i].ids@));
                if i == idx && !present {
                    assert forall|a: int, b: int|
                        0 <= a < b < fin[i].ids@.len() implies (#[trigger] fin[i].ids@[a])@ != (
                    #[trigger] fin[i].ids@[b])@ by {
                        if b == fin[i].ids@.len() - 1 {
                            assert(fin[i].ids@[a]@ == entry0.ids@[a]@);
                        }
                    }
                }
            }
        }
        assert forall|k: Seq<char>, x: Seq<char>| #[trigger]
            map_has(fin, k, x) <==> (map_has(orig, k, x) || (k == key@ && x == id@)) by {
            if map_has(fin, k, x) {
                let i = choose|i: int|
                    0 <= i < fin.len() && (#[trigger] fin[i]).key@ == k && strs_contain(
                        fin[i].ids@,
                        x,
                    );
                if i != idx {
                    assert(orig[i].key@ == k && strs_contain(orig[i].ids@, x));
                    assert(map_has(orig, k, x));
                } else {
                    let t = choose|t: int|
                        0 <= t < fin[i].ids@.len() && (#[trigger] fin[i].ids@[t])@ == x;
                    if t < entry0.ids@.len() {
                        assert(strs_contain(orig[idx as int].ids@, x));
                        assert(map_has(orig, k, x));
                    } else {
                        assert(x == id@ && k == key@);
                    }
                }
            }
            if map_has(orig, k, x) {
                let i = choose|i: int|
                    0 <= i < orig.len() && (#[trigger] orig[i]).key@ == k && strs_contain(
                        orig[i].ids@,
                        x,
                    );
                if i != idx {
                    assert(fin[i].key@ == k && strs_contain(fin[i].ids@, x));
                } else {
                    let t = choose|t: int|
                        0 <= t < orig[i].ids@.len() && (#[trigger] orig[i].ids@[t])@ == x;
                    assert(fin[idx as int].ids@[t]@ == x);
                    assert(strs_contain(fin[idx as int].ids@, x));
                }
            }
            if k == key@ && x == id@ {
                if present {
                    assert(strs_contain(entry0.ids@, id@));
                    let t = choose|t: int|
                        0 <= t < entry0.ids@.len() && (#[trigger] entry0.ids@[t])@ == id@;
                    assert(fin[idx as int].ids@[t]@ == id@);
                } else {
                    assert(fin[idx as int].ids@.last()@ == id@);
                }
                assert(strs_contain(fin[idx as int].ids@, x));
                assert(fin[idx as int].key@ == k);
            }
        }
    }
}

/// Remove the pair `(key, id)` from the multimap, purging the key when
/// its identifier set becomes empty. A pair that is absent leaves the
/// map unchanged.
pub fn map_remove(entries: &mut Vec<MapEntry>, key: &String, id: &String)
    requires
        entries_wf(old(entries)@),
    ensures
        entries_wf(final(entries)@),
        forall|k: Seq<char>, x: Seq<char>|
            #[trigger] map_has(final(entries)@, k, x) <==> (map_has(old(entries)@, k, x) && !(k
                == key@ && x == id@)),
{
    let ghost orig = entries@;
    let n = entries.len();
    let mut idx: usize = 0;
    let mut found = false;
    while idx < n && !found
        invariant
            entries@ == orig,
            n == orig.len(),
            idx <= n,
            !found ==> forall|j: int| 0 <= j < idx ==> (#[trigger] orig[j]).key@ != key@,
            found ==> idx < n && orig[idx as int].key@ == key@,
        decreases n - idx + (if found { 0int } else { 1int }),
    {
        if string_eq(&entries[idx].key, key) {
            found = true;
        } else {
            idx = idx + 1;
        }
    }
    if !found {
        proof {
            assert forall|k: Seq<char>, x: Seq<char>| #[trigger]
                map_has(entries@, k, x) <==> (map_has(orig, k, x) && !(k == key@ && x == id@)) by {
                if map_has(orig, k, x) && k == key@ {
                    let i = choose|i: int|
                        0 <= i < orig.len() && (#[trigger] orig[i]).key@ == k && strs_contain(
                            orig[i].ids@,
                            x,
                        );
                    assert(false);
                }
            }
        }
        return ;
    }
    let mut entry = entries.remove(idx);
    let ghost entry0 = entry;
    let ghost removed = orig.remove(idx as int);
    let m = entry.ids.len();
    let mut j: usize = 0;
    let mut present = false;
    while j < m && !present
        invariant
            entry == entry0,
            m == entry0.ids@.len(),
            j <= m,
            !present ==> forall|t: int| 0 <= t < j ==> (#[trigger] entry0.ids@[t])@ != id@,
            present ==> j < m && entry0.ids@[j as int]@ == id@,
        decreases m - j + (if present { 0int } else { 1int }),
    {
        if string_eq(&entry.ids[j], id) {
            present = true;
        } else {
            j = j + 1;
        }
    }
    if present {
        entry.ids.remove(j);
    }
    if entry.ids.len() > 0 {
        entries.insert(idx, entry);
    }
    proof {
        let fin = entries@;
        // Entries other than idx keep their place in order; membership
        // at a key other than `key@` is untouched either way.
        assert forall|k: Seq<char>, x: Seq<char>| #[trigger]
            map_has(fin, k, x) <==> (map_has(orig, k, x) && !(k == key@ && x == id@)) by {
            if entry.ids@.len() > 0 {
                assert(fin =~= orig.update(idx as int, entry));
                if map_has(fin, k, x) {
                    let i = choose|i: int|
                        0 <= i < fin.len() && (#[trigger] fin[i]).key@ == k && strs_contain(
                            fin[i].ids@,
                            x,
                        );
                    if i != idx {
                        assert(orig[i].key@ == k && strs_contain(orig[i].ids@, x));
                        assert(map_has(orig, k, x));
                        if k == key@ {
                            assert(orig[i].key@ == orig[idx as int].key@);
                            assert(false);
                        }
                    } else {
                        let t = choose|t: int|
                            0 <= t < fin[i].ids@.len() && (#[trigger] fin[i].ids@[t])@ == x;
                        if present {
                            let t0 = if t < j {
                                t
                            } else {
                                t + 1
                            };
                            assert(entry0.ids@[t0]@ == x);
                            assert(strs_contain(entry0.ids@, x));
                            assert(map_has(orig, k, x));
                            if x == id@ {
                                assert(t0 != j);
                                assert(entry0.ids@[t0]@ == entry0.ids@[j as int]@);
                                assert(false);
                            }
                        } else {
                            assert(strs_contain(entry0.ids@, x));
                            assert(map_has(orig, k, x));
                            if x == id@ {
                                let t1 = choose|t1: int|
                                    0 <= t1 < entry0.ids@.len() && (#[trigger] entry0.ids@[t1])@
                                        == id@;
                                assert(false);
                            }
                        }
                    }
                }
                if map_has(orig, k, x) && !(k == key@ && x == id@) {
                    let i = choose|i: int|
                        0 <= i < orig.len() && (#[trigger] orig[i]).key@ == k && strs_contain(
                            orig[i].ids@,
                            x,
                        );
                    if i != idx {
                        assert(fin[i].key@ == k && strs_contain(fin[i].ids@, x));
                    } else {
                        let t = choose|t: int|
                            0 <= t < orig[i].ids@.len() && (#[trigger] orig[i].ids@[t])@ == x;
                        if present {
                            assert(x != id@);
                            assert(t != j);
                            let t2 = if t < j {
                                t
                            } else {
                                t - 1
                            };
                            assert(fin[idx as int].ids@[t2]@ == x);
                            assert(strs_contain(fin[idx as int].ids@, x));
                        } else {
                            assert(fin[idx as int].ids@[t]@ == x);
                            assert(strs_contain(fin[idx as int].ids@, x));
                        }
                    }
                }
            } else {
                // The whole entry was purged: it held only `id`.
                assert(fin =~= removed);
                assert(present);
                assert(entry0.ids@.len() == 1);
                if map_has(fin, k, x) {
                    let i = choose|i: int|
                        0 <= i < fin.len() && (#[trigger] fin[i]).key@ == k && strs_contain(
                            fin[i].ids@,
                            x,
                        );
                    let i0 = if i < idx {
                        i
                    } else {
                        i + 1
                    };
                    assert(orig[i0].key@ == k && strs_contain(orig[i0].ids@, x));
                    assert(map_has(orig, k, x));
                    if k == key@ {
                        assert(i0 != idx);
                        assert(orig[i0].key@ == orig[idx as int].key@);
                        assert(false);
                    }
                }
                if map_has(orig, k, x) && !(k == key@ && x == id@) {
                    let i = choose|i: int|
                        0 <= i < orig.len() && (#[trigger] orig[i]).key@ == k && strs_contain(
                            orig[i].ids@,
                            x,
                        );
                    if i == idx {
                        let t = choose|t: int|
                            0 <= t < orig[i].ids@.len() && (#[trigger] orig[i].ids@[t])@ == x;
                        assert(t == 0);
                        assert(x == id@);
                        assert(false);
                    } else {
                        let i2 = if i < idx {
                            i
                        } else {
                            i - 1
                        };
                        assert(fin[i2].key@ == k && strs_contain(fin[i2].ids@, x));
                    }
                }
            }
        }
        assert(entries_wf(fin)) by {
            if entry.ids@.len() > 0 {
                assert(fin =~= orig.update(idx as int, entry));
                assert forall|a: int, b: int| 0 <= a < b < fin.len() implies (
                #[trigger] fin[a]).key@ != (#[trigger] fin[b]).key@ by {
                    assert(orig[a].key@ != orig[b].key@);
                }
                assert forall|i: int| 0 <= i < fin.len() implies ids_distinct(
                    (#[trigger] fin[i]).ids@,
                ) by {
                    assert(ids_distinct(orig[i].ids@));
                    if i == idx && present {
                        assert forall|a: int, b: int|
                            0 <= a < b < fin[i].ids@.len() implies (#[trigger] fin[i].ids@[a])@
                            != (#[trigger] fin[i].ids@[b])@ by {
                            let a0 = if a < j {
                                a
                            } else {
                                a + 1
                            };
                            let b0 = if b < j {
                                b
                            } else {
                                b + 1
                            };
                            assert(fin[i].ids@[a]@ == entry0.ids@[a0]@);
                            assert(fin[i].ids@[b]@ == entry0.ids@[b0]@);
                        }
                    }
                }
            } else {
                assert(fin =~= removed);
                assert forall|a: int, b: int| 0 <= a < b < fin.len() implies (
                #[trigger] fin[a]).key@ != (#[trigger] fin[b]).key@ by {
                    let a0 = if a < idx {
                        a
                    } else {
                        a + 1
                    };
                    let b0 = if b < idx {
                        b
                    } else {
                        b + 1
                    };
                    assert(orig[a0].key@ != orig[b0].key@);
                    assert(fin[a].key@ == orig[a0].key@ && fin[b].key@ == orig[b0].key@);
                }
                assert forall|i: int| 0 <= i < fin.len() implies ids_distinct(
                    (#[trigger] fin[i]).ids@,
                ) && (#[trigger] fin[i]).ids@.len() > 0 by {
                    let i0 = if i < idx {
                        i
                    } else {
                        i + 1
                    };
                    assert(fin[i] == orig[i0]);
                    assert(ids_distinct(orig[i0].ids@));
                    assert(orig[i0].ids@.len() > 0);
                }
            }
        }
    }
}

/// The identifiers filed under `key`, or an empty vector when the key
/// is absent.
pub fn map_get(entries: &Vec<MapEntry>, key: &str) -> (r: Vec<String>)
    requires
        entries_wf(entries@),
    ensures
        ids_distinct(r@),
        forall|x: Seq<char>| #[trigger] strs_contain(r@, x) <==> map_has(entries@, key@, x),
{
    let n = entries.len();
    let mut idx: usize = 0;
    while idx < n
        invariant
            entries_wf(entries@),
            n == entries@.len(),
            idx <= n,
            forall|j: int| 0 <= j < idx ==> (#[trigger] entries@[j]).key@ != key@,
        decreases n - idx,
    {
        if str_eq(entries[idx].key.as_str(), key) {
            let r = crate::strutil::clone_strings(&entries[idx].ids);
            proof {
                assert forall|x: Seq<char>| #[trigger]
                    strs_contain(r@, x) <==> map_has(entries@, key@, x) by {
                    if strs_contain(r@, x) {
                        assert(strs_contain(entries@[idx as int].ids@, x));
                        assert(entries@[idx as int].key@ == key@);
                    }
                    if map_has(entries@, key@, x) {
                        let i = choose|i: int|
                            0 <= i < entries@.len() && (#[trigger] entries@[i]).key@ == key@
                                && strs_contain(entries@[i].ids@, x);
                        assert(i == idx);
                    }
                }
            }
            return r;
        }
        idx = idx + 1;
    }
    let r: Vec<String> = Vec::new();
    proof {
        assert forall|x: Seq<char>| #[trigger]
            strs_contain(r@, x) <==> map_has(entries@, key@, x) by {
            if map_has(entries@, key@, x) {
                let i = choose|i: int|
                    0 <= i < entries@.len() && (#[trigger] entries@[i]).key@ == key@
                        && strs_contain(entries@[i].ids@, x);
                assert(false);
            }
        }
    }
    r
}

/// Append to `acc` every identifier of `ids` that it does not hold yet.
pub fn union_ids(acc: &mut Vec<String>, ids: &Vec<String>)
    requires
        ids_distinct(old(acc)@),
    ensures
        ids_distinct(final(acc)@),
        forall|x: Seq<char>|
            #[trigger] strs_contain(final(acc)@, x) <==> (strs_contain(old(acc)@, x)
                || strs_contain(ids@, x)),
{
    let ghost orig = acc@;
    let n = ids.len();
    let mut i: usize = 0;
    while i < n
        invariant
            n == ids@.len(),
            i <= n,
            ids_distinct(acc@),
            forall|x: Seq<char>|
                #[trigger] strs_contain(acc@, x) <==> (strs_contain(orig, x) || (exists|t: int|
                    0 <= t < i && (#[trigger] ids@[t])@ == x)),
        decreases n - i,
    {
        let candidate = &ids[i];
        let m = acc.len();
        let mut j: usize = 0;
        let mut present = false;
        while j < m && !present
            invariant
                m == acc@.len(),
                j <= m,
                !present ==> forall|t: int| 0 <= t < j ==> (#[trigger] acc@[t])@ != candidate@,
                present ==> strs_contain(acc@, candidate@),
            decreases m - j + (if present { 0int } else { 1int }),
        {
            if string_eq(&acc[j], candidate) {
                present = true;
            } else {
                j = j + 1;
            }
        }
        let ghost before = acc@;
        if !present {
            acc.push(candidate.clone());
            proof {
                assert forall|a: int, b: int| 0 <= a < b < acc@.len() implies (
                #[trigger] acc@[a])@ != (#[trigger] acc@[b])@ by {
                    if b == acc@.len() - 1 {
                        assert(acc@[a]@ == before[a]@);
                        assert(acc@[b]@ == candidate@);
                    }
                }
            }
        }
        i = i + 1;
        proof {
            assert forall|x: Seq<char>| #[trigger]
                strs_contain(acc@, x) <==> (strs_contain(orig, x) || (exists|t: int|
                    0 <= t < i && (#[trigger] ids@[t])@ == x)) by {
                if strs_contain(acc@, x) {
                    let j2 = choose|j2: int| 0 <= j2 < acc@.len() && (#[trigger] acc@[j2])@ == x;
                    if j2 < before.len() {
                        assert(strs_contain(before, x));
                    } else {
                        assert(x == candidate@);
                        assert(ids@[i - 1]@ == x);
                    }
                }
                if strs_contain(orig, x) {
                    assert(strs_contain(before, x));
                    if !present || true {
                        let j3 = choose|j3: int|
                            0 <= j3 < before.len() && (#[trigger] before[j3])@ == x;
                        assert(acc@[j3]@ == x);
                    }
                }
                if exists|t: int| 0 <= t < i && (#[trigger] ids@[t])@ == x {
                    let t = choose|t: int| 0 <= t < i && (#[trigger] ids@[t])@ == x;
                    if t < i - 1 {
                        assert(strs_contain(before, x));
                        let j3 = choose|j3: int|
                            0 <= j3 < before.len() && (#[trigger] before[j3])@ == x;
                        assert(acc@[j3]@ == x);
                    } else {
                        assert(x == candidate@);
                        if present {
                            assert(strs_contain(before, x));
                            let j3 = choose|j3: int|
                                0 <= j3 < before.len() && (#[trigger] before[j3])@ == x;
                            assert(acc@[j3]@ == x);
                        } else {
                            assert(acc@.last()@ == x);
                        }
                    }
                }
            }
        }
    }
}

} // verus!
