//! Verified character-level string utilities: equality, prefix,
//! containment and lexicographic comparison, and joining with a
//! separator.

use vstd::prelude::*;
use vstd::string::StrSliceExecFns;
use vstd::string::StringExecFns;

verus! {

/// The views of a sequence of strings.
pub open spec fn strs_view(ss: Seq<String>) -> Seq<Seq<char>> {
    ss.map_values(|s: String| s@)
}

/// `b` is a prefix of `a`.
pub open spec fn spec_starts_with(a: Seq<char>, b: Seq<char>) -> bool {
    b.len() <= a.len() && a.subrange(0, b.len() as int) == b
}

/// `b` occurs in `a` as a contiguous window.
pub open spec fn spec_contains(a: Seq<char>, b: Seq<char>) -> bool {
    exists|k: int|
        0 <= k && k + b.len() <= a.len() && #[trigger] a.subrange(k, k + b.len() as int) == b
}

/// Strict lexicographic order on character sequences, by code point.
/// This is the order in which the standard library compares strings.
pub open spec fn lex_lt(a: Seq<char>, b: Seq<char>) -> bool {
    ||| (a.len() < b.len() && a == b.subrange(0, a.len() as int))
    ||| (exists|i: int|
        0 <= i < a.len() && i < b.len() && #[trigger] a.subrange(0, i) == b.subrange(0, i) && a[i]
            < b[i])
}

/// An owned copy of a string slice.
pub fn str_to_owned(s: &str) -> (r: String)
    ensures
        r@ == s@,
{
    s.to_owned()
}

/// Whether two strings hold the same characters.
pub fn string_eq(a: &String, b: &String) -> (r: bool)
    ensures
        r == (a@ == b@),
{
    a.eq(b)
}

/// Whether two string slices hold the same characters.
pub fn str_eq(a: &str, b: &str) -> (r: bool)
    ensures
        r == (a@ == b@),
{
    let la = a.unicode_len();
    let lb = b.unicode_len();
    if la != lb {
        return false;
    }
    let mut i: usize = 0;
    while i < la
        invariant
            la == a@.len(),
            la == b@.len(),
            i <= la,
            forall|j: int| 0 <= j < i ==> a@[j] == b@[j],
        decreases la - i,
    {
        if a.get_char(i) != b.get_char(i) {
            return false;
        }
        i = i + 1;
    }
    proof {
        assert(a@ =~= b@);
    }
    true
}

/// Whether the string `a` starts with the string `b`.
pub fn str_starts_with(a: &str, b: &str) -> (r: bool)
    ensures
        r == spec_starts_with(a@, b@),
{
    let la = a.unicode_len();
    let lb = b.unicode_len();
    if lb > la {
        return false;
    }
    let mut i: usize = 0;
    while i < lb
        invariant
            lb <= la,
            la == a@.len(),
            lb == b@.len(),
            i <= lb,
            forall|j: int| 0 <= j < i ==> a@[j] == b@[j],
        decreases lb - i,
    {
        if a.get_char(i) != b.get_char(i) {
            proof {
                assert(a@.subrange(0, lb as int) != b@);
            }
            return false;
        }
        i = i + 1;
    }
    proof {
        assert(a@.subrange(0, lb as int) =~= b@);
    }
    true
}

/// Whether the string `a` contains the string `b` as a contiguous window.
pub fn str_contains(a: &str, b: &str) -> (r: bool)
    ensures
        r == spec_contains(a@, b@),
{
    let la = a.unicode_len();
    let lb = b.unicode_len();
    if lb > la {
        proof {
            assert(!spec_contains(a@, b@));
        }
        return false;
    }
    if lb == 0 {
        proof {
            assert(a@.subrange(0, 0 + b@.len() as int) =~= b@);
        }
        return true;
    }
    let n = la - lb + 1;
    let mut k: usize = 0;
    while k < n
        invariant
            0 < lb <= la,
            la == a@.len(),
            lb == b@.len(),
            n == la - lb + 1,
            k <= n,
            forall|k0: int| 0 <= k0 < k ==> #[trigger] a@.subrange(k0, k0 + b@.len() as int) != b@,
        decreases n - k,
    {
        let mut i: usize = 0;
        let mut window_eq = true;
        while i < lb
            invariant
                lb <= la,
                la == a@.len(),
                lb == b@.len(),
                k + lb <= la,
                i <= lb,
                window_eq ==> forall|j: int| 0 <= j < i ==> a@[k + j] == b@[j],
                !window_eq ==> a@.subrange(k as int, k + b@.len() as int) != b@,
            decreases lb - i,
        {
            if a.get_char(k + i) != b.get_char(i) {
                proof {
                    assert(a@.subrange(k as int, k + b@.len() as int)[i as int] == a@[k + i]);
                }
                window_eq = false;
                i = lb;
            } else {
                i = i + 1;
            }
        }
        if window_eq {
            proof {
                assert(a@.subrange(k as int, k + b@.len() as int) =~= b@);
            }
            return true;
        }
        k = k + 1;
    }
    proof {
        assert forall|k0: int| 0 <= k0 && k0 + b@.len() <= a@.len() implies #[trigger] a@.subrange(
            k0,
            k0 + b@.len() as int,
        ) != b@ by {
            assert(k0 < k);
        }
    }
    false
}

/// Whether `a` comes strictly before `b` in lexicographic order.
pub fn str_lt(a: &str, b: &str) -> (r: bool)
    ensures
        r == lex_lt(a@, b@),
{
    let la = a.unicode_len();
    let lb = b.unicode_len();
    let min = if la < lb {
        la
    } else {
        lb
    };
    let mut i: usize = 0;
    while i < min
        invariant
            la == a@.len(),
            lb == b@.len(),
            min == if la < lb {
                la
            } else {
                lb
            },
            i <= min,
            forall|j: int| 0 <= j < i ==> a@[j] == b@[j],
        decreases min - i,
    {
        let ca = a.get_char(i);
        let cb = b.get_char(i);
        if ca != cb {
            proof {
                assert(a@.subrange(0, i as int) =~= b@.subrange(0, i as int));
                if !(ca < cb) {
                    assert forall|i0: int|
                        !(0 <= i0 < a@.len() && i0 < b@.len() && a@.subrange(0, i0) == b@.subrange(
                            0,
                            i0,
                        ) && a@[i0] < b@[i0]) by {
                        if 0 <= i0 < a@.len() && i0 < b@.len() && a@.subrange(0, i0)
                            == b@.subrange(0, i0) {
                            if i0 < i {
                                assert(a@[i0] == b@[i0]);
                            } else if i0 == i {
                                assert(!(a@[i0] < b@[i0]));
                            } else {
                                assert(a@.subrange(0, i0)[i as int] == b@.subrange(0, i0)[i as int]);
                                assert(false);
                            }
                        }
                    }
                    assert(!(a@.len() < b@.len() && a@ == b@.subrange(0, a@.len() as int))) by {
                        if a@.len() < b@.len() && a@ == b@.subrange(0, a@.len() as int) {
                            assert(a@[i as int] == b@.subrange(0, a@.len() as int)[i as int]);
                        }
                    }
                }
            }
            return ca < cb;
        }
        i = i + 1;
    }
    proof {
        assert(a@.subrange(0, min as int) =~= b@.subrange(0, min as int));
        if la < lb {
            assert(a@ =~= b@.subrange(0, a@.len() as int));
        } else {
            assert forall|i0: int|
                !(0 <= i0 < a@.len() && i0 < b@.len() && a@.subrange(0, i0) == b@.subrange(0, i0)
                    && a@[i0] < b@[i0]) by {
                if 0 <= i0 < a@.len() && i0 < b@.len() {
                    assert(i0 < min);
                    assert(a@[i0] == b@[i0]);
                }
            }
            if a@.len() < b@.len() {
                assert(false);
            }
        }
    }
    la < lb
}

/// The concatenation `ss[0] + sep + ss[1] + sep + ... + ss[n-1]`
/// (no trailing separator; empty for an empty sequence).
pub open spec fn spec_join(ss: Seq<Seq<char>>, sep: Seq<char>) -> Seq<char>
    decreases ss.len(),
{
    if ss.len() == 0 {
        Seq::empty()
    } else if ss.len() == 1 {
        ss[0]
    } else {
        spec_join(ss.drop_last(), sep) + sep + ss.last()
    }
}

/// Join the strings of `ss` with the separator `sep`.
pub fn join_strs(ss: &[String], sep: &str) -> (r: String)
    ensures
        r@ == spec_join(strs_view(ss@), sep@),
{
    let mut r = String::new();
    let mut i: usize = 0;
    while i < ss.len()
        invariant
            i <= ss.len(),
            r@ == spec_join(strs_view(ss@).subrange(0, i as int), sep@),
        decreases ss.len() - i,
    {
        if i > 0 {
            r.append(sep);
        }
        r.append(ss[i].as_str());
        i = i + 1;
        proof {
            let full = strs_view(ss@);
            assert(full.subrange(0, i as int).drop_last() =~= full.subrange(0, i - 1));
            assert(full.subrange(0, i as int).last() == full[i - 1]);
        }
    }
    proof {
        assert(strs_view(ss@).subrange(0, ss@.len() as int) =~= strs_view(ss@));
    }
    r
}

/// Copy a vector of strings, preserving every element's characters.
pub fn clone_strings(v: &Vec<String>) -> (r: Vec<String>)
    ensures
        r@ == v@,
{
    let mut r: Vec<String> = Vec::new();
    let mut i: usize = 0;
    while i < v.len()
        invariant
            i <= v.len(),
            r@ == v@.subrange(0, i as int),
        decreases v.len() - i,
    {
        r.push(v[i].clone());
        i = i + 1;
        proof {
            assert(r@ =~= v@.subrange(0, i as int));
        }
    }
    proof {
        assert(r@ =~= v@);
    }
    r
}


/// Joining a concatenation of non-empty sequences splits around the
/// separator.
pub proof fn lemma_spec_join_concat(a: Seq<Seq<char>>, b: Seq<Seq<char>>, sep: Seq<char>)
    requires
        a.len() > 0,
        b.len() > 0,
    ensures
        spec_join(a + b, sep) == spec_join(a, sep) + sep + spec_join(b, sep),
    decreases b.len(),
{
    if b.len() == 1 {
        assert((a + b).drop_last() =~= a);
        assert((a + b).last() == b[0]);
    } else {
        lemma_spec_join_concat(a, b.drop_last(), sep);
        assert((a + b).drop_last() =~= a + b.drop_last());
        assert((a + b).last() == b.last());
        assert(spec_join(a, sep) + sep + spec_join(b.drop_last(), sep) + sep + b.last()
            =~= spec_join(a, sep) + sep + (spec_join(b.drop_last(), sep) + sep + b.last()));
    }
}

/// A window of a switch sequence appears, joined, inside the joined
/// prefix that ends where the window ends.
pub proof fn lemma_window_join_contains(sv: Seq<Seq<char>>, e: int, m: int, sep: Seq<char>)
    requires
        0 < m <= e <= sv.len(),
    ensures
        spec_contains(spec_join(sv.take(e), sep), spec_join(sv.subrange(e - m, e), sep)),
{
    let key = spec_join(sv.take(e), sep);
    let needle = spec_join(sv.subrange(e - m, e), sep);
    if e == m {
        assert(sv.take(e) =~= sv.subrange(e - m, e));
        assert(key.subrange(0, 0 + needle.len() as int) =~= needle);
    } else {
        assert(sv.take(e) =~= sv.take(e - m) + sv.subrange(e - m, e));
        lemma_spec_join_concat(sv.take(e - m), sv.subrange(e - m, e), sep);
        let off = spec_join(sv.take(e - m), sep).len() + sep.len();
        assert(key.subrange(off as int, off + needle.len() as int) =~= needle);
        assert(0 <= off && off + needle.len() <= key.len());
    }
}

} // verus!
