//! Network paths: ordered switch sequences with a cached SHA-256
//! content hash, and the path predicates used by queries.

use vstd::prelude::*;
use vstd::string::StringExecFns;

use sha2::Digest;

use crate::strutil::{clone_strings, spec_join, str_to_owned, string_eq, strs_view};

verus! {

/// The hex digest that SHA-256 assigns to a character string.
pub uninterp spec fn sha256_hex_of(input: Seq<char>) -> Seq<char>;

/// Relies on sha2's SHA-256 digest and its hex rendering: the result
/// depends on the input characters alone.
#[verifier::external_body]
fn sha256_hex(s: &str) -> (r: String)
    ensures
        r@ == sha256_hex_of(s@),
{
    let digest = sha2::Sha256::digest(s.as_bytes());
    format!("{:x}", digest)
}

/// The text fed to SHA-256 for a path: every switch identifier followed
/// by the delimiter `"->"`.
pub open spec fn hash_preimage(switches: Seq<Seq<char>>) -> Seq<char>
    decreases switches.len(),
{
    if switches.len() == 0 {
        Seq::empty()
    } else {
        hash_preimage(switches.drop_last()) + switches.last() + "->"@
    }
}

/// The content hash of a path: the hex SHA-256 digest of its hash text.
pub open spec fn spec_path_hash(switches: Seq<Seq<char>>) -> Seq<char> {
    sha256_hex_of(hash_preimage(switches))
}

/// `sub` occurs in `ss` as a contiguous window of equal length.
pub open spec fn seqs_contains_window(ss: Seq<Seq<char>>, sub: Seq<Seq<char>>) -> bool {
    exists|k: int|
        0 <= k && k + sub.len() <= ss.len() && #[trigger] ss.subrange(k, k + sub.len() as int)
            == sub
}

/// The mathematical value of a path.
pub struct PathView {
    pub switches: Seq<Seq<char>>,
    pub path_hash: Option<Seq<char>>,
}

/// A network path: an ordered sequence of switch identifiers together
/// with a cached content hash used as the exact-path index key.
pub struct NetworkPath {
    /// Ordered sequence of switch identifiers.
    pub switches: Vec<String>,
    /// Cached content hash of the path.
    pub path_hash: Option<String>,
}

impl View for NetworkPath {
    type V = PathView;

    open spec fn view(&self) -> PathView {
        PathView {
            switches: strs_view(self.switches@),
            path_hash: match self.path_hash {
                None => None,
                Some(h) => Some(h@),
            },
        }
    }
}

impl NetworkPath {
    /// The switch identifiers of this path, as character sequences.
    pub open spec fn switches_view(&self) -> Seq<Seq<char>> {
        strs_view(self.switches@)
    }

    /// The cache, when present, holds the hash of the current switches.
    pub open spec fn hash_consistent(&self) -> bool {
        match self.path_hash {
            None => true,
            Some(h) => h@ == spec_path_hash(self.switches_view()),
        }
    }

    /// The hash is cached and holds the hash of the current switches.
    pub open spec fn wf(&self) -> bool {
        self.path_hash is Some && self.hash_consistent()
    }

    /// Create a new network path over `switches`, caching its hash.
    pub fn new(switches: Vec<String>) -> (r: Self)
        ensures
            r.switches == switches,
            r.wf(),
    {
        let mut path = NetworkPath { switches, path_hash: None };
        path.compute_hash();
        path
    }

    /// Create a path from a slice of switch identifiers.
    pub fn from_switches(switches: &[&str]) -> (r: Self)
        ensures
            r.switches_view() == switches@.map_values(|s: &str| s@),
            r.wf(),
    {
        let mut owned: Vec<String> = Vec::new();
        let mut i: usize = 0;
        while i < switches.len()
            invariant
                i <= switches.len(),
                owned@.len() == i,
                forall|j: int| 0 <= j < i ==> #[trigger] owned@[j]@ == switches@[j]@,
            decreases switches.len() - i,
        {
            owned.push(str_to_owned(switches[i]));
            i = i + 1;
        }
        proof {
            assert(strs_view(owned@) =~= switches@.map_values(|s: &str| s@));
        }
        NetworkPath::new(owned)
    }

    /// The number of switches in the path.
    pub fn length(&self) -> (r: usize)
        ensures
            r == self.switches_view().len(),
    {
        self.switches.len()
    }

    /// Whether the path has no switches.
    pub fn is_empty(&self) -> (r: bool)
        ensures
            r == (self.switches_view().len() == 0),
    {
        self.switches.len() == 0
    }

    /// Compute the content hash of the current switches and cache it.
    fn compute_hash(&mut self)
        ensures
            final(self).switches == old(self).switches,
            final(self).path_hash is Some,
            final(self).hash_consistent(),
    {
        let mut text = String::new();
        let mut i: usize = 0;
        while i < self.switches.len()
            invariant
                i <= self.switches.len(),
                text@ == hash_preimage(self.switches_view().subrange(0, i as int)),
                self == old(self),
            decreases self.switches.len() - i,
        {
            text.append(self.switches[i].as_str());
            text.append("->");
            i = i + 1;
            proof {
                let full = self.switches_view();
                assert(full.subrange(0, i as int).drop_last() =~= full.subrange(0, i - 1));
                assert(full.subrange(0, i as int).last() == full[i - 1]);
            }
        }
        proof {
            assert(self.switches_view().subrange(0, self.switches@.len() as int)
                =~= self.switches_view());
        }
        let h = sha256_hex(text.as_str());
        self.path_hash = Some(h);
    }

    /// The content hash of this path, computing it if it is not cached.
    pub fn hash(&self) -> (r: String)
        requires
            self.hash_consistent(),
        ensures
            r@ == spec_path_hash(self.switches_view()),
    {
        match &self.path_hash {
            Some(h) => h.clone(),
            None => {
                let mut copy = NetworkPath {
                    switches: clone_strings(&self.switches),
                    path_hash: None,
                };
                copy.compute_hash();
                match copy.path_hash {
                    Some(h) => h,
                    None => {
                        proof {
                            assert(false);
                        }
                        String::new()
                    },
                }
            },
        }
    }

    /// Whether this path contains `subpath` as a contiguous window of
    /// equal length. An empty `subpath` is contained in every path.
    pub fn contains_subpath(&self, subpath: &[String]) -> (r: bool)
        ensures
            r == (strs_view(subpath@).len() == 0 || seqs_contains_window(
                self.switches_view(),
                strs_view(subpath@),
            )),
    {
        let m = subpath.len();
        let n = self.switches.len();
        if m == 0 {
            return true;
        }
        if m > n {
            return false;
        }
        let ghost ss = self.switches_view();
        let ghost sub = strs_view(subpath@);
        let windows = n - m + 1;
        let mut k: usize = 0;
        while k < windows
            invariant
                0 < m <= n,
                m == sub.len(),
                n == ss.len(),
                m == subpath@.len(),
                n == self.switches@.len(),
                ss == self.switches_view(),
                sub == strs_view(subpath@),
                windows == n - m + 1,
                k <= windows,
                forall|k0: int| 0 <= k0 < k ==> #[trigger] ss.subrange(k0, k0 + sub.len() as int)
                    != sub,
            decreases windows - k,
        {
            let mut i: usize = 0;
            let mut window_eq = true;
            while i < m
                invariant
                    0 < m <= n,
                    m == sub.len(),
                    n == ss.len(),
                    m == subpath@.len(),
                    n == self.switches@.len(),
                    ss == self.switches_view(),
                    sub == strs_view(subpath@),
                    k + m <= n,
                    i <= m,
                    window_eq ==> forall|j: int| 0 <= j < i ==> ss[k + j] == sub[j],
                    !window_eq ==> ss.subrange(k as int, k + sub.len() as int) != sub,
                decreases m - i,
            {
                if !string_eq(&self.switches[k + i], &subpath[i]) {
                    proof {
                        assert(ss.subrange(k as int, k + sub.len() as int)[i as int] == ss[k + i]);
                    }
                    window_eq = false;
                    i = m;
                } else {
                    i = i + 1;
                }
            }
            if window_eq {
                proof {
                    assert(ss.subrange(k as int, k + sub.len() as int) =~= sub);
                }
                return true;
            }
            k = k + 1;
        }
        proof {
            assert forall|k0: int| 0 <= k0 && k0 + sub.len() <= ss.len()
                implies #[trigger] ss.subrange(k0, k0 + sub.len() as int) != sub by {
                assert(k0 < k);
            }
        }
        false
    }

    /// Whether this path starts with the given prefix.
    pub fn starts_with(&self, prefix: &[String]) -> (r: bool)
        ensures
            r == (strs_view(prefix@).len() <= self.switches_view().len()
                && self.switches_view().subrange(0, strs_view(prefix@).len() as int) == strs_view(
                prefix@,
            )),
    {
        let m = prefix.len();
        let n = self.switches.len();
        if m > n {
            return false;
        }
        let ghost ss = self.switches_view();
        let ghost pre = strs_view(prefix@);
        let mut i: usize = 0;
        while i < m
            invariant
                m <= n,
                m == pre.len(),
                n == ss.len(),
                m == prefix@.len(),
                n == self.switches@.len(),
                ss == self.switches_view(),
                pre == strs_view(prefix@),
                i <= m,
                forall|j: int| 0 <= j < i ==> ss[j] == pre[j],
            decreases m - i,
        {
            if !string_eq(&self.switches[i], &prefix[i]) {
                proof {
                    assert(ss.subrange(0, pre.len() as int)[i as int] == ss[i as int]);
                }
                return false;
            }
            i = i + 1;
        }
        proof {
            assert(ss.subrange(0, pre.len() as int) =~= pre);
        }
        true
    }

    /// Whether this path ends with the given suffix.
    pub fn ends_with(&self, suffix: &[String]) -> (r: bool)
        ensures
            r == (strs_view(suffix@).len() <= self.switches_view().len()
                && self.switches_view().subrange(
                self.switches_view().len() - strs_view(suffix@).len(),
                self.switches_view().len() as int,
            ) == strs_view(suffix@)),
    {
        let m = suffix.len();
        let n = self.switches.len();
        if m > n {
            return false;
        }
        let ghost ss = self.switches_view();
        let ghost suf = strs_view(suffix@);
        let base = n - m;
        let mut i: usize = 0;
        while i < m
            invariant
                m <= n,
                m == suf.len(),
                n == ss.len(),
                m == suffix@.len(),
                n == self.switches@.len(),
                ss == self.switches_view(),
                suf == strs_view(suffix@),
                base == n - m,
                i <= m,
                forall|j: int| 0 <= j < i ==> ss[base + j] == suf[j],
            decreases m - i,
        {
            if !string_eq(&self.switches[base + i], &suffix[i]) {
                proof {
                    assert(ss.subrange(ss.len() - suf.len(), ss.len() as int)[i as int] == ss[base
                        + i]);
                }
                return false;
            }
            i = i + 1;
        }
        proof {
            assert(ss.subrange(ss.len() - suf.len(), ss.len() as int) =~= suf);
        }
        true
    }

    /// The sub-path over `[start_index, end_index)`, or `None` when the
    /// range is empty or reaches past the end of the path.
    pub fn subpath(&self, start_index: usize, end_index: usize) -> (r: Option<NetworkPath>)
        ensures
            (start_index >= end_index || end_index > self.switches_view().len()) <==> r is None,
            r matches Some(p) ==> p.switches_view() == self.switches_view().subrange(
                start_index as int,
                end_index as int,
            ) && p.wf(),
    {
        if start_index >= end_index || end_index > self.switches.len() {
            return None;
        }
        let mut slice: Vec<String> = Vec::new();
        let mut j: usize = start_index;
        while j < end_index
            invariant
                start_index <= j <= end_index <= self.switches@.len(),
                slice@.len() == j - start_index,
                forall|t: int|
                    0 <= t < j - start_index ==> #[trigger] slice@[t]@ == self.switches@[start_index
                        + t]@,
            decreases end_index - j,
        {
            slice.push(self.switches[j].clone());
            j = j + 1;
        }
        proof {
            assert(strs_view(slice@) =~= self.switches_view().subrange(
                start_index as int,
                end_index as int,
            ));
        }
        Some(NetworkPath::new(slice))
    }

    /// The first switch in the path, if any.
    pub fn source(&self) -> (r: Option<&String>)
        ensures
            self.switches_view().len() == 0 <==> r is None,
            r matches Some(s) ==> s@ == self.switches_view()[0],
    {
        if self.switches.len() == 0 {
            None
        } else {
            Some(&self.switches[0])
        }
    }

    /// The last switch in the path, if any.
    pub fn destination(&self) -> (r: Option<&String>)
        ensures
            self.switches_view().len() == 0 <==> r is None,
            r matches Some(s) ==> s@ == self.switches_view().last(),
    {
        if self.switches.len() == 0 {
            None
        } else {
            Some(&self.switches[self.switches.len() - 1])
        }
    }

    /// The path rendered as `"s1 -> s2 -> ..."`.
    pub fn display(&self) -> (r: String)
        ensures
            r@ == spec_join(self.switches_view(), " -> "@),
    {
        crate::strutil::join_strs(self.switches.as_slice(), " -> ")
    }
}

impl Clone for NetworkPath {
    fn clone(&self) -> (r: Self)
        ensures
            r@ == self@,
            r.path_hash == self.path_hash,
            r.hash_consistent() == self.hash_consistent(),
            r.wf() == self.wf(),
    {
        let hash = match &self.path_hash {
            None => None,
            Some(h) => Some(h.clone()),
        };
        NetworkPath { switches: clone_strings(&self.switches), path_hash: hash }
    }
}

/// Two paths over equal switch sequences always carry equal content
/// hashes: the hash is a function of the switch identifiers alone.
pub proof fn lemma_path_hash_deterministic(a: NetworkPath, b: NetworkPath)
    requires
        a.switches_view() == b.switches_view(),
    ensures
        spec_path_hash(a.switches_view()) == spec_path_hash(b.switches_view()),
{
}

} // verus!
