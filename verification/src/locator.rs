//! Repository locator: classifies a package's free-text repository URL and
//! extracts the owner and repository-name segments, defined as the last two
//! `/`-delimited path components of the URL.

use vstd::prelude::*;
use vstd::string::*;

verus! {

/// A crawled package: its declared repository URL, the depth at which the
/// crawl processed it, and the funding links attached after resolution.
#[derive(Clone, Debug)]
pub struct CrateInfo {
    pub repository: Option<String>,
    pub depth: usize,
    pub funding_links: Vec<String>,
}

/// `sub` occurs as a contiguous run of characters inside `s`.
pub open spec fn contains_seq(s: Seq<char>, sub: Seq<char>) -> bool {
    exists|i: int| 0 <= i && i + sub.len() <= s.len() && #[trigger] s.subrange(i, i + sub.len())
        == sub
}

/// `c` occurs somewhere in `s`.
pub open spec fn contains_char(s: Seq<char>, c: char) -> bool {
    exists|i: int| 0 <= i < s.len() && s[i] == c
}

/// The suffix of `s` after the last occurrence of `c`; all of `s` when `c`
/// does not occur.
pub open spec fn tail_after(s: Seq<char>, c: char) -> Seq<char>
    decreases s.len(),
{
    if s.len() == 0 {
        s
    } else if s.last() == c {
        Seq::empty()
    } else {
        tail_after(s.drop_last(), c).push(s.last())
    }
}

/// The prefix of `s` strictly before the last occurrence of `c`; empty when
/// `c` does not occur (only meaningful when it does).
pub open spec fn head_before(s: Seq<char>, c: char) -> Seq<char>
    decreases s.len(),
{
    if s.len() == 0 {
        s
    } else if s.last() == c {
        s.drop_last()
    } else {
        head_before(s.drop_last(), c)
    }
}

proof fn lemma_tail_after_absent(s: Seq<char>, c: char)
    requires
        forall|k: int| 0 <= k < s.len() ==> s[k] != c,
    ensures
        tail_after(s, c) == s,
    decreases s.len(),
{
    if s.len() > 0 {
        lemma_tail_after_absent(s.drop_last(), c);
        assert(tail_after(s, c) =~= s);
    }
}

proof fn lemma_tail_after_at(s: Seq<char>, c: char, j: int)
    requires
        0 <= j < s.len(),
        s[j] == c,
        forall|k: int| j < k < s.len() ==> s[k] != c,
    ensures
        tail_after(s, c) == s.subrange(j + 1, s.len() as int),
    decreases s.len(),
{
    if j == s.len() - 1 {
        assert(tail_after(s, c) =~= s.subrange(j + 1, s.len() as int));
    } else {
        lemma_tail_after_at(s.drop_last(), c, j);
        assert(tail_after(s, c) =~= s.subrange(j + 1, s.len() as int));
    }
}

proof fn lemma_head_before_at(s: Seq<char>, c: char, j: int)
    requires
        0 <= j < s.len(),
        s[j] == c,
        forall|k: int| j < k < s.len() ==> s[k] != c,
    ensures
        head_before(s, c) == s.subrange(0, j),
    decreases s.len(),
{
    if j == s.len() - 1 {
        assert(head_before(s, c) =~= s.subrange(0, j));
    } else {
        lemma_head_before_at(s.drop_last(), c, j);
        assert(head_before(s, c) =~= s.subrange(0, j));
    }
}

/// Character-for-character equality of two string slices.
pub fn str_eq(a: &str, b: &str) -> (r: bool)
    ensures
        r == (a@ == b@),
{
    let alen = a.unicode_len();
    let blen = b.unicode_len();
    if alen != blen {
        return false;
    }
    let mut i: usize = 0;
    while i < alen
        invariant
            alen == a@.len(),
            alen == b@.len(),
            i <= alen,
            forall|j: int| 0 <= j < i ==> a@[j] == b@[j],
        decreases alen - i,
    {
        if a.get_char(i) != b.get_char(i) {
            return false;
        }
        i = i + 1;
    }
    proof {
        assert(a@ =~= b@);
    }
    true
}

/// The characters of `s` starting at `i` match `sub` exactly.
fn match_at(s: &str, sub: &str, i: usize) -> (r: bool)
    requires
        i + sub@.len() <= s@.len(),
        s@.len() <= usize::MAX,
    ensures
        r == (s@.subrange(i as int, i + sub@.len()) == sub@),
{
    let m = sub.unicode_len();
    let mut j: usize = 0;
    while j < m
        invariant
            m == sub@.len(),
            i + m <= s@.len(),
            s@.len() <= usize::MAX,
            j <= m,
            forall|u: int| 0 <= u < j ==> s@[i + u] == sub@[u],
        decreases m - j,
    {
        if s.get_char(i + j) != sub.get_char(j) {
            proof {
                assert(s@.subrange(i as int, i + sub@.len())[j as int] == s@[i + j]);
            }
            return false;
        }
        j = j + 1;
    }
    proof {
        assert(s@.subrange(i as int, i + sub@.len()) =~= sub@);
    }
    true
}

/// Whether `sub` occurs as a substring of `s`.
pub fn contains_substr(s: &str, sub: &str) -> (r: bool)
    ensures
        r == contains_seq(s@, sub@),
{
    let n = s.unicode_len();
    let m = sub.unicode_len();
    if m > n {
        return false;
    }
    if m == 0 {
        proof {
            assert(s@.subrange(0, 0 + sub@.len() as int) =~= sub@);
            assert(contains_seq(s@, sub@));
        }
        return true;
    }
    let mut i: usize = 0;
    while i <= n - m
        invariant
            n == s@.len(),
            m == sub@.len(),
            0 < m <= n,
            i <= n - m + 1,
            forall|t: int| 0 <= t < i ==> #[trigger] s@.subrange(t, t + sub@.len()) != sub@,
        decreases n - i,
    {
        if match_at(s, sub, i) {
            return true;
        }
        i = i + 1;
    }
    false
}

/// Index of the last occurrence of `c` in `s`, when there is one.
fn last_char_index(s: &str, c: char) -> (r: Option<usize>)
    ensures
        match r {
            Some(j) => j < s@.len() && s@[j as int] == c && (forall|k: int|
                j < k < s@.len() ==> s@[k] != c),
            None => forall|k: int| 0 <= k < s@.len() ==> s@[k] != c,
        },
{
    let n = s.unicode_len();
    let mut i: usize = n;
    while i > 0
        invariant
            i <= n,
            n == s@.len(),
            forall|k: int| i <= k < n ==> s@[k] != c,
        decreases i,
    {
        i = i - 1;
        if s.get_char(i) == c {
            return Some(i);
        }
    }
    None
}

impl CrateInfo {
    /// The package's repository is hosted on GitHub: a URL is present and it
    /// contains the platform's domain as a substring.
    pub open spec fn spec_is_github(self) -> bool {
        match self.repository {
            Some(repo) => contains_seq(repo@, "github.com"@),
            None => false,
        }
    }

    /// Whether the declared repository URL points at GitHub.
    pub fn is_github(&self) -> (r: bool)
        ensures
            r == self.spec_is_github(),
    {
        match self.repository.as_ref() {
            Some(s) => contains_substr(s.as_str(), "github.com"),
            None => false,
        }
    }

    /// The repository-name segment: everything after the last `/` of the
    /// URL, or the whole URL when it has no `/`.
    pub fn name<'a>(&'a self) -> (r: Option<&'a str>)
        ensures
            r is Some <==> self.repository is Some,
            self.repository matches Some(repo) ==> (r matches Some(nm) && nm@ == tail_after(
                repo@,
                '/',
            )),
    {
        match self.repository.as_ref() {
            None => None,
            Some(s) => {
                let st: &str = s.as_str();
                let n = st.unicode_len();
                match last_char_index(st, '/') {
                    Some(j) => {
                        proof {
                            lemma_tail_after_at(st@, '/', j as int);
                        }
                        Some(st.substring_char(j + 1, n))
                    },
                    None => {
                        proof {
                            lemma_tail_after_absent(st@, '/');
                        }
                        Some(st)
                    },
                }
            },
        }
    }

    /// The owner segment: the second-to-last `/`-delimited component of the
    /// URL; absent when the URL is missing or has no `/` at all.
    pub fn owner<'a>(&'a self) -> (r: Option<&'a str>)
        ensures
            r is Some <==> (self.repository matches Some(repo) && contains_char(repo@, '/')),
            self.repository matches Some(repo) ==> (contains_char(repo@, '/') ==> (
            r matches Some(ow) && ow@ == tail_after(head_before(repo@, '/'), '/'))),
    {
        match self.repository.as_ref() {
            None => None,
            Some(s) => {
                let st: &str = s.as_str();
                match last_char_index(st, '/') {
                    None => None,
                    Some(j) => {
                        proof {
                            lemma_head_before_at(st@, '/', j as int);
                        }
                        let prefix = st.substring_char(0, j);
                        match last_char_index(prefix, '/') {
                            Some(i) => {
                                proof {
                                    lemma_tail_after_at(prefix@, '/', i as int);
                                }
                                Some(prefix.substring_char(i + 1, j))
                            },
                            None => {
                                proof {
                                    lemma_tail_after_absent(prefix@, '/');
                                }
                                Some(prefix)
                            },
                        }
                    },
                }
            },
        }
    }
}

} // verus!
