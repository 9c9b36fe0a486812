//! Depth-bounded dependency crawl.  A `Crawler` holds the pending work queue
//! and the result map (an insertion-ordered list of uniquely named entries).
//! The caller pops a pending package, fetches its metadata outside the
//! library, and reports the outcome back; a failed fetch simply abandons the
//! package.  Children are enqueued at most once over the whole run — never
//! when already resolved or already pending — which bounds the crawl on
//! cyclic and diamond-shaped dependency graphs.  The queue is popped from the
//! end, so siblings are explored in depth-first-ish order.

use vstd::prelude::*;
use crate::locator::{CrateInfo, str_eq};

verus! {

/// One declared dependency of a package, as the registry reports it.
#[derive(Clone, Debug)]
pub struct DependencyInfo {
    pub crate_id: String,
    pub kind: String,
}

/// The names of the dependencies to follow: all of them when development
/// dependencies are included, otherwise only those whose kind is not "dev".
pub open spec fn child_list(deps: Seq<DependencyInfo>, dev: bool) -> Seq<String>
    decreases deps.len(),
{
    if deps.len() == 0 {
        Seq::empty()
    } else {
        let rest = child_list(deps.drop_first(), dev);
        if dev || deps[0].kind@ != "dev"@ {
            seq![deps[0].crate_id] + rest
        } else {
            rest
        }
    }
}

/// Compute the dependency names to follow from a declared dependency list.
pub fn child_names(deps: Vec<DependencyInfo>, dev: bool) -> (r: Vec<String>)
    ensures
        r@ == child_list(deps@, dev),
{
    let mut deps = deps;
    let mut out: Vec<String> = Vec::new();
    let ghost orig = deps@;
    proof {
        assert(out@ + child_list(deps@, dev) =~= child_list(orig, dev));
    }
    while deps.len() > 0
        invariant
            child_list(orig, dev) == out@ + child_list(deps@, dev),
        decreases deps@.len(),
    {
        let d = deps.remove(0);
        let ghost dg = d;
        let ghost prev_out = out@;
        let ghost rest = deps@;
        if dev || !str_eq(d.kind.as_str(), "dev") {
            out.push(d.crate_id);
            proof {
                assert(out@ + child_list(rest, dev) =~= prev_out + (seq![dg.crate_id]
                    + child_list(rest, dev)));
            }
        } else {
            proof {
                assert(out@ + child_list(rest, dev) =~= prev_out + child_list(rest, dev));
            }
        }
    }
    proof {
        assert(out@ + child_list(deps@, dev) =~= out@);
    }
    out
}

/// Some pending entry carries this package name.
pub open spec fn pending_has(p: Seq<(String, usize)>, name: Seq<char>) -> bool {
    exists|i: int| 0 <= i < p.len() && (#[trigger] p[i]).0@ == name
}

/// Some result entry carries this package name.
pub open spec fn crates_has(c: Seq<(String, CrateInfo)>, name: Seq<char>) -> bool {
    exists|i: int| 0 <= i < c.len() && (#[trigger] c[i]).0@ == name
}

/// The first result entry carrying this package name, if any.
pub open spec fn crate_lookup(c: Seq<(String, CrateInfo)>, name: Seq<char>) -> Option<CrateInfo>
    decreases c.len(),
{
    if c.len() == 0 {
        None
    } else if c[0].0@ == name {
        Some(c[0].1)
    } else {
        crate_lookup(c.drop_first(), name)
    }
}

/// One enqueue decision: a child joins the queue only when it is neither
/// already resolved nor already pending.
pub open spec fn enqueue_one(
    p: Seq<(String, usize)>,
    crates: Seq<(String, CrateInfo)>,
    child: String,
    d: usize,
) -> Seq<(String, usize)> {
    if crates_has(crates, child@) || pending_has(p, child@) {
        p
    } else {
        p.push((child, d))
    }
}

/// The queue after offering every child in order.
pub open spec fn enqueue_children(
    p: Seq<(String, usize)>,
    crates: Seq<(String, CrateInfo)>,
    children: Seq<String>,
    d: usize,
) -> Seq<(String, usize)>
    decreases children.len(),
{
    if children.len() == 0 {
        p
    } else {
        enqueue_children(enqueue_one(p, crates, children[0], d), crates, children.drop_first(), d)
    }
}

/// The crawl state: the pending queue, the insertion-ordered result map,
/// and the configured maximum depth.
pub struct Crawler {
    pub pending: Vec<(String, usize)>,
    pub crates: Vec<(String, CrateInfo)>,
    pub max_depth: usize,
}

impl Crawler {
    /// Queue names are unique, result names are unique, the two are
    /// disjoint, and every recorded depth is within the configured bound.
    pub open spec fn wf(self) -> bool {
        &&& forall|i: int, j: int|
            0 <= i < j < self.pending@.len() ==> (#[trigger] self.pending@[i]).0@ != (
            #[trigger] self.pending@[j]).0@
        &&& forall|i: int, j: int|
            0 <= i < j < self.crates@.len() ==> (#[trigger] self.crates@[i]).0@ != (
            #[trigger] self.crates@[j]).0@
        &&& forall|i: int, j: int|
            0 <= i < self.pending@.len() && 0 <= j < self.crates@.len() ==> (
            #[trigger] self.pending@[i]).0@ != (#[trigger] self.crates@[j]).0@
        &&& forall|i: int| 0 <= i < self.pending@.len() ==> (#[trigger] self.pending@[i]).1
            <= self.max_depth
        &&& forall|i: int| 0 <= i < self.crates@.len() ==> (#[trigger] self.crates@[i]).1.depth
            <= self.max_depth
    }

    /// A fresh crawl: the root package alone is pending, at depth zero.
    pub fn new(root: String, max_depth: usize) -> (r: Crawler)
        ensures
            r.wf(),
            r.pending@ == seq![(root, 0usize)],
            r.crates@ == Seq::<(String, CrateInfo)>::empty(),
            r.max_depth == max_depth,
    {
        let ghost root_g = root;
        let mut pending: Vec<(String, usize)> = Vec::new();
        pending.push((root, 0));
        let r = Crawler { pending, crates: Vec::new(), max_depth };
        proof {
            assert(r.pending@ =~= seq![(root_g, 0usize)]);
        }
        r
    }

    /// Take one pending entry, from the end of the queue.
    pub fn pop(&mut self) -> (r: Option<(String, usize)>)
        requires
            old(self).wf(),
        ensures
            final(self).wf(),
            final(self).crates@ == old(self).crates@,
            final(self).max_depth == old(self).max_depth,
            old(self).pending@.len() == 0 ==> r is None && final(self).pending@ == old(
                self,
            ).pending@,
            old(self).pending@.len() > 0 ==> {
                &&& r == Some(old(self).pending@.last())
                &&& final(self).pending@ == old(self).pending@.drop_last()
                &&& !pending_has(final(self).pending@, old(self).pending@.last().0@)
                &&& !crates_has(final(self).crates@, old(self).pending@.last().0@)
                &&& old(self).pending@.last().1 <= old(self).max_depth
            },
    {
        let r = self.pending.pop();
        proof {
            if old(self).pending@.len() > 0 {
                let nm = old(self).pending@.last().0@;
                let k = old(self).pending@.len() - 1;
                assert forall|i: int| 0 <= i < self.pending@.len() implies (
                #[trigger] self.pending@[i]).0@ != nm by {
                    assert(old(self).pending@[i] == self.pending@[i]);
                    assert(old(self).pending@[i].0@ != old(self).pending@[k].0@);
                }
                assert forall|j: int| 0 <= j < self.crates@.len() implies (
                #[trigger] self.crates@[j]).0@ != nm by {
                    assert(old(self).pending@[k].0@ != old(self).crates@[j].0@);
                }
            }
        }
        r
    }

    /// Record a successfully fetched package and offer its children to the
    /// queue.  The package is inserted at the reported depth — overwriting
    /// any earlier entry of the same name, so a revisit records the most
    /// recently processed depth — and each child not already resolved or
    /// pending is enqueued one level deeper, unless the configured maximum
    /// depth has been reached.
    pub fn on_fetch_success(
        &mut self,
        name: String,
        depth: usize,
        repository: Option<String>,
        children: Vec<String>,
    )
        requires
            old(self).wf(),
            !pending_has(old(self).pending@, name@),
            depth <= old(self).max_depth,
        ensures
            final(self).wf(),
            final(self).max_depth == old(self).max_depth,
            crates_has(final(self).crates@, name@),
            exists|n: CrateInfo|
                {
                    &&& n.repository == repository
                    &&& n.depth == depth
                    &&& n.funding_links@ == Seq::<String>::empty()
                    &&& if crates_has(old(self).crates@, name@) {
                        exists|i: int|
                            0 <= i < old(self).crates@.len() && (#[trigger] old(
                                self,
                            ).crates@[i]).0@ == name@ && final(self).crates@ == old(
                                self,
                            ).crates@.update(i, (name, n))
                    } else {
                        final(self).crates@ == old(self).crates@.push((name, n))
                    }
                },
            depth < old(self).max_depth ==> final(self).pending@ == enqueue_children(
                old(self).pending@,
                final(self).crates@,
                children@,
                (depth + 1) as usize,
            ),
            depth >= old(self).max_depth ==> final(self).pending@ == old(self).pending@,
    {
        let ghost name_g = name;
        let node = CrateInfo { repository, depth, funding_links: Vec::new() };
        let ghost node_g = node;
        let idx = find_crate_index(&self.crates, name.as_str());
        if idx < self.crates.len() {
            let _replaced = self.crates.remove(idx);
            self.crates.insert(idx, (name, node));
            proof {
                assert(self.crates@ =~= old(self).crates@.update(idx as int, (name_g, node_g)));
            }
        } else {
            self.crates.push((name, node));
        }
        proof {
            assert(crates_has(self.crates@, name_g@)) by {
                if idx < old(self).crates@.len() {
                    assert(self.crates@[idx as int].0@ == name_g@);
                } else {
                    assert(self.crates@[self.crates@.len() - 1].0@ == name_g@);
                }
            }
            assert(self.wf()) by {
                let oc = old(self).crates@;
                let nc = self.crates@;
                assert forall|i: int, j: int| 0 <= i < j < nc.len() implies (
                #[trigger] nc[i]).0@ != (#[trigger] nc[j]).0@ by {
                    if idx < oc.len() {
                        assert(forall|t: int|
                            0 <= t < nc.len() && t != idx ==> nc[t] == oc[t]);
                    } else {
                        assert(forall|t: int| 0 <= t < oc.len() ==> nc[t] == oc[t]);
                        if j == nc.len() - 1 {
                            assert(!crates_has(oc, name_g@));
                            assert(oc[i] == nc[i]);
                        }
                    }
                }
                assert forall|i: int, j: int|
                    0 <= i < self.pending@.len() && 0 <= j < nc.len() implies (
                #[trigger] self.pending@[i]).0@ != (#[trigger] nc[j]).0@ by {
                    if idx < oc.len() {
                        if j == idx {
                            assert(nc[j].0@ == name_g@);
                        } else {
                            assert(nc[j] == oc[j]);
                        }
                    } else {
                        if j == nc.len() - 1 {
                            assert(nc[j].0@ == name_g@);
                        } else {
                            assert(nc[j] == oc[j]);
                        }
                    }
                }
            }
        }
        proof {
            assert(node_g.funding_links@ =~= Seq::<String>::empty());
            if crates_has(old(self).crates@, name_g@) {
                assert(0 <= idx < old(self).crates@.len() && (old(self).crates@[idx as int]).0@
                    == name_g@ && self.crates@ == old(self).crates@.update(
                    idx as int,
                    (name_g, node_g),
                ));
            } else {
                assert(self.crates@ == old(self).crates@.push((name_g, node_g)));
            }
            assert(exists|n: CrateInfo|
                {
                    &&& n.repository == repository
                    &&& n.depth == depth
                    &&& n.funding_links@ == Seq::<String>::empty()
                    &&& if crates_has(old(self).crates@, name@) {
                        exists|i: int|
                            0 <= i < old(self).crates@.len() && (#[trigger] old(
                                self,
                            ).crates@[i]).0@ == name@ && self.crates@ == old(self).crates@.update(
                                i,
                                (name, n),
                            )
                    } else {
                        self.crates@ == old(self).crates@.push((name, n))
                    }
                }) by {
                if crates_has(old(self).crates@, name_g@) {
                    assert(node_g.repository == repository && node_g.depth == depth
                        && node_g.funding_links@ == Seq::<String>::empty() && (exists|i: int|
                        0 <= i < old(self).crates@.len() && (#[trigger] old(self).crates@[i]).0@
                            == name@ && self.crates@ == old(self).crates@.update(
                            i,
                            (name, node_g),
                        )));
                } else {
                    assert(node_g.repository == repository && node_g.depth == depth
                        && node_g.funding_links@ == Seq::<String>::empty() && self.crates@ == old(
                        self,
                    ).crates@.push((name, node_g)));
                }
            }
        }
        let ghost crates_now = self.crates@;
        if depth < self.max_depth {
            let d = depth + 1;
            let mut children = children;
            let ghost orig_children = children@;
            let ghost p0 = self.pending@;
            proof {
                assert(enqueue_children(p0, crates_now, orig_children, d)
                    == enqueue_children(self.pending@, crates_now, children@, d));
            }
            while children.len() > 0
                invariant
                    self.wf(),
                    self.crates@ == crates_now,
                    self.max_depth == old(self).max_depth,
                    d <= self.max_depth,
                    enqueue_children(p0, crates_now, orig_children, d) == enqueue_children(
                        self.pending@,
                        crates_now,
                        children@,
                        d,
                    ),
                decreases children@.len(),
            {
                let ghost pend_prev = self.pending@;
                let ghost kids_prev = children@;
                let child = children.remove(0);
                let ghost child_g = child;
                let in_crates = contains_crate_name(&self.crates, child.as_str());
                let in_pending = contains_pending_name(&self.pending, child.as_str());
                if !in_crates && !in_pending {
                    self.pending.push((child, d));
                    proof {
                        assert(self.pending@ == enqueue_one(pend_prev, crates_now, child_g, d));
                        assert forall|i: int, j: int|
                            0 <= i < j < self.pending@.len() implies (
                        #[trigger] self.pending@[i]).0@ != (#[trigger] self.pending@[j]).0@ by {
                            if j == self.pending@.len() - 1 {
                                assert(!pending_has(pend_prev, child_g@));
                                assert(self.pending@[i] == pend_prev[i]);
                            }
                        }
                        assert forall|i: int, j: int|
                            0 <= i < self.pending@.len() && 0 <= j < self.crates@.len() implies (
                        #[trigger] self.pending@[i]).0@ != (#[trigger] self.crates@[j]).0@ by {
                            if i == self.pending@.len() - 1 {
                                assert(!crates_has(crates_now, child_g@));
                            }
                        }
                    }
                } else {
                    proof {
                        assert(self.pending@ == enqueue_one(pend_prev, crates_now, child_g, d));
                    }
                }
                proof {
                    assert(kids_prev[0] == child_g);
                    assert(kids_prev.drop_first() =~= children@);
                    assert(enqueue_children(pend_prev, crates_now, kids_prev, d)
                        == enqueue_children(self.pending@, crates_now, children@, d));
                }
            }
            proof {
                assert(enqueue_children(self.pending@, crates_now, children@, d) == self.pending@);
            }
        }
    }

    /// Whether a package name is already pending.
    pub fn pending_contains(&self, name: &str) -> (r: bool)
        ensures
            r == pending_has(self.pending@, name@),
    {
        contains_pending_name(&self.pending, name)
    }

    /// Whether a package name is already in the result map.
    pub fn has_crate_named(&self, name: &str) -> (r: bool)
        ensures
            r == crates_has(self.crates@, name@),
    {
        contains_crate_name(&self.crates, name)
    }

    /// The depth recorded for a crawled package, if it was crawled.
    pub fn get_depth(&self, name: &str) -> (r: Option<usize>)
        ensures
            match r {
                Some(d) => crate_lookup(self.crates@, name@) matches Some(n) && n.depth == d,
                None => crate_lookup(self.crates@, name@) is None,
            },
    {
        let n = self.crates.len();
        let mut i: usize = 0;
        while i < n
            invariant
                n == self.crates@.len(),
                i <= n,
                forall|j: int| 0 <= j < i ==> (#[trigger] self.crates@[j]).0@ != name@,
            decreases n - i,
        {
            if str_eq(self.crates[i].0.as_str(), name) {
                proof {
                    lemma_crate_lookup_at(self.crates@, name@, i as int);
                }
                return Some(self.crates[i].1.depth);
            }
            i = i + 1;
        }
        proof {
            lemma_crate_lookup_absent(self.crates@, name@);
        }
        None
    }

    /// How many packages the crawl has resolved.
    pub fn crate_count(&self) -> (r: usize)
        ensures
            r == self.crates@.len(),
    {
        self.crates.len()
    }

    /// Hand the finished result map out, in insertion order.
    pub fn into_crates(self) -> (r: Vec<(String, CrateInfo)>)
        ensures
            r@ == self.crates@,
    {
        self.crates
    }
}

fn find_crate_index(crates: &Vec<(String, CrateInfo)>, name: &str) -> (r: usize)
    ensures
        r <= crates@.len(),
        r < crates@.len() ==> crates@[r as int].0@ == name@ && (forall|j: int|
            0 <= j < r ==> (#[trigger] crates@[j]).0@ != name@),
        r == crates@.len() ==> forall|j: int|
            0 <= j < crates@.len() ==> (#[trigger] crates@[j]).0@ != name@,
{
    let n = crates.len();
    let mut i: usize = 0;
    while i < n
        invariant
            n == crates@.len(),
            i <= n,
            forall|j: int| 0 <= j < i ==> (#[trigger] crates@[j]).0@ != name@,
        decreases n - i,
    {
        if str_eq(crates[i].0.as_str(), name) {
            return i;
        }
        i = i + 1;
    }
    n
}

fn contains_crate_name(crates: &Vec<(String, CrateInfo)>, name: &str) -> (r: bool)
    ensures
        r == crates_has(crates@, name@),
{
    let idx = find_crate_index(crates, name);
    if idx < crates.len() {
        true
    } else {
        false
    }
}

fn contains_pending_name(p: &Vec<(String, usize)>, name: &str) -> (r: bool)
    ensures
        r == pending_has(p@, name@),
{
    let n = p.len();
    let mut i: usize = 0;
    while i < n
        invariant
            n == p@.len(),
            i <= n,
            forall|j: int| 0 <= j < i ==> (#[trigger] p@[j]).0@ != name@,
        decreases n - i,
    {
        if str_eq(p[i].0.as_str(), name) {
            return true;
        }
        i = i + 1;
    }
    false
}

proof fn lemma_crate_lookup_at(c: Seq<(String, CrateInfo)>, name: Seq<char>, i: int)
    requires
        0 <= i < c.len(),
        c[i].0@ == name,
        forall|j: int| 0 <= j < i ==> (#[trigger] c[j]).0@ != name,
    ensures
        crate_lookup(c, name) == Some(c[i].1),
    decreases c.len(),
{
    if i > 0 {
        lemma_crate_lookup_at(c.drop_first(), name, i - 1);
    }
}

proof fn lemma_crate_lookup_absent(c: Seq<(String, CrateInfo)>, name: Seq<char>)
    requires
        forall|j: int| 0 <= j < c.len() ==> (#[trigger] c[j]).0@ != name,
    ensures
        crate_lookup(c, name) is None,
    decreases c.len(),
{
    if c.len() > 0 {
        lemma_crate_lookup_absent(c.drop_first(), name);
    }
}

/// Law: a well-formed crawl result holds no two entries for the same
/// package name — the result map has no duplicate keys.
pub proof fn lemma_crawl_no_duplicates(c: Crawler)
    requires
        c.wf(),
    ensures
        forall|i: int, j: int|
            0 <= i < j < c.crates@.len() ==> (#[trigger] c.crates@[i]).0@ != (
            #[trigger] c.crates@[j]).0@,
{
}

/// Law: every package the crawl records — and every package still pending —
/// sits at a depth no greater than the configured maximum, so nothing is
/// discovered strictly deeper than that bound.
pub proof fn lemma_crawl_depth_bounded(c: Crawler)
    requires
        c.wf(),
    ensures
        forall|i: int| 0 <= i < c.crates@.len() ==> (#[trigger] c.crates@[i]).1.depth
            <= c.max_depth,
        forall|i: int| 0 <= i < c.pending@.len() ==> (#[trigger] c.pending@[i]).1 <= c.max_depth,
{
}

} // verus!
