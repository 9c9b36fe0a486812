//! Report ranking: stable sorts of the crawled repositories (by discovery
//! depth, ascending) and of the aggregated contributors (by a selectable
//! key and direction).  Stability is stated exactly: for every key value,
//! the sub-list of entries carrying that key is unchanged, so ties keep
//! their original insertion order.

use vstd::prelude::*;
use crate::funding::UserFundingInfo;
use crate::locator::CrateInfo;

verus! {

/// The field fundable people are ranked by.
#[derive(Clone, Copy, Debug, PartialEq, Eq, Structural)]
pub enum SortBy {
    Contributions,
    Sponsors,
}

/// The direction of a ranking.
#[derive(Clone, Copy, Debug, PartialEq, Eq, Structural)]
pub enum SortBehaviour {
    Ascending,
    Descending,
}

/// The run's configuration: the root package, whether development
/// dependencies are followed, the maximum crawl depth, and how the final
/// contributor listing is ordered.
#[derive(Clone, Debug)]
pub struct Args {
    pub input: String,
    pub dev: bool,
    pub max_depth: usize,
    pub sort_by: Option<SortBy>,
    pub ordering: Option<SortBehaviour>,
}

/// The sort key configuration falls back to contribution counts.
pub open spec fn effective_sort_by(sort_by: Option<SortBy>) -> SortBy {
    match sort_by {
        Some(b) => b,
        None => SortBy::Contributions,
    }
}

/// The direction falls back to a default that depends on the key:
/// contributions rank descending, sponsors ascending (so under-sponsored
/// high-contribution people surface first).
pub open spec fn effective_ordering(by: SortBy, ordering: Option<SortBehaviour>) -> SortBehaviour {
    match ordering {
        Some(o) => o,
        None => match by {
            SortBy::Contributions => SortBehaviour::Descending,
            SortBy::Sponsors => SortBehaviour::Ascending,
        },
    }
}

/// The ranking key of one contributor record.
pub open spec fn user_key(u: UserFundingInfo, by: SortBy) -> int {
    match by {
        SortBy::Contributions => u.contributions as int,
        SortBy::Sponsors => u.number_of_sponsors as int,
    }
}

/// Non-decreasing in the chosen key.
pub open spec fn sorted_by_key(s: Seq<UserFundingInfo>, by: SortBy) -> bool {
    forall|i: int, j: int| 0 <= i <= j < s.len() ==> user_key(s[i], by) <= user_key(s[j], by)
}

/// The sub-list of records whose key is exactly `k`, in order.
pub open spec fn users_with_key(s: Seq<UserFundingInfo>, by: SortBy, k: int) -> Seq<
    UserFundingInfo,
>
    decreases s.len(),
{
    if s.len() == 0 {
        Seq::empty()
    } else {
        let rest = users_with_key(s.drop_first(), by, k);
        if user_key(s[0], by) == k {
            seq![s[0]] + rest
        } else {
            rest
        }
    }
}

/// Non-decreasing in depth.
pub open spec fn sorted_by_depth(s: Seq<CrateInfo>) -> bool {
    forall|i: int, j: int| 0 <= i <= j < s.len() ==> s[i].depth <= s[j].depth
}

/// The sub-list of entries recorded at depth `d`, in order.
pub open spec fn crates_at_depth(s: Seq<CrateInfo>, d: int) -> Seq<CrateInfo>
    decreases s.len(),
{
    if s.len() == 0 {
        Seq::empty()
    } else {
        let rest = crates_at_depth(s.drop_first(), d);
        if s[0].depth as int == d {
            seq![s[0]] + rest
        } else {
            rest
        }
    }
}

proof fn lemma_crates_at_depth_add(a: Seq<CrateInfo>, b: Seq<CrateInfo>, d: int)
    ensures
        crates_at_depth(a + b, d) == crates_at_depth(a, d) + crates_at_depth(b, d),
    decreases a.len(),
{
    if a.len() == 0 {
        assert(a + b =~= b);
        assert(crates_at_depth(a, d) + crates_at_depth(b, d) =~= crates_at_depth(b, d));
    } else {
        assert((a + b).len() > 0);
        assert((a + b)[0] == a[0]);
        assert((a + b).drop_first() =~= a.drop_first() + b);
        lemma_crates_at_depth_add(a.drop_first(), b, d);
        assert(crates_at_depth(a + b, d) =~= crates_at_depth(a, d) + crates_at_depth(b, d));
    }
}

proof fn lemma_crates_at_depth_absent(s: Seq<CrateInfo>, d: int)
    requires
        forall|a: int| 0 <= a < s.len() ==> (#[trigger] s[a]).depth as int != d,
    ensures
        crates_at_depth(s, d) == Seq::<CrateInfo>::empty(),
    decreases s.len(),
{
    if s.len() > 0 {
        lemma_crates_at_depth_absent(s.drop_first(), d);
    }
}

proof fn lemma_crates_stable_move(prev: Seq<CrateInfo>, pos: int, i: int, d: int)
    requires
        0 <= pos <= i < prev.len(),
        forall|a: int| pos <= a < i ==> (#[trigger] prev[a]).depth > prev[i].depth,
    ensures
        crates_at_depth(prev.remove(i).insert(pos, prev[i]), d) == crates_at_depth(prev, d),
{
    let x = prev[i];
    let a = prev.subrange(0, pos);
    let b = prev.subrange(pos, i);
    let c = prev.subrange(i + 1, prev.len() as int);
    let xs = seq![x];
    assert(prev =~= a + (b + (xs + c)));
    assert(prev.remove(i).insert(pos, x) =~= a + (xs + (b + c)));
    lemma_crates_at_depth_add(a, b + (xs + c), d);
    lemma_crates_at_depth_add(b, xs + c, d);
    lemma_crates_at_depth_add(xs, c, d);
    lemma_crates_at_depth_add(a, xs + (b + c), d);
    lemma_crates_at_depth_add(xs, b + c, d);
    lemma_crates_at_depth_add(b, c, d);
    assert(crates_at_depth(xs.drop_first(), d) =~= Seq::<CrateInfo>::empty());
    if x.depth as int == d {
        lemma_crates_at_depth_absent(b, d);
        assert(crates_at_depth(prev.remove(i).insert(pos, x), d) =~= crates_at_depth(prev, d));
    } else {
        assert(crates_at_depth(xs, d) =~= Seq::<CrateInfo>::empty());
        assert(crates_at_depth(prev.remove(i).insert(pos, x), d) =~= crates_at_depth(prev, d));
    }
}

/// Stable sort of the crawled entries by ascending discovery depth:
/// the result is sorted, and for every depth the entries at that depth
/// keep their original relative order.
pub fn sort_crates_by_depth(v: &mut Vec<CrateInfo>)
    ensures
        sorted_by_depth(final(v)@),
        final(v)@.len() == old(v)@.len(),
        forall|d: int| #[trigger] crates_at_depth(final(v)@, d) == crates_at_depth(old(v)@, d),
{
    let n = v.len();
    let mut i: usize = 1;
    while i < n
        invariant
            n == v@.len(),
            1 <= i || n == 0,
            forall|a: int, b: int| 0 <= a <= b < i && b < n ==> (#[trigger] v@[a]).depth <= (
            #[trigger] v@[b]).depth,
            forall|d: int| #[trigger] crates_at_depth(v@, d) == crates_at_depth(old(v)@, d),
        decreases n - i,
    {
        let key = v[i].depth;
        let mut pos: usize = 0;
        while pos < i && v[pos].depth <= key
            invariant
                pos <= i,
                i < n,
                n == v@.len(),
                key == v@[i as int].depth,
                forall|a: int| 0 <= a < pos ==> (#[trigger] v@[a]).depth <= key,
            decreases i - pos,
        {
            pos = pos + 1;
        }
        let ghost prev = v@;
        proof {
            assert forall|a: int| pos <= a < i implies (#[trigger] prev[a]).depth
                > prev[i as int].depth by {
                if pos < i {
                    assert(prev[pos as int].depth > key);
                    assert(prev[pos as int].depth <= prev[a].depth);
                }
            }
        }
        let x = v.remove(i);
        v.insert(pos, x);
        proof {
            assert(v@ =~= prev.remove(i as int).insert(pos as int, prev[i as int]));
            assert forall|d: int| #[trigger] crates_at_depth(v@, d) == crates_at_depth(
                old(v)@,
                d,
            ) by {
                lemma_crates_stable_move(prev, pos as int, i as int, d);
            }
            assert forall|a: int, b: int| 0 <= a <= b < i + 1 && b < n implies (
            #[trigger] v@[a]).depth <= (#[trigger] v@[b]).depth by {
                if b < pos {
                    assert(v@[a] == prev[a] && v@[b] == prev[b]);
                } else if b == pos {
                    if a < pos {
                        assert(v@[a] == prev[a] && v@[b] == prev[i as int]);
                    }
                } else {
                    assert(v@[b] == prev[b - 1]);
                    if a < pos {
                        assert(v@[a] == prev[a]);
                    } else if a == pos {
                        assert(v@[a] == prev[i as int]);
                        assert(prev[b - 1].depth > key);
                    } else {
                        assert(v@[a] == prev[a - 1]);
                    }
                }
            }
        }
        i = i + 1;
    }
}

proof fn lemma_users_with_key_add(a: Seq<UserFundingInfo>, b: Seq<UserFundingInfo>, by: SortBy, k: int)
    ensures
        users_with_key(a + b, by, k) == users_with_key(a, by, k) + users_with_key(b, by, k),
    decreases a.len(),
{
    if a.len() == 0 {
        assert(a + b =~= b);
        assert(users_with_key(a, by, k) + users_with_key(b, by, k) =~= users_with_key(b, by, k));
    } else {
        assert((a + b).len() > 0);
        assert((a + b)[0] == a[0]);
        assert((a + b).drop_first() =~= a.drop_first() + b);
        lemma_users_with_key_add(a.drop_first(), b, by, k);
        assert(users_with_key(a + b, by, k) =~= users_with_key(a, by, k) + users_with_key(
            b,
            by,
            k,
        ));
    }
}

proof fn lemma_users_with_key_absent(s: Seq<UserFundingInfo>, by: SortBy, k: int)
    requires
        forall|a: int| 0 <= a < s.len() ==> user_key(#[trigger] s[a], by) != k,
    ensures
        users_with_key(s, by, k) == Seq::<UserFundingInfo>::empty(),
    decreases s.len(),
{
    if s.len() > 0 {
        lemma_users_with_key_absent(s.drop_first(), by, k);
    }
}

proof fn lemma_users_stable_move(prev: Seq<UserFundingInfo>, pos: int, i: int, by: SortBy, k: int)
    requires
        0 <= pos <= i < prev.len(),
        forall|a: int| pos <= a < i ==> user_key(#[trigger] prev[a], by) > user_key(
            prev[i],
            by,
        ),
    ensures
        users_with_key(prev.remove(i).insert(pos, prev[i]), by, k) == users_with_key(prev, by, k),
{
    let x = prev[i];
    let a = prev.subrange(0, pos);
    let b = prev.subrange(pos, i);
    let c = prev.subrange(i + 1, prev.len() as int);
    let xs = seq![x];
    assert(prev =~= a + (b + (xs + c)));
    assert(prev.remove(i).insert(pos, x) =~= a + (xs + (b + c)));
    lemma_users_with_key_add(a, b + (xs + c), by, k);
    lemma_users_with_key_add(b, xs + c, by, k);
    lemma_users_with_key_add(xs, c, by, k);
    lemma_users_with_key_add(a, xs + (b + c), by, k);
    lemma_users_with_key_add(xs, b + c, by, k);
    lemma_users_with_key_add(b, c, by, k);
    assert(users_with_key(xs.drop_first(), by, k) =~= Seq::<UserFundingInfo>::empty());
    if user_key(x, by) == k {
        lemma_users_with_key_absent(b, by, k);
        assert(users_with_key(prev.remove(i).insert(pos, x), by, k) =~= users_with_key(
            prev,
            by,
            k,
        ));
    } else {
        assert(users_with_key(xs, by, k) =~= Seq::<UserFundingInfo>::empty());
        assert(users_with_key(prev.remove(i).insert(pos, x), by, k) =~= users_with_key(
            prev,
            by,
            k,
        ));
    }
}

/// The chosen ranking key of one record, as the executable sort reads it.
fn get_key(u: &UserFundingInfo, by: SortBy) -> (r: usize)
    ensures
        r as int == user_key(*u, by),
{
    match by {
        SortBy::Contributions => u.contributions,
        SortBy::Sponsors => u.number_of_sponsors,
    }
}

/// Stable sort of the contributor records by the chosen key, ascending:
/// the result is sorted, and records with equal keys keep their original
/// relative order.
pub fn sort_users(v: &mut Vec<UserFundingInfo>, by: SortBy)
    ensures
        sorted_by_key(final(v)@, by),
        final(v)@.len() == old(v)@.len(),
        forall|k: int| #[trigger] users_with_key(final(v)@, by, k) == users_with_key(
            old(v)@,
            by,
            k,
        ),
{
    let n = v.len();
    let mut i: usize = 1;
    while i < n
        invariant
            n == v@.len(),
            1 <= i || n == 0,
            forall|a: int, b: int| 0 <= a <= b < i && b < n ==> user_key(#[trigger] v@[a], by)
                <= user_key(#[trigger] v@[b], by),
            forall|k: int| #[trigger] users_with_key(v@, by, k) == users_with_key(old(v)@, by, k),
        decreases n - i,
    {
        let key = get_key(&v[i], by);
        let mut pos: usize = 0;
        while pos < i && get_key(&v[pos], by) <= key
            invariant
                pos <= i,
                i < n,
                n == v@.len(),
                key as int == user_key(v@[i as int], by),
                forall|a: int| 0 <= a < pos ==> user_key(#[trigger] v@[a], by) <= key,
            decreases i - pos,
        {
            pos = pos + 1;
        }
        let ghost prev = v@;
        proof {
            assert forall|a: int| pos <= a < i implies user_key(#[trigger] prev[a], by)
                > user_key(prev[i as int], by) by {
                if pos < i {
                    assert(user_key(prev[pos as int], by) > key);
                    assert(user_key(prev[pos as int], by) <= user_key(prev[a], by));
                }
            }
        }
        let x = v.remove(i);
        v.insert(pos, x);
        proof {
            assert(v@ =~= prev.remove(i as int).insert(pos as int, prev[i as int]));
            assert forall|k: int| #[trigger] users_with_key(v@, by, k) == users_with_key(
                old(v)@,
                by,
                k,
            ) by {
                lemma_users_stable_move(prev, pos as int, i as int, by, k);
            }
            assert forall|a: int, b: int| 0 <= a <= b < i + 1 && b < n implies user_key(
                #[trigger] v@[a],
                by,
            ) <= user_key(#[trigger] v@[b], by) by {
                if b < pos {
                    assert(v@[a] == prev[a] && v@[b] == prev[b]);
                } else if b == pos {
                    if a < pos {
                        assert(v@[a] == prev[a] && v@[b] == prev[i as int]);
                    }
                } else {
                    assert(v@[b] == prev[b - 1]);
                    if a < pos {
                        assert(v@[a] == prev[a]);
                    } else if a == pos {
                        assert(v@[a] == prev[i as int]);
                        assert(user_key(prev[b - 1], by) > key);
                    } else {
                        assert(v@[a] == prev[a - 1]);
                    }
                }
            }
        }
        i = i + 1;
    }
}

/// Reverse the contributor list in place.
pub fn reverse_users(v: &mut Vec<UserFundingInfo>)
    ensures
        final(v)@ == old(v)@.reverse(),
{
    let mut out: Vec<UserFundingInfo> = Vec::new();
    let ghost orig = v@;
    let ghost n: nat = v@.len();
    while v.len() > 0
        invariant
            out@.len() + v@.len() == n,
            n == orig.len(),
            v@ == orig.subrange(0, v@.len() as int),
            forall|t: int| 0 <= t < out@.len() ==> #[trigger] out@[t] == orig[n - 1 - t],
        decreases v@.len(),
    {
        let ghost vprev = v@;
        let x = v.pop().unwrap();
        proof {
            assert(x == vprev.last());
            assert(vprev.last() == orig[v@.len() as int]);
            assert(v@ =~= orig.subrange(0, v@.len() as int));
        }
        out.push(x);
    }
    proof {
        assert(out@ =~= orig.reverse());
    }
    *v = out;
}

/// The crawled entries themselves, dropping the name keys but keeping the
/// map's insertion order.
pub open spec fn crate_values(s: Seq<(String, CrateInfo)>) -> Seq<CrateInfo>
    decreases s.len(),
{
    if s.len() == 0 {
        Seq::empty()
    } else {
        seq![s[0].1] + crate_values(s.drop_first())
    }
}

/// Extract the crawled entries from the result map, in insertion order.
pub fn crate_value_list(list: Vec<(String, CrateInfo)>) -> (r: Vec<CrateInfo>)
    ensures
        r@ == crate_values(list@),
{
    let mut list = list;
    let mut out: Vec<CrateInfo> = Vec::new();
    let ghost orig = list@;
    proof {
        assert(out@ + crate_values(list@) =~= crate_values(orig));
    }
    while list.len() > 0
        invariant
            crate_values(orig) == out@ + crate_values(list@),
        decreases list@.len(),
    {
        let p = list.remove(0);
        let ghost pg = p;
        let ghost prev_out = out@;
        let ghost rest = list@;
        out.push(p.1);
        proof {
            assert(out@ + crate_values(rest) =~= prev_out + (seq![pg.1] + crate_values(rest)));
        }
    }
    proof {
        assert(out@ + crate_values(list@) =~= out@);
    }
    out
}

/// The entries that carry at least one funding link, in order.
pub open spec fn funded(s: Seq<CrateInfo>) -> Seq<CrateInfo>
    decreases s.len(),
{
    if s.len() == 0 {
        Seq::empty()
    } else {
        let rest = funded(s.drop_first());
        if s[0].funding_links@.len() > 0 {
            seq![s[0]] + rest
        } else {
            rest
        }
    }
}

/// Keep only the repositories that can be sponsored directly — those with
/// at least one funding link.
pub fn fundable_crates(crates: Vec<CrateInfo>) -> (r: Vec<CrateInfo>)
    ensures
        r@ == funded(crates@),
{
    let mut crates = crates;
    let mut out: Vec<CrateInfo> = Vec::new();
    let ghost orig = crates@;
    proof {
        assert(out@ + funded(crates@) =~= funded(orig));
    }
    while crates.len() > 0
        invariant
            funded(orig) == out@ + funded(crates@),
        decreases crates@.len(),
    {
        let c = crates.remove(0);
        let ghost cg = c;
        let ghost prev_out = out@;
        let ghost rest = crates@;
        if c.funding_links.len() > 0 {
            out.push(c);
            proof {
                assert(out@ + funded(rest) =~= prev_out + (seq![cg] + funded(rest)));
            }
        } else {
            proof {
                assert(out@ + funded(rest) =~= prev_out + funded(rest));
            }
        }
    }
    proof {
        assert(out@ + funded(crates@) =~= out@);
    }
    out
}

/// Rank the aggregated contributors: sort by the configured key and apply
/// the configured direction, falling back to the defaults — contributions
/// rank descending, sponsors ascending — when unspecified.  The sort is
/// stable; a descending listing is the reversal of the stable ascending one.
pub fn rank_users(
    users: Vec<UserFundingInfo>,
    sort_by: Option<SortBy>,
    ordering: Option<SortBehaviour>,
) -> (r: Vec<UserFundingInfo>)
    ensures
        r@.len() == users@.len(),
        effective_ordering(effective_sort_by(sort_by), ordering) == SortBehaviour::Ascending ==> {
            &&& sorted_by_key(r@, effective_sort_by(sort_by))
            &&& forall|k: int| #[trigger] users_with_key(r@, effective_sort_by(sort_by), k)
                == users_with_key(users@, effective_sort_by(sort_by), k)
        },
        effective_ordering(effective_sort_by(sort_by), ordering) == SortBehaviour::Descending ==> {
            &&& sorted_by_key(r@.reverse(), effective_sort_by(sort_by))
            &&& forall|k: int| #[trigger] users_with_key(
                r@.reverse(),
                effective_sort_by(sort_by),
                k,
            ) == users_with_key(users@, effective_sort_by(sort_by), k)
        },
{
    let mut users = users;
    let by = match sort_by {
        Some(b) => b,
        None => SortBy::Contributions,
    };
    let beh = match ordering {
        Some(o) => o,
        None => match by {
            SortBy::Contributions => SortBehaviour::Descending,
            SortBy::Sponsors => SortBehaviour::Ascending,
        },
    };
    sort_users(&mut users, by);
    let ghost sorted_seq = users@;
    match beh {
        SortBehaviour::Ascending => users,
        SortBehaviour::Descending => {
            reverse_users(&mut users);
            proof {
                assert(users@.reverse() =~= sorted_seq);
            }
            users
        },
    }
}

} // verus!
