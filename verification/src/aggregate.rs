//! Contributor aggregation: merges per-repository funding records into a
//! single cross-repository leaderboard.  Contribution counts accumulate, the
//! distinct-crate count grows by one per repository, and the sponsor count —
//! a platform-wide, repository-independent figure — is overwritten by the
//! most recently processed record rather than summed.

use vstd::prelude::*;
use crate::funding::UserFundingInfo;
use crate::locator::str_eq;

verus! {

/// The merge of an existing leaderboard entry with an incoming record for
/// the same login: contributions add up, the distinct-crate count grows by
/// one, and the sponsor count is overwritten by the incoming figure.
pub open spec fn merged_record(base: UserFundingInfo, rec: UserFundingInfo) -> UserFundingInfo {
    UserFundingInfo {
        login: base.login,
        number_of_sponsors: rec.number_of_sponsors,
        contributions: (base.contributions + rec.contributions) as usize,
        crates: (base.crates + 1) as usize,
    }
}

/// A record as first inserted: seeded from the incoming record, with the
/// distinct-crate count at one.
pub open spec fn seeded_record(rec: UserFundingInfo) -> UserFundingInfo {
    UserFundingInfo {
        login: rec.login,
        number_of_sponsors: rec.number_of_sponsors,
        contributions: rec.contributions,
        crates: 1usize,
    }
}

/// One aggregation step over the leaderboard: update the first entry whose
/// login matches, or append a freshly seeded record.
pub open spec fn agg_add(s: Seq<UserFundingInfo>, rec: UserFundingInfo) -> Seq<UserFundingInfo>
    decreases s.len(),
{
    if s.len() == 0 {
        seq![seeded_record(rec)]
    } else if s[0].login@ == rec.login@ {
        seq![merged_record(s[0], rec)] + s.drop_first()
    } else {
        seq![s[0]] + agg_add(s.drop_first(), rec)
    }
}

/// The first record carrying the given login, if any.
pub open spec fn lookup(s: Seq<UserFundingInfo>, login: Seq<char>) -> Option<UserFundingInfo>
    decreases s.len(),
{
    if s.len() == 0 {
        None
    } else if s[0].login@ == login {
        Some(s[0])
    } else {
        lookup(s.drop_first(), login)
    }
}

/// The cumulative contribution total recorded for `login`; zero when absent.
pub open spec fn contributions_of(s: Seq<UserFundingInfo>, login: Seq<char>) -> int {
    match lookup(s, login) {
        Some(r) => r.contributions as int,
        None => 0,
    }
}

/// The distinct-crate count recorded for `login`; zero when absent.
pub open spec fn crates_of(s: Seq<UserFundingInfo>, login: Seq<char>) -> int {
    match lookup(s, login) {
        Some(r) => r.crates as int,
        None => 0,
    }
}

/// The cross-repository contributor leaderboard, keyed by login.
pub struct FundingAggregator {
    pub users: Vec<UserFundingInfo>,
}

impl View for FundingAggregator {
    type V = Seq<UserFundingInfo>;

    open spec fn view(&self) -> Seq<UserFundingInfo> {
        self.users@
    }
}

proof fn lemma_agg_add_update(s: Seq<UserFundingInfo>, rec: UserFundingInfo, i: int)
    requires
        0 <= i < s.len(),
        s[i].login@ == rec.login@,
        forall|j: int| 0 <= j < i ==> s[j].login@ != rec.login@,
    ensures
        lookup(s, rec.login@) == Some(s[i]),
        agg_add(s, rec) == s.update(i, merged_record(s[i], rec)),
    decreases s.len(),
{
    if i == 0 {
        assert(agg_add(s, rec) =~= s.update(0, merged_record(s[0], rec)));
    } else {
        lemma_agg_add_update(s.drop_first(), rec, i - 1);
        assert(agg_add(s, rec) =~= s.update(i, merged_record(s[i], rec)));
    }
}

proof fn lemma_agg_add_append(s: Seq<UserFundingInfo>, rec: UserFundingInfo)
    requires
        forall|j: int| 0 <= j < s.len() ==> s[j].login@ != rec.login@,
    ensures
        lookup(s, rec.login@) is None,
        agg_add(s, rec) == s.push(seeded_record(rec)),
    decreases s.len(),
{
    if s.len() > 0 {
        lemma_agg_add_append(s.drop_first(), rec);
        assert(agg_add(s, rec) =~= s.push(seeded_record(rec)));
    }
}

impl FundingAggregator {
    /// No two leaderboard entries carry the same login.
    pub open spec fn wf(self) -> bool {
        forall|i: int, j: int|
            0 <= i < j < self@.len() ==> self@[i].login@ != self@[j].login@
    }

    /// An empty leaderboard.
    pub fn new() -> (r: FundingAggregator)
        ensures
            r.wf(),
            r@ == Seq::<UserFundingInfo>::empty(),
    {
        FundingAggregator { users: Vec::new() }
    }

    /// Fold one per-repository record into the leaderboard.
    pub fn add_record(&mut self, rec: UserFundingInfo)
        requires
            old(self).wf(),
            lookup(old(self)@, rec.login@) matches Some(b) ==> b.contributions + rec.contributions
                <= usize::MAX && b.crates + 1 <= usize::MAX,
        ensures
            final(self).wf(),
            final(self)@ == agg_add(old(self)@, rec),
    {
        let n = self.users.len();
        let mut i: usize = 0;
        while i < n
            invariant
                n == self.users@.len(),
                i <= n,
                forall|j: int| 0 <= j < i ==> self.users@[j].login@ != rec.login@,
                self@ == old(self)@,
                old(self).wf(),
                lookup(old(self)@, rec.login@) matches Some(b) ==> b.contributions
                    + rec.contributions <= usize::MAX && b.crates + 1 <= usize::MAX,
            decreases n - i,
        {
            if str_eq(self.users[i].login.as_str(), rec.login.as_str()) {
                proof {
                    lemma_agg_add_update(old(self)@, rec, i as int);
                }
                let x = self.users.remove(i);
                let merged = UserFundingInfo {
                    login: x.login,
                    number_of_sponsors: rec.number_of_sponsors,
                    contributions: x.contributions + rec.contributions,
                    crates: x.crates + 1,
                };
                self.users.insert(i, merged);
                proof {
                    assert(self.users@ =~= agg_add(old(self)@, rec));
                }
                return;
            }
            i = i + 1;
        }
        proof {
            lemma_agg_add_append(old(self)@, rec);
        }
        self.users.push(
            UserFundingInfo {
                login: rec.login,
                number_of_sponsors: rec.number_of_sponsors,
                contributions: rec.contributions,
                crates: 1,
            },
        );
    }

    /// Fold one record in unless its merge would overflow a counter, in
    /// which case the leaderboard is left unchanged and `false` comes back.
    pub fn try_add_record(&mut self, rec: UserFundingInfo) -> (r: bool)
        requires
            old(self).wf(),
        ensures
            final(self).wf(),
            r ==> final(self)@ == agg_add(old(self)@, rec),
            !r ==> final(self)@ == old(self)@ && (lookup(old(self)@, rec.login@) matches Some(b)
                && (b.contributions + rec.contributions > usize::MAX || b.crates + 1
                > usize::MAX)),
    {
        let n = self.users.len();
        let mut i: usize = 0;
        while i < n
            invariant
                n == self.users@.len(),
                i <= n,
                forall|j: int| 0 <= j < i ==> self.users@[j].login@ != rec.login@,
                self@ == old(self)@,
                old(self).wf(),
            decreases n - i,
        {
            if str_eq(self.users[i].login.as_str(), rec.login.as_str()) {
                proof {
                    lemma_agg_add_update(old(self)@, rec, i as int);
                }
                let b_contributions = self.users[i].contributions;
                let b_crates = self.users[i].crates;
                if b_contributions <= usize::MAX - rec.contributions && b_crates < usize::MAX {
                    self.add_record(rec);
                    return true;
                } else {
                    return false;
                }
            }
            i = i + 1;
        }
        proof {
            lemma_agg_add_append(old(self)@, rec);
        }
        self.add_record(rec);
        true
    }

    /// How many distinct contributors the leaderboard holds.
    pub fn len(&self) -> (r: usize)
        ensures
            r == self@.len(),
    {
        self.users.len()
    }

    /// The record for `login`, if one exists.
    pub fn get(&self, login: &str) -> (r: Option<&UserFundingInfo>)
        ensures
            match r {
                Some(u) => lookup(self@, login@) == Some(*u),
                None => lookup(self@, login@) is None,
            },
    {
        let n = self.users.len();
        let mut i: usize = 0;
        while i < n
            invariant
                n == self.users@.len(),
                i <= n,
                forall|j: int| 0 <= j < i ==> self.users@[j].login@ != login@,
            decreases n - i,
        {
            if str_eq(self.users[i].login.as_str(), login) {
                proof {
                    lemma_lookup_at(self@, login@, i as int);
                }
                return Some(&self.users[i]);
            }
            i = i + 1;
        }
        proof {
            lemma_lookup_absent(self@, login@);
        }
        None
    }

    /// Hand the finished leaderboard out, in insertion order.
    pub fn into_users(self) -> (r: Vec<UserFundingInfo>)
        ensures
            r@ == self@,
    {
        self.users
    }
}

proof fn lemma_lookup_at(s: Seq<UserFundingInfo>, login: Seq<char>, i: int)
    requires
        0 <= i < s.len(),
        s[i].login@ == login,
        forall|j: int| 0 <= j < i ==> s[j].login@ != login,
    ensures
        lookup(s, login) == Some(s[i]),
    decreases s.len(),
{
    if i > 0 {
        lemma_lookup_at(s.drop_first(), login, i - 1);
    }
}

proof fn lemma_lookup_absent(s: Seq<UserFundingInfo>, login: Seq<char>)
    requires
        forall|j: int| 0 <= j < s.len() ==> s[j].login@ != login,
    ensures
        lookup(s, login) is None,
    decreases s.len(),
{
    if s.len() > 0 {
        lemma_lookup_absent(s.drop_first(), login);
    }
}

proof fn lemma_lookup_cons(m: UserFundingInfo, d: Seq<UserFundingInfo>, login: Seq<char>)
    ensures
        lookup(seq![m] + d, login) == (if m.login@ == login {
            Some(m)
        } else {
            lookup(d, login)
        }),
{
    let x = seq![m] + d;
    assert(x[0] == m);
    assert(x.drop_first() =~= d);
}

proof fn lemma_agg_add_cons(m: UserFundingInfo, d: Seq<UserFundingInfo>, rec: UserFundingInfo)
    ensures
        agg_add(seq![m] + d, rec) == (if m.login@ == rec.login@ {
            seq![merged_record(m, rec)] + d
        } else {
            seq![m] + agg_add(d, rec)
        }),
{
    let x = seq![m] + d;
    assert(x.len() > 0);
    assert(x[0] == m);
    assert(x.drop_first() =~= d);
}

/// Law: aggregation is commutative in the contribution-count summation —
/// folding the same two per-repository records into a leaderboard in either
/// order yields the same cumulative contribution total and the same
/// distinct-crate count for every login, provided neither counter overflows.
pub proof fn lemma_aggregation_commutative(
    s: Seq<UserFundingInfo>,
    r1: UserFundingInfo,
    r2: UserFundingInfo,
    login: Seq<char>,
)
    requires
        contributions_of(s, r1.login@) + r1.contributions + r2.contributions <= usize::MAX,
        contributions_of(s, r2.login@) + r1.contributions + r2.contributions <= usize::MAX,
        crates_of(s, r1.login@) + 2 <= usize::MAX,
        crates_of(s, r2.login@) + 2 <= usize::MAX,
    ensures
        contributions_of(agg_add(agg_add(s, r1), r2), login) == contributions_of(
            agg_add(agg_add(s, r2), r1),
            login,
        ),
        crates_of(agg_add(agg_add(s, r1), r2), login) == crates_of(
            agg_add(agg_add(s, r2), r1),
            login,
        ),
    decreases s.len(),
{
    if s.len() == 0 {
        if r1.login@ == r2.login@ {
            let e = Seq::<UserFundingInfo>::empty();
            assert(seq![seeded_record(r1)] =~= seq![seeded_record(r1)] + e);
            assert(seq![seeded_record(r2)] =~= seq![seeded_record(r2)] + e);
            lemma_agg_add_cons(seeded_record(r1), e, r2);
            lemma_agg_add_cons(seeded_record(r2), e, r1);
            lemma_lookup_cons(merged_record(seeded_record(r1), r2), e, login);
            lemma_lookup_cons(merged_record(seeded_record(r2), r1), e, login);
            assert(agg_add(agg_add(s, r1), r2) == seq![merged_record(seeded_record(r1), r2)] + e);
            assert(agg_add(agg_add(s, r2), r1) == seq![merged_record(seeded_record(r2), r1)] + e);
        } else {
            let e = Seq::<UserFundingInfo>::empty();
            assert(seq![seeded_record(r1)] =~= seq![seeded_record(r1)] + e);
            assert(seq![seeded_record(r2)] =~= seq![seeded_record(r2)] + e);
            lemma_agg_add_cons(seeded_record(r1), e, r2);
            lemma_agg_add_cons(seeded_record(r2), e, r1);
            lemma_lookup_cons(seeded_record(r1), agg_add(e, r2), login);
            lemma_lookup_cons(seeded_record(r2), agg_add(e, r1), login);
            lemma_lookup_cons(seeded_record(r2), e, login);
            lemma_lookup_cons(seeded_record(r1), e, login);
            assert(agg_add(e, r2) =~= seq![seeded_record(r2)] + e);
            assert(agg_add(e, r1) =~= seq![seeded_record(r1)] + e);
        }
    } else {
        let h = s[0];
        let d = s.drop_first();
        if h.login@ == r1.login@ && h.login@ == r2.login@ {
            assert(agg_add(s, r1) == seq![merged_record(h, r1)] + d);
            assert(agg_add(s, r2) == seq![merged_record(h, r2)] + d);
            lemma_agg_add_cons(merged_record(h, r1), d, r2);
            lemma_agg_add_cons(merged_record(h, r2), d, r1);
            lemma_lookup_cons(merged_record(merged_record(h, r1), r2), d, login);
            lemma_lookup_cons(merged_record(merged_record(h, r2), r1), d, login);
        } else if h.login@ == r1.login@ {
            assert(agg_add(s, r1) == seq![merged_record(h, r1)] + d);
            assert(agg_add(s, r2) == seq![h] + agg_add(d, r2));
            lemma_agg_add_cons(merged_record(h, r1), d, r2);
            lemma_agg_add_cons(h, agg_add(d, r2), r1);
        } else if h.login@ == r2.login@ {
            assert(agg_add(s, r2) == seq![merged_record(h, r2)] + d);
            assert(agg_add(s, r1) == seq![h] + agg_add(d, r1));
            lemma_agg_add_cons(merged_record(h, r2), d, r1);
            lemma_agg_add_cons(h, agg_add(d, r1), r2);
        } else {
            assert(agg_add(s, r1) == seq![h] + agg_add(d, r1));
            assert(agg_add(s, r2) == seq![h] + agg_add(d, r2));
            lemma_agg_add_cons(h, agg_add(d, r1), r2);
            lemma_agg_add_cons(h, agg_add(d, r2), r1);
            lemma_aggregation_commutative(d, r1, r2, login);
            lemma_lookup_cons(h, agg_add(agg_add(d, r1), r2), login);
            lemma_lookup_cons(h, agg_add(agg_add(d, r2), r1), login);
        }
    }
}

/// Law: folding the same per-repository record in twice double-counts its
/// contribution figure exactly — the cumulative total grows by twice the
/// record's contributions and the distinct-crate count by two, documenting
/// that aggregation is deliberately not idempotent per (login, repository).
pub proof fn lemma_double_application(s: Seq<UserFundingInfo>, rec: UserFundingInfo)
    requires
        contributions_of(s, rec.login@) + rec.contributions + rec.contributions <= usize::MAX,
        crates_of(s, rec.login@) + 2 <= usize::MAX,
    ensures
        contributions_of(agg_add(agg_add(s, rec), rec), rec.login@) == contributions_of(
            s,
            rec.login@,
        ) + 2 * rec.contributions,
        crates_of(agg_add(agg_add(s, rec), rec), rec.login@) == crates_of(s, rec.login@) + 2,
    decreases s.len(),
{
    if s.len() == 0 {
        assert(agg_add(agg_add(s, rec), rec) =~= seq![merged_record(seeded_record(rec), rec)]);
    } else {
        let h = s[0];
        let d = s.drop_first();
        if h.login@ == rec.login@ {
            assert(agg_add(s, rec) == seq![merged_record(h, rec)] + d);
            lemma_agg_add_cons(merged_record(h, rec), d, rec);
            lemma_lookup_cons(merged_record(merged_record(h, rec), rec), d, rec.login@);
        } else {
            assert(agg_add(s, rec) == seq![h] + agg_add(d, rec));
            lemma_agg_add_cons(h, agg_add(d, rec), rec);
            lemma_double_application(d, rec);
            lemma_lookup_cons(h, agg_add(agg_add(d, rec), rec), rec.login@);
        }
    }
}

} // verus!
