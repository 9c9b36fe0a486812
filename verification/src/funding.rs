//! Funding resolution: the shapes of the hosting platform's answers and the
//! pure steps of turning them into per-repository funding records — filtering
//! contributors to individual user accounts, collecting funding-link URLs,
//! and deciding whether a contributor is fundable.

use vstd::prelude::*;
use crate::locator::CrateInfo;
use crate::locator::str_eq;

verus! {

/// Repository-level funding data: the repository's funding links and the
/// contributors on it that can be sponsored.
#[derive(Clone, Debug)]
pub struct RepoFundingInfo {
    pub funding_links: Vec<String>,
    pub fundable_users: Vec<UserFundingInfo>,
}

/// One fundable contributor: sponsorship listing size, contributions, and the
/// number of distinct crates the contributor was seen on.
#[derive(Clone, Debug)]
pub struct UserFundingInfo {
    pub login: String,
    pub number_of_sponsors: usize,
    pub contributions: usize,
    pub crates: usize,
}

/// A contributor as the hosting platform reports it.
#[derive(Clone, Debug)]
pub struct ContributorResponse {
    pub login: String,
    pub url: String,
    pub ty: String,
    pub contributions: usize,
}

/// The repository part of a funding-links answer.
#[derive(Clone, Debug)]
pub struct RepositoryResponse {
    pub repository: RepoFundingResponse,
}

/// The funding links declared by a repository.
#[derive(Clone, Debug)]
pub struct RepoFundingResponse {
    pub funding_links: Vec<FundingUrl>,
}

/// A single funding link.
#[derive(Clone, Debug)]
pub struct FundingUrl {
    pub url: String,
}

/// The user part of a sponsorship answer.
#[derive(Clone, Debug)]
pub struct UserResponse {
    pub user: UserSponsorsResponse,
}

/// A user's sponsorship listing state and sponsor count.
#[derive(Clone, Debug)]
pub struct UserSponsorsResponse {
    pub has_sponsors_listing: bool,
    pub sponsors: SponsorsCount,
}

/// The generic envelope around a GraphQL answer.
#[derive(Clone, Debug)]
pub struct GraphQlResponse<Data> {
    pub data: Data,
}

/// A sponsor tally.
#[derive(Clone, Debug)]
pub struct SponsorsCount {
    pub total_count: usize,
}

/// The sub-list of contributors whose account type is the individual-user
/// kind, in their original order.
pub open spec fn qualifying(s: Seq<ContributorResponse>) -> Seq<ContributorResponse>
    decreases s.len(),
{
    if s.len() == 0 {
        Seq::empty()
    } else {
        let rest = qualifying(s.drop_first());
        if s[0].ty@ == "User"@ {
            seq![s[0]] + rest
        } else {
            rest
        }
    }
}

/// The URLs of a funding-link list, in order.
pub open spec fn url_list(s: Seq<FundingUrl>) -> Seq<String>
    decreases s.len(),
{
    if s.len() == 0 {
        Seq::empty()
    } else {
        seq![s[0].url] + url_list(s.drop_first())
    }
}

/// Keep only the contributors that are individual user accounts, excluding
/// bots and organizations.
pub fn qualifying_contributors(list: Vec<ContributorResponse>) -> (r: Vec<ContributorResponse>)
    ensures
        r@ == qualifying(list@),
{
    let mut list = list;
    let mut out: Vec<ContributorResponse> = Vec::new();
    let ghost orig = list@;
    proof {
        assert(out@ + qualifying(list@) =~= qualifying(orig));
    }
    while list.len() > 0
        invariant
            qualifying(orig) == out@ + qualifying(list@),
        decreases list@.len(),
    {
        let c = list.remove(0);
        let ghost cg = c;
        let ghost prev_out = out@;
        let ghost rest = list@;
        if str_eq(c.ty.as_str(), "User") {
            out.push(c);
            proof {
                assert(out@ + qualifying(rest) =~= prev_out + (seq![cg] + qualifying(rest)));
            }
        } else {
            proof {
                assert(out@ + qualifying(rest) =~= prev_out + qualifying(rest));
            }
        }
    }
    proof {
        assert(out@ + qualifying(list@) =~= out@);
    }
    out
}

/// Collect the URL of every funding link, in order.
pub fn funding_urls(links: Vec<FundingUrl>) -> (r: Vec<String>)
    ensures
        r@ == url_list(links@),
{
    let mut links = links;
    let mut out: Vec<String> = Vec::new();
    let ghost orig = links@;
    proof {
        assert(out@ + url_list(links@) =~= url_list(orig));
    }
    while links.len() > 0
        invariant
            url_list(orig) == out@ + url_list(links@),
        decreases links@.len(),
    {
        let f = links.remove(0);
        let ghost fg = f;
        let ghost prev_out = out@;
        let ghost rest = links@;
        out.push(f.url);
        proof {
            assert(out@ + url_list(rest) =~= prev_out + (seq![fg.url] + url_list(rest)));
        }
    }
    proof {
        assert(out@ + url_list(links@) =~= out@);
    }
    out
}

/// Decide whether a contributor is fundable from the platform's sponsorship
/// answer: fundable exactly when an active sponsorship listing exists, and
/// then recorded with that contributor's per-repository contribution count
/// and a distinct-crate count of one.
pub fn fundable_user(c: &ContributorResponse, resp: &UserResponse) -> (r: Option<UserFundingInfo>)
    ensures
        r is Some <==> resp.user.has_sponsors_listing,
        r matches Some(u) ==> {
            &&& u.login@ == c.login@
            &&& u.number_of_sponsors == resp.user.sponsors.total_count
            &&& u.contributions == c.contributions
            &&& u.crates == 1
        },
{
    if resp.user.has_sponsors_listing {
        Some(
            UserFundingInfo {
                login: c.login.clone(),
                number_of_sponsors: resp.user.sponsors.total_count,
                contributions: c.contributions,
                crates: 1,
            },
        )
    } else {
        None
    }
}

/// Write resolved funding links back onto the crawled entry at `i`,
/// leaving its name, repository and depth — and every other entry — as
/// they were.
pub fn set_funding_links(crates: &mut Vec<(String, CrateInfo)>, i: usize, links: Vec<String>)
    requires
        i < old(crates)@.len(),
    ensures
        final(crates)@.len() == old(crates)@.len(),
        forall|j: int|
            0 <= j < old(crates)@.len() && j != i ==> #[trigger] final(crates)@[j] == old(
                crates,
            )@[j],
        final(crates)@[i as int].0 == old(crates)@[i as int].0,
        final(crates)@[i as int].1.repository == old(crates)@[i as int].1.repository,
        final(crates)@[i as int].1.depth == old(crates)@[i as int].1.depth,
        final(crates)@[i as int].1.funding_links@ == links@,
{
    let entry = crates.remove(i);
    let (nm, info) = entry;
    let updated = CrateInfo {
        repository: info.repository,
        depth: info.depth,
        funding_links: links,
    };
    crates.insert(i, (nm, updated));
}

} // verus!
