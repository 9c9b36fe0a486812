use fundamental::funding::{
    fundable_user, funding_urls, qualifying_contributors, set_funding_links, ContributorResponse,
    FundingUrl, GraphQlResponse, RepositoryResponse, RepoFundingResponse, SponsorsCount,
    UserResponse, UserSponsorsResponse,
};
use fundamental::locator::CrateInfo;

fn contributor(login: &str, ty: &str, contributions: usize) -> ContributorResponse {
    ContributorResponse {
        login: login.to_string(),
        url: format!("https://api.example.com/users/{}", login),
        ty: ty.to_string(),
        contributions,
    }
}

#[test]
fn only_individual_users_qualify() {
    let list = vec![
        contributor("alice", "User", 10),
        contributor("deploy-bot", "Bot", 400),
        contributor("acme", "Organization", 3),
        contributor("bob", "User", 2),
    ];
    let users = qualifying_contributors(list);
    assert_eq!(users.len(), 2);
    assert_eq!(users[0].login, "alice");
    assert_eq!(users[1].login, "bob");
}

#[test]
fn funding_urls_are_collected_in_order() {
    let links = vec![
        FundingUrl { url: "https://github.com/sponsors/acme".to_string() },
        FundingUrl { url: "https://patreon.com/acme".to_string() },
    ];
    let urls = funding_urls(links);
    assert_eq!(
        urls,
        vec![
            "https://github.com/sponsors/acme".to_string(),
            "https://patreon.com/acme".to_string(),
        ]
    );
}

#[test]
fn listed_contributor_is_fundable() {
    let c = contributor("alice", "User", 10);
    let resp = UserResponse {
        user: UserSponsorsResponse {
            has_sponsors_listing: true,
            sponsors: SponsorsCount { total_count: 14 },
        },
    };
    let u = fundable_user(&c, &resp).unwrap();
    assert_eq!(u.login, "alice");
    assert_eq!(u.number_of_sponsors, 14);
    assert_eq!(u.contributions, 10);
    assert_eq!(u.crates, 1);
}

#[test]
fn unlisted_contributor_is_not_fundable() {
    let c = contributor("bob", "User", 2);
    let resp = UserResponse {
        user: UserSponsorsResponse {
            has_sponsors_listing: false,
            sponsors: SponsorsCount { total_count: 0 },
        },
    };
    assert!(fundable_user(&c, &resp).is_none());
}

#[test]
fn graphql_envelope_carries_the_funding_links() {
    let resp = GraphQlResponse {
        data: RepositoryResponse {
            repository: RepoFundingResponse {
                funding_links: vec![FundingUrl { url: "https://pay.me/x".to_string() }],
            },
        },
    };
    let urls = funding_urls(resp.data.repository.funding_links);
    assert_eq!(urls, vec!["https://pay.me/x".to_string()]);
}

#[test]
fn resolved_links_are_written_back_in_place() {
    let mut crates = vec![
        (
            "alpha".to_string(),
            CrateInfo {
                repository: Some("https://github.com/acme/alpha".to_string()),
                depth: 0,
                funding_links: vec![],
            },
        ),
        (
            "beta".to_string(),
            CrateInfo {
                repository: Some("https://github.com/acme/beta".to_string()),
                depth: 1,
                funding_links: vec![],
            },
        ),
    ];
    set_funding_links(&mut crates, 1, vec!["https://pay.me/beta".to_string()]);
    assert_eq!(crates[0].1.funding_links.len(), 0);
    assert_eq!(crates[1].1.funding_links, vec!["https://pay.me/beta".to_string()]);
    assert_eq!(crates[1].0, "beta");
    assert_eq!(crates[1].1.depth, 1);
}
