use fundamental::funding::UserFundingInfo;
use fundamental::locator::CrateInfo;
use fundamental::rank::{
    crate_value_list, fundable_crates, rank_users, sort_crates_by_depth, SortBehaviour, SortBy,
};

fn user(login: &str, sponsors: usize, contributions: usize) -> UserFundingInfo {
    UserFundingInfo {
        login: login.to_string(),
        number_of_sponsors: sponsors,
        contributions,
        crates: 1,
    }
}

fn crate_at(url: &str, depth: usize, links: Vec<String>) -> CrateInfo {
    CrateInfo {
        repository: Some(url.to_string()),
        depth,
        funding_links: links,
    }
}

#[test]
fn sponsors_sort_defaults_to_ascending() {
    // sort_by = sponsors with no explicit ordering: lowest sponsor count
    // comes first.
    let users = vec![user("a", 5, 1), user("b", 1, 2), user("c", 3, 3)];
    let ranked = rank_users(users, Some(SortBy::Sponsors), None);
    let logins: Vec<&str> = ranked.iter().map(|u| u.login.as_str()).collect();
    assert_eq!(logins, vec!["b", "c", "a"]);
}

#[test]
fn contributions_sort_defaults_to_descending() {
    let users = vec![user("a", 0, 5), user("b", 0, 9), user("c", 0, 1)];
    let ranked = rank_users(users, None, None);
    let logins: Vec<&str> = ranked.iter().map(|u| u.login.as_str()).collect();
    assert_eq!(logins, vec!["b", "a", "c"]);
}

#[test]
fn explicit_ordering_wins_over_the_default() {
    let users = vec![user("a", 0, 5), user("b", 0, 9), user("c", 0, 1)];
    let ranked = rank_users(users, Some(SortBy::Contributions), Some(SortBehaviour::Ascending));
    let logins: Vec<&str> = ranked.iter().map(|u| u.login.as_str()).collect();
    assert_eq!(logins, vec!["c", "a", "b"]);
}

#[test]
fn equal_keys_keep_insertion_order() {
    let users = vec![user("first", 2, 7), user("second", 2, 7), user("third", 2, 3)];
    let ranked = rank_users(users, Some(SortBy::Sponsors), Some(SortBehaviour::Ascending));
    let logins: Vec<&str> = ranked.iter().map(|u| u.login.as_str()).collect();
    assert_eq!(logins, vec!["first", "second", "third"]);
}

#[test]
fn crates_sort_by_depth_ascending_and_stable() {
    let mut crates = vec![
        crate_at("https://github.com/x/deep", 2, vec![]),
        crate_at("https://github.com/x/root", 0, vec![]),
        crate_at("https://github.com/x/one_a", 1, vec![]),
        crate_at("https://github.com/x/one_b", 1, vec![]),
    ];
    sort_crates_by_depth(&mut crates);
    let urls: Vec<&str> = crates.iter().map(|c| c.repository.as_deref().unwrap()).collect();
    assert_eq!(
        urls,
        vec![
            "https://github.com/x/root",
            "https://github.com/x/one_a",
            "https://github.com/x/one_b",
            "https://github.com/x/deep",
        ]
    );
}

#[test]
fn only_crates_with_funding_links_are_listed() {
    let crates = vec![
        crate_at("https://github.com/x/a", 0, vec!["https://pay.me/a".to_string()]),
        crate_at("https://github.com/x/b", 1, vec![]),
        crate_at("https://github.com/x/c", 2, vec!["https://pay.me/c".to_string()]),
    ];
    let funded = fundable_crates(crates);
    assert_eq!(funded.len(), 2);
    assert_eq!(funded[0].repository.as_deref(), Some("https://github.com/x/a"));
    assert_eq!(funded[1].repository.as_deref(), Some("https://github.com/x/c"));
}

#[test]
fn crate_values_keep_map_order() {
    let list = vec![
        ("root".to_string(), crate_at("https://github.com/x/root", 0, vec![])),
        ("leaf".to_string(), crate_at("https://github.com/x/leaf", 1, vec![])),
    ];
    let values = crate_value_list(list);
    assert_eq!(values.len(), 2);
    assert_eq!(values[0].depth, 0);
    assert_eq!(values[1].depth, 1);
}
