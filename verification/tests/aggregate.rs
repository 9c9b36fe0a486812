use fundamental::aggregate::FundingAggregator;
use fundamental::funding::UserFundingInfo;
use fundamental::locator::CrateInfo;

fn rec(login: &str, sponsors: usize, contributions: usize) -> UserFundingInfo {
    UserFundingInfo {
        login: login.to_string(),
        number_of_sponsors: sponsors,
        contributions,
        crates: 1,
    }
}

#[test]
fn shared_repository_contributions_are_merged() {
    // "beta" and "delta" both point at https://github.com/acme/widget;
    // alice has 10 contributions on one and 5 on the other, with a
    // platform-wide sponsor count of 3.
    let beta = CrateInfo {
        repository: Some("https://github.com/acme/widget".to_string()),
        depth: 1,
        funding_links: vec![],
    };
    let delta = CrateInfo {
        repository: Some("https://github.com/acme/widget".to_string()),
        depth: 2,
        funding_links: vec![],
    };
    assert_eq!(beta.owner(), Some("acme"));
    assert_eq!(delta.owner(), Some("acme"));
    assert_eq!(beta.name(), Some("widget"));

    let mut agg = FundingAggregator::new();
    assert!(agg.try_add_record(rec("alice", 3, 10)));
    assert!(agg.try_add_record(rec("alice", 3, 5)));
    assert_eq!(agg.len(), 1);
    let alice = agg.get("alice").unwrap();
    assert_eq!(alice.contributions, 15);
    assert_eq!(alice.crates, 2);
    assert_eq!(alice.number_of_sponsors, 3);
}

#[test]
fn aggregation_order_does_not_change_totals() {
    let r1 = rec("alice", 3, 10);
    let r2 = rec("bob", 7, 4);
    let r3 = rec("alice", 3, 5);

    let mut one = FundingAggregator::new();
    assert!(one.try_add_record(r1.clone()));
    assert!(one.try_add_record(r2.clone()));
    assert!(one.try_add_record(r3.clone()));

    let mut other = FundingAggregator::new();
    assert!(other.try_add_record(r3));
    assert!(other.try_add_record(r2));
    assert!(other.try_add_record(r1));

    for login in ["alice", "bob"] {
        let a = one.get(login).unwrap();
        let b = other.get(login).unwrap();
        assert_eq!(a.contributions, b.contributions);
        assert_eq!(a.crates, b.crates);
    }
    assert_eq!(one.get("alice").unwrap().contributions, 15);
    assert_eq!(one.get("alice").unwrap().crates, 2);
    assert_eq!(one.get("bob").unwrap().contributions, 4);
    assert_eq!(one.get("bob").unwrap().crates, 1);
}

#[test]
fn applying_the_same_record_twice_double_counts() {
    let mut agg = FundingAggregator::new();
    assert!(agg.try_add_record(rec("carol", 2, 8)));
    assert!(agg.try_add_record(rec("carol", 2, 8)));
    let carol = agg.get("carol").unwrap();
    assert_eq!(carol.contributions, 16);
    assert_eq!(carol.crates, 2);
    assert_eq!(carol.number_of_sponsors, 2);
}

#[test]
fn sponsor_count_is_overwritten_not_summed() {
    let mut agg = FundingAggregator::new();
    assert!(agg.try_add_record(rec("dan", 4, 1)));
    assert!(agg.try_add_record(rec("dan", 9, 1)));
    let dan = agg.get("dan").unwrap();
    assert_eq!(dan.number_of_sponsors, 9);
    assert_eq!(dan.contributions, 2);
}

#[test]
fn unseen_login_is_seeded_with_one_crate() {
    let mut agg = FundingAggregator::new();
    assert!(agg.try_add_record(rec("erin", 0, 12)));
    let erin = agg.get("erin").unwrap();
    assert_eq!(erin.contributions, 12);
    assert_eq!(erin.crates, 1);
    assert_eq!(erin.number_of_sponsors, 0);
    assert!(agg.get("nobody").is_none());
}

#[test]
fn overflowing_merge_is_refused_and_state_kept() {
    let mut agg = FundingAggregator::new();
    assert!(agg.try_add_record(rec("frank", 1, usize::MAX)));
    assert!(!agg.try_add_record(rec("frank", 1, 1)));
    let frank = agg.get("frank").unwrap();
    assert_eq!(frank.contributions, usize::MAX);
    assert_eq!(frank.crates, 1);
}

#[test]
fn into_users_keeps_first_appearance_order() {
    let mut agg = FundingAggregator::new();
    assert!(agg.try_add_record(rec("zoe", 1, 1)));
    assert!(agg.try_add_record(rec("al", 1, 1)));
    assert!(agg.try_add_record(rec("zoe", 1, 2)));
    let users = agg.into_users();
    assert_eq!(users.len(), 2);
    assert_eq!(users[0].login, "zoe");
    assert_eq!(users[1].login, "al");
}
