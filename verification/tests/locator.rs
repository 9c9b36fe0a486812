use fundamental::locator::CrateInfo;

fn info(url: Option<&str>, depth: usize) -> CrateInfo {
    CrateInfo {
        repository: url.map(|s| s.to_string()),
        depth,
        funding_links: vec![],
    }
}

#[test]
fn github_url_is_classified() {
    let c = info(Some("https://github.com/acme/widget"), 0);
    assert!(c.is_github());
}

#[test]
fn other_host_is_not_classified() {
    let c = info(Some("https://gitlab.com/acme/widget"), 0);
    assert!(!c.is_github());
}

#[test]
fn missing_url_is_not_classified() {
    let c = info(None, 0);
    assert!(!c.is_github());
    assert_eq!(c.owner(), None);
    assert_eq!(c.name(), None);
}

#[test]
fn owner_and_name_are_last_two_segments() {
    let c = info(Some("https://github.com/acme/widget"), 0);
    assert_eq!(c.owner(), Some("acme"));
    assert_eq!(c.name(), Some("widget"));
}

#[test]
fn url_without_separator_has_no_owner() {
    let c = info(Some("badurl"), 0);
    assert_eq!(c.owner(), None);
    assert_eq!(c.name(), Some("badurl"));
}

#[test]
fn single_separator_yields_owner_and_name() {
    let c = info(Some("acme/widget"), 0);
    assert_eq!(c.owner(), Some("acme"));
    assert_eq!(c.name(), Some("widget"));
}

#[test]
fn trailing_separator_shifts_segments() {
    let c = info(Some("https://github.com/acme/widget/"), 0);
    assert_eq!(c.owner(), Some("widget"));
    assert_eq!(c.name(), Some(""));
}
