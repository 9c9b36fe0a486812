use fundamental::crawler::{child_names, Crawler, DependencyInfo};

fn dep(name: &str, kind: &str) -> DependencyInfo {
    DependencyInfo {
        crate_id: name.to_string(),
        kind: kind.to_string(),
    }
}

#[test]
fn dev_dependencies_are_filtered_out() {
    let deps = vec![dep("beta", "normal"), dep("gamma", "dev")];
    let children = child_names(deps, false);
    assert_eq!(children, vec!["beta".to_string()]);
}

#[test]
fn dev_dependencies_are_kept_when_asked() {
    let deps = vec![dep("beta", "normal"), dep("gamma", "dev")];
    let children = child_names(deps, true);
    assert_eq!(children, vec!["beta".to_string(), "gamma".to_string()]);
}

#[test]
fn depth_bounded_crawl_of_alpha() {
    // Root "alpha" declares "beta" (normal) and "gamma" (dev only); with
    // dev dependencies excluded and a maximum depth of one, the result is
    // alpha at depth 0 and beta at depth 1, and gamma is absent.
    let mut crawler = Crawler::new("alpha".to_string(), 1);
    let (name, depth) = crawler.pop().unwrap();
    assert_eq!(name, "alpha");
    assert_eq!(depth, 0);
    let children = child_names(vec![dep("beta", "normal"), dep("gamma", "dev")], false);
    crawler.on_fetch_success(name, depth, Some("https://example.com/a/alpha".to_string()), children);

    let (name, depth) = crawler.pop().unwrap();
    assert_eq!(name, "beta");
    assert_eq!(depth, 1);
    crawler.on_fetch_success(name, depth, None, vec![]);

    assert!(crawler.pop().is_none());
    assert_eq!(crawler.crate_count(), 2);
    assert_eq!(crawler.get_depth("alpha"), Some(0));
    assert_eq!(crawler.get_depth("beta"), Some(1));
    assert_eq!(crawler.get_depth("gamma"), None);
}

#[test]
fn cyclic_graph_terminates_with_each_package_once() {
    // A depends on B and B depends back on A; the crawl terminates and each
    // of A and B appears exactly once in the result.
    let mut crawler = Crawler::new("a".to_string(), 100);
    let mut steps = 0usize;
    while let Some((name, depth)) = crawler.pop() {
        steps += 1;
        assert!(steps <= 2, "crawl did not terminate on a cycle");
        let children = if name == "a" {
            vec!["b".to_string()]
        } else {
            vec!["a".to_string()]
        };
        crawler.on_fetch_success(name, depth, None, children);
    }
    assert_eq!(crawler.crate_count(), 2);
    assert_eq!(crawler.get_depth("a"), Some(0));
    assert_eq!(crawler.get_depth("b"), Some(1));
}

#[test]
fn maximum_depth_zero_keeps_only_the_root() {
    let mut crawler = Crawler::new("alpha".to_string(), 0);
    let (name, depth) = crawler.pop().unwrap();
    crawler.on_fetch_success(name, depth, None, vec!["beta".to_string()]);
    assert!(crawler.pop().is_none());
    assert_eq!(crawler.crate_count(), 1);
    assert_eq!(crawler.get_depth("beta"), None);
}

#[test]
fn duplicate_children_are_enqueued_once() {
    let mut crawler = Crawler::new("root".to_string(), 10);
    let (name, depth) = crawler.pop().unwrap();
    crawler.on_fetch_success(
        name,
        depth,
        None,
        vec!["child".to_string(), "child".to_string()],
    );
    let (name, depth) = crawler.pop().unwrap();
    assert_eq!(name, "child");
    assert_eq!(depth, 1);
    crawler.on_fetch_success(name, depth, None, vec![]);
    assert!(crawler.pop().is_none());
    assert_eq!(crawler.crate_count(), 2);
}

#[test]
fn membership_queries_track_the_crawl() {
    let mut crawler = Crawler::new("root".to_string(), 10);
    assert!(crawler.pending_contains("root"));
    assert!(!crawler.has_crate_named("root"));
    let (name, depth) = crawler.pop().unwrap();
    assert!(!crawler.pending_contains("root"));
    crawler.on_fetch_success(name, depth, None, vec!["b".to_string()]);
    assert!(crawler.has_crate_named("root"));
    assert!(crawler.pending_contains("b"));
    assert!(!crawler.has_crate_named("b"));
}

#[test]
fn queue_is_popped_from_the_end() {
    let mut crawler = Crawler::new("root".to_string(), 10);
    let (name, depth) = crawler.pop().unwrap();
    crawler.on_fetch_success(name, depth, None, vec!["b".to_string(), "c".to_string()]);
    let (first, _) = crawler.pop().unwrap();
    assert_eq!(first, "c");
}

#[test]
fn failed_fetch_abandons_the_package() {
    let mut crawler = Crawler::new("root".to_string(), 10);
    let (name, depth) = crawler.pop().unwrap();
    crawler.on_fetch_success(name, depth, None, vec!["broken".to_string()]);
    let (name, _depth) = crawler.pop().unwrap();
    assert_eq!(name, "broken");
    // The fetch fails: the caller records nothing and enqueues nothing.
    assert!(crawler.pop().is_none());
    assert_eq!(crawler.crate_count(), 1);
    assert_eq!(crawler.get_depth("broken"), None);
}

#[test]
fn into_crates_keeps_insertion_order() {
    let mut crawler = Crawler::new("root".to_string(), 10);
    let (name, depth) = crawler.pop().unwrap();
    crawler.on_fetch_success(name, depth, None, vec!["b".to_string()]);
    let (name, depth) = crawler.pop().unwrap();
    crawler.on_fetch_success(name, depth, None, vec![]);
    let crates = crawler.into_crates();
    assert_eq!(crates.len(), 2);
    assert_eq!(crates[0].0, "root");
    assert_eq!(crates[1].0, "b");
    assert_eq!(crates[0].1.depth, 0);
    assert_eq!(crates[1].1.depth, 1);
}
