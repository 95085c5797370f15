use nightlies::error::NightlyError;
use nightlies::locate::get_first_nightly_containing_change;
use nightlies::nightly::{
    enrich_nightlies, extract_sha_from_tag, find_nightly_by_sha, order_by_effective_time,
    parse_nightly_identifier, tags_to_nightlies, Nightly, Tag,
};
use nightlies::registry::{find_tags_by_sha, keep_nightly_tags, PageCursor};
use nightlies::repo::{
    get_commit_timestamp, print_friendly_git_may_be_stale_warning, Commit, CommitGraph, FetchPolicy,
};
use nightlies::select::{
    by_commit_time, days_before, is_within_month_distance, latest_two, older_first,
    shown_in_time_order, valid_second_choices,
};
use nightlies::time::Timestamp;

fn ts(secs: i64) -> Timestamp {
    Timestamp { secs, nanos: 0 }
}

fn tag(name: &str, pushed: i64) -> Tag {
    Tag { name: name.to_string(), last_pushed: ts(pushed), digest: format!("sha256:{pushed}") }
}

fn nightly(sha: &str, pushed: i64, commit: Option<i64>) -> Nightly {
    Nightly {
        sha: sha.to_string(),
        estimated_last_pushed: ts(pushed),
        sha_timestamp: commit.map(ts),
        tag: tag(&format!("nightly-full-main-{sha}-jmx"), pushed),
    }
}

fn commit(id: &str, time: i64, parents: Vec<usize>) -> Commit {
    Commit { id: id.to_string(), time, parents }
}

/// m (merge, tip of main) -> c3 -> b -> c1 and m -> c2 -> x -> c1.
fn sample_graph() -> CommitGraph {
    CommitGraph::new(
        vec![
            commit("aaaa0000aaaa0000", 500, vec![1, 2]),
            commit("c3c3c3c3ffff0000", 400, vec![4]),
            commit("c2c2c2c2ffff0000", 300, vec![3]),
            commit("eeee1111ffff0000", 200, vec![5]),
            commit("bbbb2222ffff0000", 150, vec![5]),
            commit("c1c1c1c1ffff0000", 100, vec![]),
        ],
        Some(0),
    )
    .unwrap()
}

#[test]
fn tag_with_identifier_yields_it() {
    let t = tag("nightly-full-main-a1b2c3d4-jmx", 0);
    assert_eq!(t.get_sha(), Some("a1b2c3d4"));
}

#[test]
fn tag_with_short_identifier_yields_none() {
    assert_eq!(tag("nightly-full-main-short-jmx", 0).get_sha(), None);
    assert_eq!(tag("nightly-full-main-a1b2c3d4e-jmx", 0).get_sha(), None);
}

#[test]
fn tag_without_role_suffix_yields_none() {
    assert_eq!(tag("nightly-full-main-a1b2c3d4-py3", 0).get_sha(), None);
    assert_eq!(tag("nightly-full-main-a1b2c3d4", 0).get_sha(), None);
    assert_eq!(tag("nightly-main-a1b2c3d4-jmx", 0).get_sha(), None);
}

#[test]
fn tag_with_more_tokens_keeps_fourth() {
    let t = tag("nightly-full-main-a1b2c3d4-extra-jmx", 0);
    assert_eq!(t.get_sha(), Some("a1b2c3d4"));
}

#[test]
fn extract_sha_from_tag_returns_owned() {
    assert_eq!(extract_sha_from_tag("nightly-full-main-0123abcd-jmx"), Some("0123abcd".to_string()));
    assert_eq!(extract_sha_from_tag("nightly-full-main-0123-jmx"), None);
}

#[test]
fn identifier_from_uri_tag_or_sha() {
    assert_eq!(
        parse_nightly_identifier("datadog/agent-dev:nightly-full-main-abcd1234-jmx"),
        Some("abcd1234".to_string())
    );
    assert_eq!(parse_nightly_identifier("nightly-full-main-abcd1234-jmx"), Some("abcd1234".to_string()));
    assert_eq!(parse_nightly_identifier("abcd1234"), Some("abcd1234".to_string()));
    assert_eq!(parse_nightly_identifier("abcd123"), None);
    assert_eq!(parse_nightly_identifier("abcd-234"), None);
    assert_eq!(parse_nightly_identifier("datadog/agent-dev:latest"), None);
}

#[test]
fn merge_adds_new_identifiers_once() {
    let g = sample_graph();
    let tags = vec![
        tag("nightly-full-main-c2c2c2c2-jmx", 310),
        tag("nightly-full-main-c2c2c2c2-jmx", 320),
        tag("nightly-full-main-bad-jmx", 330),
        tag("nightly-full-main-c3c3c3c3-jmx", 410),
    ];
    let mut ns = vec![nightly("c1c1c1c1", 110, Some(100))];
    enrich_nightlies(&tags, &mut ns, &g);
    let shas: Vec<&str> = ns.iter().map(|n| n.sha.as_str()).collect();
    assert_eq!(shas, vec!["c1c1c1c1", "c2c2c2c2", "c3c3c3c3"]);
    assert_eq!(ns[1].estimated_last_pushed, ts(310));
    assert_eq!(ns[1].sha_timestamp, Some(ts(300)));
    assert_eq!(ns[2].sha_timestamp, Some(ts(400)));
}

#[test]
fn merge_twice_is_idempotent() {
    let g = sample_graph();
    let tags = vec![
        tag("nightly-full-main-c2c2c2c2-jmx", 310),
        tag("nightly-full-main-c3c3c3c3-jmx", 410),
        tag("nightly-full-main-c3c3c3c3-jmx", 420),
    ];
    let mut once = vec![nightly("c1c1c1c1", 110, Some(100))];
    enrich_nightlies(&tags, &mut once, &g);
    let mut twice = once.clone();
    enrich_nightlies(&tags, &mut twice, &g);
    assert_eq!(once.len(), 3);
    assert_eq!(twice.len(), once.len());
    for (a, b) in once.iter().zip(twice.iter()) {
        assert_eq!(a.sha, b.sha);
        assert_eq!(a.estimated_last_pushed, b.estimated_last_pushed);
    }
}

#[test]
fn merge_keeps_existing_nightlies_unchanged() {
    let g = sample_graph();
    let tags = vec![tag("nightly-full-main-c1c1c1c1-jmx", 999), tag("nightly-full-main-c2c2c2c2-jmx", 310)];
    let mut ns = vec![nightly("c1c1c1c1", 110, None)];
    enrich_nightlies(&tags, &mut ns, &g);
    assert_eq!(ns.len(), 2);
    assert_eq!(ns[0].sha, "c1c1c1c1");
    assert_eq!(ns[0].estimated_last_pushed, ts(110));
    assert_eq!(ns[0].sha_timestamp, None);
}

#[test]
fn merge_without_commit_keeps_nightly_without_time() {
    let g = sample_graph();
    let tags = vec![tag("nightly-full-main-12345678-jmx", 700)];
    let mut ns = Vec::new();
    enrich_nightlies(&tags, &mut ns, &g);
    assert_eq!(ns.len(), 1);
    assert_eq!(ns[0].sha_timestamp, None);
    assert_eq!(ns[0].estimated_last_pushed, ts(700));
}

#[test]
fn find_nightly_by_sha_finds_first() {
    let ns = vec![nightly("c1c1c1c1", 1, None), nightly("c2c2c2c2", 2, None)];
    assert_eq!(find_nightly_by_sha(&ns, "c2c2c2c2").map(|n| n.estimated_last_pushed), Some(ts(2)));
    assert!(find_nightly_by_sha(&ns, "c3c3c3c3").is_none());
}

#[test]
fn effective_time_prefers_commit_time() {
    let without = nightly("c1c1c1c1", 500, None);
    let with = nightly("c2c2c2c2", 100, Some(900));
    assert_eq!(without.effective_timestamp(), ts(500));
    assert_eq!(with.effective_timestamp(), ts(900));
    let ns = vec![with, without, nightly("c3c3c3c3", 950, Some(200))];
    assert_eq!(order_by_effective_time(&ns, false), vec![2, 1, 0]);
    assert_eq!(order_by_effective_time(&ns, true), vec![0, 1, 2]);
}

#[test]
fn order_keeps_equal_times_in_place() {
    let ns = vec![nightly("a", 5, None), nightly("b", 3, None), nightly("c", 5, None)];
    assert_eq!(order_by_effective_time(&ns, false), vec![1, 0, 2]);
    assert_eq!(order_by_effective_time(&ns, true), vec![0, 2, 1]);
}

#[test]
fn first_nightly_containing_change_is_earliest_descendant() {
    let g = sample_graph();
    let ns = vec![
        nightly("c3c3c3c3", 410, Some(400)),
        nightly("c2c2c2c2", 310, Some(300)),
        nightly("c1c1c1c1", 110, Some(100)),
    ];
    let found = get_first_nightly_containing_change(&g, &ns, "eeee1111").unwrap();
    assert_eq!(found.sha, "c2c2c2c2");
}

#[test]
fn first_nightly_containing_change_uses_push_time_fallback() {
    let g = sample_graph();
    let ns = vec![nightly("c3c3c3c3", 410, None), nightly("c2c2c2c2", 150, None)];
    // c2's push time lies before the change, so only c3 is tried, and it
    // does not contain the change.
    match get_first_nightly_containing_change(&g, &ns, "eeee1111") {
        Err(NightlyError::NoNightlyContaining(s)) => assert_eq!(s, "eeee1111"),
        other => panic!("unexpected {other:?}"),
    }
}

#[test]
fn change_absent_from_every_nightly_is_not_found() {
    let g = sample_graph();
    let ns = vec![nightly("c3c3c3c3", 410, Some(400)), nightly("c1c1c1c1", 110, Some(100))];
    match get_first_nightly_containing_change(&g, &ns, "eeee1111") {
        Err(NightlyError::NoNightlyContaining(_)) => {}
        other => panic!("unexpected {other:?}"),
    }
}

#[test]
fn unknown_change_reports_stale_checkout() {
    let g = sample_graph();
    let ns = vec![nightly("c3c3c3c3", 410, Some(400))];
    match get_first_nightly_containing_change(&g, &ns, "99999999") {
        Err(NightlyError::StaleCheckout(s)) => assert_eq!(s, "99999999"),
        other => panic!("unexpected {other:?}"),
    }
}

#[test]
fn change_off_main_is_reported() {
    let g = CommitGraph::new(
        vec![commit("aaaa0000", 20, vec![2]), commit("bbbb0000", 30, vec![2]), commit("cccc0000", 10, vec![])],
        Some(0),
    )
    .unwrap();
    match get_commit_timestamp(&g, "bbbb") {
        Err(NightlyError::NotOnMainBranch(s)) => assert_eq!(s, "bbbb"),
        other => panic!("unexpected {other:?}"),
    }
    assert_eq!(get_commit_timestamp(&g, "cccc").unwrap(), ts(10));
}

#[test]
fn commit_time_out_of_range_is_a_parse_error() {
    let g = CommitGraph::new(vec![commit("aaaa0000", i64::MAX, vec![])], Some(0)).unwrap();
    match get_commit_timestamp(&g, "aaaa") {
        Err(NightlyError::DateParseError(s)) => assert_eq!(s, "aaaa"),
        other => panic!("unexpected {other:?}"),
    }
}

#[test]
fn ambiguous_or_short_identifier_does_not_resolve() {
    let g = sample_graph();
    assert_eq!(g.resolve("c3c3"), Some(1));
    assert_eq!(g.resolve("c3c"), None);
    let twins =
        CommitGraph::new(vec![commit("abcd0001", 1, vec![]), commit("abcd0002", 1, vec![])], None).unwrap();
    assert_eq!(twins.resolve("abcd"), None);
    assert_eq!(twins.resolve("abcd0002"), Some(1));
}

#[test]
fn ancestry_follows_parent_edges() {
    let g = sample_graph();
    assert!(g.is_ancestor(3, 2));
    assert!(g.is_ancestor(5, 1));
    assert!(g.is_ancestor(3, 0));
    assert!(g.is_ancestor(1, 1));
    assert!(!g.is_ancestor(3, 1));
    assert!(!g.is_ancestor(4, 2));
    assert!(!g.is_ancestor(0, 5));
}

#[test]
fn graph_rejects_bad_shape() {
    assert!(CommitGraph::new(vec![commit("aaaa", 1, vec![0])], None).is_none());
    assert!(CommitGraph::new(vec![commit("aaaa", 1, vec![1])], None).is_none());
    assert!(CommitGraph::new(vec![commit("aaaa", 1, vec![])], Some(1)).is_none());
    assert!(CommitGraph::new(vec![commit("bbbb", 2, vec![1]), commit("aaaa", 1, vec![])], Some(0)).is_some());
}

#[test]
fn weekend_builds_by_push_date() {
    // 2024-06-01T00:00:00Z was a Saturday, 2024-06-03 a Monday.
    assert!(nightly("a", 1_717_200_000, None).is_weekend_build());
    assert!(nightly("a", 1_717_200_000 + 86_400 + 3_600, None).is_weekend_build());
    assert!(!nightly("a", 1_717_200_000 + 2 * 86_400, None).is_weekend_build());
    // The epoch was a Thursday; the second before it a Wednesday.
    assert!(!ts(0).is_weekend());
    assert!(!ts(-1).is_weekend());
    assert!(ts(2 * 86_400).is_weekend());
}

#[test]
fn latest_two_skips_weekends_unless_included() {
    let sat = 1_717_200_000;
    let ns = vec![
        nightly("fri", sat - 86_400, None),
        nightly("sat", sat + 10, None),
        nightly("thu", sat - 2 * 86_400, None),
    ];
    assert_eq!(latest_two(&ns, false).unwrap(), (0, 2));
    assert_eq!(latest_two(&ns, true).unwrap(), (1, 0));
    let one = vec![nightly("sat", sat, None), nightly("fri", sat - 86_400, None)];
    assert!(matches!(latest_two(&one, false), Err(NightlyError::NotEnoughNightlies)));
}

#[test]
fn listing_after_cutoff_oldest_first() {
    let now = ts(1_717_200_000 + 5 * 86_400);
    let cutoff = days_before(now, 7);
    assert_eq!(cutoff, ts(1_717_200_000 - 2 * 86_400));
    let ns = vec![
        nightly("new", 1_717_200_000 + 3 * 86_400, None),
        nightly("old", 1_717_200_000 - 9 * 86_400, None),
        nightly("sat", 1_717_200_000, None),
        nightly("mid", 1_717_200_000 - 86_400, None),
    ];
    assert_eq!(shown_in_time_order(&ns, false, Some(cutoff), false), vec![3, 0]);
    assert_eq!(shown_in_time_order(&ns, true, Some(cutoff), false), vec![3, 2, 0]);
    assert_eq!(shown_in_time_order(&ns, true, None, true), vec![0, 2, 3, 1]);
}

#[test]
fn month_distance_limits_second_choice() {
    let day = 86_400;
    let ns = vec![nightly("a", 0, None), nightly("b", 30 * day, None), nightly("c", 31 * day, None)];
    assert!(is_within_month_distance(&ns[1], &ns[0]));
    assert!(!is_within_month_distance(&ns[2], &ns[0]));
    let listed = vec![0, 1, 2];
    assert_eq!(valid_second_choices(&ns, &listed, 0), vec![1]);
    assert_eq!(valid_second_choices(&ns, &listed, 1), vec![0, 2]);
}

#[test]
fn older_first_orders_pair() {
    let a = nightly("aaaa", 10, Some(50));
    let b = nightly("bbbb", 20, None);
    assert_eq!(older_first(&a, &b), ("bbbb".to_string(), "aaaa".to_string()));
    assert_eq!(older_first(&b, &a), ("bbbb".to_string(), "aaaa".to_string()));
}

#[test]
fn latest_by_commit_time_puts_unknown_first() {
    let ns = vec![nightly("a", 900, None), nightly("b", 1, Some(30)), nightly("c", 2, Some(20))];
    assert_eq!(by_commit_time(&ns), vec![0, 2, 1]);
}

#[test]
fn tags_to_nightlies_newest_push_first() {
    let g = sample_graph();
    let tags = vec![
        tag("nightly-full-main-c1c1c1c1-jmx", 110),
        tag("nightly-full-main-junk-jmx", 999),
        tag("nightly-full-main-c3c3c3c3-jmx", 410),
        tag("nightly-full-main-c2c2c2c2-jmx", 310),
    ];
    let ns = tags_to_nightlies(&tags, &g);
    let shas: Vec<&str> = ns.iter().map(|n| n.sha.as_str()).collect();
    assert_eq!(shas, vec!["c3c3c3c3", "c2c2c2c2", "c1c1c1c1"]);
    assert_eq!(ns[2].sha_timestamp, Some(ts(100)));
}

#[test]
fn tags_to_nightlies_one_per_identifier() {
    let g = sample_graph();
    let tags = vec![
        tag("nightly-full-main-c2c2c2c2-jmx", 310),
        tag("nightly-full-main-c3c3c3c3-jmx", 410),
        tag("nightly-full-main-c2c2c2c2-jmx", 900),
    ];
    let ns = tags_to_nightlies(&tags, &g);
    let shas: Vec<&str> = ns.iter().map(|n| n.sha.as_str()).collect();
    assert_eq!(shas, vec!["c3c3c3c3", "c2c2c2c2"]);
    assert_eq!(ns[1].estimated_last_pushed, ts(310));
}

#[test]
fn equal_times_pick_the_first_listed() {
    let g = sample_graph();
    let both = CommitGraph::new(
        vec![
            commit("aaaa0000aaaa0000", 500, vec![1, 2]),
            commit("c3c3c3c3ffff0000", 300, vec![3]),
            commit("c2c2c2c2ffff0000", 300, vec![3]),
            commit("eeee1111ffff0000", 200, vec![]),
        ],
        Some(0),
    )
    .unwrap();
    let ns = vec![nightly("c3c3c3c3", 999, Some(300)), nightly("c2c2c2c2", 1, Some(300))];
    assert_eq!(get_first_nightly_containing_change(&both, &ns, "eeee1111").unwrap().sha, "c3c3c3c3");
    // A different push time does not matter once the commit time is known.
    let moved = vec![nightly("c3c3c3c3", 1, Some(300)), nightly("c2c2c2c2", 999, Some(300))];
    assert_eq!(get_first_nightly_containing_change(&both, &moved, "eeee1111").unwrap().sha, "c3c3c3c3");
    assert!(g.is_ancestor(5, 0));
}

#[test]
fn registry_keeps_only_nightly_tags() {
    let tags = vec![
        tag("nightly-full-main-abcd1234-jmx", 1),
        tag("nightly-full-main-abcd1234-py3", 2),
        tag("nightly-full-main-abc-jmx", 3),
        tag("latest", 4),
    ];
    let kept = keep_nightly_tags(&tags);
    assert_eq!(kept.len(), 1);
    assert_eq!(kept[0].name, "nightly-full-main-abcd1234-jmx");
    let found = find_tags_by_sha(&tags, "abcd1234");
    assert_eq!(found.len(), 2);
    assert_eq!(found[1].last_pushed, ts(2));
}

#[test]
fn paging_stops_at_limit_or_last_page() {
    let mut cursor = PageCursor::new("first".to_string(), 2);
    assert_eq!(cursor.next_request(), Some("first".to_string()));
    cursor.record_page(Some("second".to_string()));
    assert_eq!(cursor.next_request(), Some("second".to_string()));
    cursor.record_page(Some("third".to_string()));
    assert_eq!(cursor.next_request(), None);

    let mut short = PageCursor::new("first".to_string(), 5);
    short.record_page(None);
    assert_eq!(short.next_request(), None);
    assert_eq!(PageCursor::new("first".to_string(), 0).next_request(), None);
}

#[test]
fn fetch_policy_cooldown() {
    let now = ts(10_000);
    let policy = FetchPolicy::new(false, false);
    assert!(policy.fetch_due(None, now));
    assert!(policy.fetch_due(Some("not a number"), now));
    assert!(!policy.fetch_due(Some("9800\n"), now));
    assert!(!policy.fetch_due(Some("9700"), now));
    assert!(policy.fetch_due(Some("9699"), now));
    assert!(policy.fetch_due(Some("10001"), now));
    assert!(!policy.fetch_due(Some("+9800"), now));
    assert!(policy.fetch_due(Some("+"), now));
    assert!(policy.needs_marker());
    assert!(!FetchPolicy::new(false, true).needs_marker());
    assert!(!FetchPolicy::new(true, true).fetch_due(None, now));
    assert!(FetchPolicy::new(false, true).fetch_due(Some("9999"), now));
}

#[test]
fn stale_warning_names_checkout() {
    let msg = print_friendly_git_may_be_stale_warning("abcd1234", "/src/agent");
    assert_eq!(
        msg,
        "Could not find the target commit: abcd1234 on 'main' of your datadog-agent checkout at /src/agent\n\
         Consider running 'git -C /src/agent fetch --all --tags'"
    );
}

#[test]
fn timestamp_rejects_bad_parts() {
    assert!(Timestamp::new(1, 1_000_000_000).is_none());
    assert!(Timestamp::new(9_000_000_000_000, 0).is_none());
    assert_eq!(Timestamp::new(-5, 7), Some(Timestamp { secs: -5, nanos: 7 }));
    assert!(ts(1).not_after(&ts(1)));
    assert!(!Timestamp { secs: 1, nanos: 2 }.not_after(&Timestamp { secs: 1, nanos: 1 }));
}
