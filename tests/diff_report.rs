use nightlies::diff::{add_component_diff_to_report, compare_components, ComponentDiff, ComponentStatus};
use nightlies::report::{
    get_commit_stats, line_counts, log_entry_from, parse_commit_log, parse_log_line, render_diff_report,
};
use nightlies::text::{decimal, parse_u32, parse_u64, split_lines, text_lt, trim};

fn manifest(entries: &[(&str, &str)]) -> Vec<(String, String)> {
    entries.iter().map(|(n, v)| (n.to_string(), v.to_string())).collect()
}

#[test]
fn dependency_diff_classifies_each_name() {
    let base = manifest(&[("a", "1.0"), ("b", "2.0")]);
    let comparison = manifest(&[("a", "1.0"), ("c", "3.0")]);
    let diffs = compare_components(&base, &comparison);
    let names: Vec<&str> = diffs.iter().map(|d| d.name.as_str()).collect();
    assert_eq!(names, vec!["a", "b", "c"]);
    assert_eq!(diffs[0].status, ComponentStatus::Same);
    assert_eq!(diffs[1].status, ComponentStatus::Removed);
    assert_eq!(diffs[1].base_version.as_deref(), Some("2.0"));
    assert_eq!(diffs[1].comparison_version, None);
    assert_eq!(diffs[2].status, ComponentStatus::Added);
    assert_eq!(diffs[2].comparison_version.as_deref(), Some("3.0"));
}

#[test]
fn dependency_diff_detects_update_and_sorts() {
    let base = manifest(&[("zeta", "1"), ("alpha", "7.1"), ("Beta", "x")]);
    let comparison = manifest(&[("alpha", "7.2"), ("zeta", "1"), ("Beta", "x")]);
    let diffs = compare_components(&base, &comparison);
    let names: Vec<&str> = diffs.iter().map(|d| d.name.as_str()).collect();
    assert_eq!(names, vec!["Beta", "alpha", "zeta"]);
    assert_eq!(diffs[1].status, ComponentStatus::Updated);
    assert_eq!(diffs[1].base_version.as_deref(), Some("7.1"));
    assert_eq!(diffs[1].comparison_version.as_deref(), Some("7.2"));
}

#[test]
fn dependency_diff_of_empty_manifests_is_empty() {
    assert!(compare_components(&Vec::new(), &Vec::new()).is_empty());
}

#[test]
fn component_section_lists_changes_only() {
    let diffs = vec![
        ComponentDiff { name: "a".into(), base_version: Some("1".into()), comparison_version: Some("1".into()), status: ComponentStatus::Same },
        ComponentDiff { name: "b".into(), base_version: Some("1".into()), comparison_version: Some("2".into()), status: ComponentStatus::Updated },
        ComponentDiff { name: "c".into(), base_version: None, comparison_version: Some("3".into()), status: ComponentStatus::Added },
        ComponentDiff { name: "d".into(), base_version: Some("4".into()), comparison_version: None, status: ComponentStatus::Removed },
        ComponentDiff { name: "e".into(), base_version: None, comparison_version: None, status: ComponentStatus::Updated },
    ];
    let mut report = String::from("head\n");
    add_component_diff_to_report(&mut report, &diffs);
    assert_eq!(
        report,
        "head\n│\n│ 🔧 Component version changes:\n│   b 1 → 2\n│   c added 3\n│   d removed 4\n│   e unknown → unknown\n"
    );
}

#[test]
fn component_section_without_entries() {
    let mut report = String::new();
    add_component_diff_to_report(&mut report, &[]);
    assert_eq!(report, "│ No component version changes found.\n");
}

#[test]
fn log_line_with_pull_request_reference() {
    let e = parse_log_line("abc1234def Fix the flaky check (#12345)");
    assert_eq!(e.sha, "abc1234def");
    assert_eq!(e.short_sha, "abc1234");
    assert_eq!(e.message, "Fix the flaky check");
    assert_eq!(e.pr_link.as_deref(), Some("https://github.com/DataDog/datadog-agent/pull/12345"));
}

#[test]
fn log_line_without_reference_or_message() {
    let e = parse_log_line("abc12  Tidy up  ");
    assert_eq!(e.sha, "abc12");
    assert_eq!(e.short_sha, "abc12");
    assert_eq!(e.message, "Tidy up");
    assert_eq!(e.pr_link, None);
    let bare = parse_log_line("0123456789");
    assert_eq!(bare.sha, "0123456789");
    assert_eq!(bare.message, "");
}

#[test]
fn log_line_reference_in_middle() {
    let e = parse_log_line("1111111 Revert (#42) and redo (#43)");
    assert_eq!(e.message, "Revert  and redo (#43)");
    assert_eq!(e.pr_link.as_deref(), Some("https://github.com/DataDog/datadog-agent/pull/42"));
}

#[test]
fn commit_log_one_entry_per_line() {
    let entries = parse_commit_log("aaaaaaaa one\nbbbbbbbb two (#7)\n");
    assert_eq!(entries.len(), 2);
    assert_eq!(entries[1].pr_link.as_deref(), Some("https://github.com/DataDog/datadog-agent/pull/7"));
    assert!(parse_commit_log("").is_empty());
}

#[test]
fn shortstat_counts() {
    assert_eq!(get_commit_stats("\n 3 files changed, 10 insertions(+), 2 deletions(-)\n"), (10, 2));
    assert_eq!(get_commit_stats(" 1 file changed, 1 insertion(+)\n"), (1, 0));
    assert_eq!(get_commit_stats(" 1 file changed, 4 deletions(-)"), (0, 4));
    assert_eq!(get_commit_stats(""), (0, 0));
    assert_eq!(get_commit_stats(" 1 file changed, 99999999999 insertions(+)"), (0, 0));
}

#[test]
fn report_counts_commits_with_and_without_stats() {
    let entries = parse_commit_log("abc1234ff First (#1)\ndef5678aa Second\n");
    let stats_known = vec![Some((3, 1)), Some((0, 2))];
    let stats_missing = vec![None, None];
    let components: Result<Vec<ComponentDiff>, String> = Ok(Vec::new());
    let with = render_diff_report("new-tag", "old-tag", &entries, &stats_known, &components, "");
    let without = render_diff_report("new-tag", "old-tag", &entries, &stats_missing, &components, "");
    let head = "┌─ Diff between new-tag and old-tag\n│ 2 commits:\n";
    assert!(with.starts_with(head));
    assert!(without.starts_with(head));
    assert_eq!(
        with,
        format!(
            "{head}│   abc1234 First https://github.com/DataDog/datadog-agent/pull/1 (+3, -1)\n│   def5678 Second (+0, -2)\n│ No component version changes found.\n│\n│ File summary:\n└─────────────────────────────────────\n"
        )
    );
    assert_eq!(
        without,
        format!(
            "{head}│   abc1234 First https://github.com/DataDog/datadog-agent/pull/1\n│   def5678 Second\n│ No component version changes found.\n│\n│ File summary:\n└─────────────────────────────────────\n"
        )
    );
}

#[test]
fn report_counts_binary_files_and_failed_comparison() {
    let stat = " src/a.rs   | 4 ++--\n img/logo.png | Bin 10 -> 12 bytes\n 2 files changed\n";
    let components: Result<Vec<ComponentDiff>, String> = Err("no release.json".to_string());
    let report = render_diff_report("n", "o", &[], &[], &components, stat);
    assert_eq!(
        report,
        "┌─ Diff between n and o\n│ 0 commits:\n│\n│ ⚠️ Component version comparison failed: no release.json\n│\n│ File summary:\n│    src/a.rs   | 4 ++--\n│    2 files changed\n│   (1 binary files changed)\n└─────────────────────────────────────\n"
    );
}

#[test]
fn lines_split_like_std() {
    for s in ["", "\n", "a", "a\n", "a\r\nb", "a\n\nb\n", "\r\n\r\n", "x\ry\n"] {
        let ours = split_lines(s);
        let std_lines: Vec<String> = s.lines().map(|l| l.to_string()).collect();
        assert_eq!(ours, std_lines, "input {s:?}");
    }
}

#[test]
fn numbers_and_text_helpers() {
    assert_eq!(decimal(0), "0");
    assert_eq!(decimal(1200), "1200");
    assert_eq!(decimal(u64::MAX), u64::MAX.to_string());
    assert_eq!(parse_u32("4294967295"), Some(u32::MAX));
    assert_eq!(parse_u32("4294967296"), None);
    assert_eq!(parse_u32(""), None);
    assert_eq!(parse_u32("12a"), None);
    assert_eq!(parse_u32("+12"), Some(12));
    assert_eq!(parse_u32("+"), None);
    assert_eq!(parse_u32("++1"), None);
    assert_eq!(parse_u64("18446744073709551615"), Some(u64::MAX));
    assert_eq!(parse_u64("18446744073709551616"), None);
    assert_eq!(trim("  a b \t\n"), "a b");
    assert!(text_lt("Zeta", "alpha"));
    assert!(text_lt("ab", "abc"));
    assert!(!text_lt("abc", "abc"));
}

#[test]
fn log_entry_from_given_reference_parts() {
    let pr = Some(("abc1234ff Add ".to_string(), "77".to_string(), " feature ".to_string()));
    let e = log_entry_from("abc1234ff Add (#77) feature ", &pr);
    assert_eq!(e.short_sha, "abc1234");
    assert_eq!(e.message, "Add  feature");
    assert_eq!(e.pr_link.as_deref(), Some("https://github.com/DataDog/datadog-agent/pull/77"));
    let plain = log_entry_from("abc1234ff Add (#77)", &None);
    assert_eq!(plain.message, "Add (#77)");
    assert_eq!(plain.pr_link, None);
}

#[test]
fn line_counts_from_given_digits() {
    assert_eq!(line_counts(&Some("12".to_string()), &None), (12, 0));
    assert_eq!(line_counts(&Some("x".to_string()), &Some("3".to_string())), (0, 3));
    assert_eq!(line_counts(&Some("5000000000".to_string()), &Some("0".to_string())), (0, 0));
}

#[test]
fn report_with_some_stats_missing_keeps_every_commit() {
    let entries = parse_commit_log("aaaaaaa1 One\nbbbbbbb2 Two (#5)\nccccccc3 Three\n");
    let stats = vec![Some((1, 2)), None, Some((0, 0))];
    let components: Result<Vec<ComponentDiff>, String> = Ok(Vec::new());
    let report = render_diff_report("n", "o", &entries, &stats, &components, "");
    assert!(report.contains("│ 3 commits:\n│   aaaaaaa One (+1, -2)\n│   bbbbbbb Two https://github.com/DataDog/datadog-agent/pull/5\n│   ccccccc Three (+0, -0)\n"));
}
