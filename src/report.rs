use vstd::prelude::*;
use vstd::string::*;

use crate::diff::{add_component_diff_to_report, component_section, ComponentDiff};
use crate::text::{
    decimal, decimal_spec, lines_spec, opt_text, parse_u32, parse_u32_spec, split_lines, split_once,
    split_once_spec, starts_with, texts, trim, trim_end, trim_end_spec, trim_spec, trim_start,
    trim_start_spec,
};

verus! {

/// How the first pull-request reference `(#<number>)` splits a commit
/// subject: the text before it, the number, and the text after it.
pub uninterp spec fn pr_reference_of(line: Seq<char>) -> Option<(Seq<char>, Seq<char>, Seq<char>)>;

/// The number in the first `<number> insertion` of a shortstat line.
pub uninterp spec fn insertions_of(line: Seq<char>) -> Option<Seq<char>>;

/// The number in the first `<number> deletion` of a shortstat line.
pub uninterp spec fn deletions_of(line: Seq<char>) -> Option<Seq<char>>;

/// Relies on regex's `Regex::captures` for `\(#(?P<num>\d+)\)`: the leftmost
/// match is `(#`, the `num` group and `)`; the text around it is returned
/// with the group.
#[verifier::external_body]
fn find_pr_reference(line: &str) -> (r: Option<(String, String, String)>)
    ensures
        match r {
            Some((before, num, after)) => pr_reference_of(line@) == Some((before@, num@, after@))
                && line@ == before@ + "(#"@ + num@ + ")"@ + after@,
            None => pr_reference_of(line@) is None,
        },
{
    let re = regex::Regex::new(r"\(#(?P<num>\d+)\)").unwrap();
    match re.captures(line) {
        Some(caps) => {
            let whole = caps.get(0).unwrap();
            let num = caps["num"].to_string();
            Some((line[..whole.start()].to_string(), num, line[whole.end()..].to_string()))
        },
        None => None,
    }
}

/// Relies on regex's `Regex::captures` for `(?P<num>\d+) insertion(?:s)?`:
/// the `num` group of the leftmost match.
#[verifier::external_body]
fn find_insertions(line: &str) -> (r: Option<String>)
    ensures
        opt_text(r) == insertions_of(line@),
{
    let re = regex::Regex::new(r"(?P<num>\d+) insertion(?:s)?").unwrap();
    match re.captures(line) {
        Some(caps) => Some(caps["num"].to_string()),
        None => None,
    }
}

/// Relies on regex's `Regex::captures` for `(?P<num>\d+) deletion(?:s)?`:
/// the `num` group of the leftmost match.
#[verifier::external_body]
fn find_deletions(line: &str) -> (r: Option<String>)
    ensures
        opt_text(r) == deletions_of(line@),
{
    let re = regex::Regex::new(r"(?P<num>\d+) deletion(?:s)?").unwrap();
    match re.captures(line) {
        Some(caps) => Some(caps["num"].to_string()),
        None => None,
    }
}

/// Where a pull request's number is appended to make its link.
pub open spec fn pr_url_prefix() -> Seq<char> {
    "https://github.com/DataDog/datadog-agent/pull/"@
}

/// One commit of a one-line-per-commit log.
#[derive(Debug)]
pub struct LogEntry {
    /// The commit id that starts the line.
    pub sha: String,
    /// At most the first seven characters of `sha`.
    pub short_sha: String,
    /// The subject, without the pull-request reference.
    pub message: String,
    /// The link to the pull request that the subject refers to.
    pub pr_link: Option<String>,
}

pub struct LogEntryView {
    pub sha: Seq<char>,
    pub short_sha: Seq<char>,
    pub message: Seq<char>,
    pub pr_link: Option<Seq<char>>,
}

impl View for LogEntry {
    type V = LogEntryView;

    open spec fn view(&self) -> LogEntryView {
        LogEntryView {
            sha: self.sha@,
            short_sha: self.short_sha@,
            message: self.message@,
            pr_link: opt_text(self.pr_link),
        }
    }
}

pub open spec fn pr_parts_view(pr: Option<(String, String, String)>) -> Option<
    (Seq<char>, Seq<char>, Seq<char>),
> {
    match pr {
        Some((before, num, after)) => Some((before@, num@, after@)),
        None => None,
    }
}

/// The entry for one line `<sha> <subject>` of a log, given how its first
/// pull-request reference splits it (text before, number, text after): the
/// reference is cut out and the end trimmed, the first space parts the id
/// from the subject, and the number makes the link.
pub open spec fn log_entry_from_spec(
    line: Seq<char>,
    pr: Option<(Seq<char>, Seq<char>, Seq<char>)>,
) -> LogEntryView {
    let stripped = match pr {
        Some((before, _, after)) => before + after,
        None => line,
    };
    let base = trim_end_spec(stripped);
    let sha = match split_once_spec(base, ' ') {
        Some((s, _)) => s,
        None => base,
    };
    let message = match split_once_spec(base, ' ') {
        Some((_, rest)) => trim_spec(rest),
        None => Seq::empty(),
    };
    LogEntryView {
        sha,
        short_sha: if sha.len() > 7 {
            sha.subrange(0, 7)
        } else {
            sha
        },
        message,
        pr_link: match pr {
            Some((_, num, _)) => Some(pr_url_prefix() + num),
            None => None,
        },
    }
}

/// The entry for one line `<sha> <subject>` of a log.
pub open spec fn log_entry_spec(line: Seq<char>) -> LogEntryView {
    log_entry_from_spec(line, pr_reference_of(line))
}

/// Builds the entry of a log line from the parts that its pull-request
/// reference splits it into.
pub fn log_entry_from(line: &str, pr: &Option<(String, String, String)>) -> (r: LogEntry)
    ensures
        r@ == log_entry_from_spec(line@, pr_parts_view(*pr)),
{
    let stripped = match pr {
        Some((before, _, after)) => {
            let mut s = before.clone();
            s.append(after.as_str());
            s
        },
        None => line.to_owned(),
    };
    let pr_link = match pr {
        Some((_, num, _)) => {
            let mut link = String::from_str("https://github.com/DataDog/datadog-agent/pull/");
            link.append(num.as_str());
            Some(link)
        },
        None => None,
    };
    let base = trim_end(stripped.as_str());
    let (sha, message) = match split_once(base, ' ') {
        Some((s, rest)) => (s, trim(rest)),
        None => (base, ""),
    };
    proof {
        reveal_strlit("");
        assert(""@ =~= Seq::<char>::empty());
    }
    let n = sha.unicode_len();
    let short_sha = if n > 7 {
        sha.substring_char(0, 7)
    } else {
        sha
    };
    LogEntry {
        sha: sha.to_owned(),
        short_sha: short_sha.to_owned(),
        message: message.to_owned(),
        pr_link,
    }
}

/// Reads one line `<sha> <subject>` of a log.
pub fn parse_log_line(line: &str) -> (r: LogEntry)
    ensures
        r@ == log_entry_spec(line@),
{
    let pr = find_pr_reference(line);
    log_entry_from(line, &pr)
}

pub open spec fn log_entries_spec(output: Seq<char>) -> Seq<LogEntryView> {
    lines_spec(output).map_values(|l: Seq<char>| log_entry_spec(l))
}

pub open spec fn entry_views(es: Seq<LogEntry>) -> Seq<LogEntryView> {
    es.map_values(|e: LogEntry| e@)
}

/// One entry for each line of a one-line-per-commit log.
pub fn parse_commit_log(output: &str) -> (r: Vec<LogEntry>)
    ensures
        entry_views(r@) == log_entries_spec(output@),
{
    let lines = split_lines(output);
    let mut out: Vec<LogEntry> = Vec::new();
    let mut i: usize = 0;
    while i < lines.len()
        invariant
            texts(lines@) == lines_spec(output@),
            i <= lines@.len(),
            out@.len() == i,
            forall|k: int| 0 <= k < i ==> #[trigger] out@[k]@ == log_entry_spec(lines@[k]@),
        decreases lines@.len() - i,
    {
        out.push(parse_log_line(lines[i].as_str()));
        i += 1;
    }
    proof {
        assert forall|k: int| 0 <= k < out@.len() implies #[trigger] entry_views(out@)[k]
            == log_entries_spec(output@)[k] by {
            assert(texts(lines@)[k] == lines@[k]@);
        }
    }
    assert(entry_views(out@) =~= log_entries_spec(output@));
    out
}

/// A count read from a shortstat line; zero when there is none or it does
/// not fit.
pub open spec fn count_value(d: Option<Seq<char>>) -> u32 {
    match d {
        Some(x) => match parse_u32_spec(x) {
            Some(v) => v,
            None => 0,
        },
        None => 0,
    }
}

/// The insertions and deletions of the first line that reports any; zero
/// and zero when none does.
pub open spec fn shortstat_spec(lines: Seq<Seq<char>>) -> (u32, u32)
    decreases lines.len(),
{
    if lines.len() == 0 {
        (0, 0)
    } else {
        let ins = count_value(insertions_of(lines[0]));
        let del = count_value(deletions_of(lines[0]));
        if ins > 0 || del > 0 {
            (ins, del)
        } else {
            shortstat_spec(lines.drop_first())
        }
    }
}

/// The insertion and deletion counts of one shortstat line, given the
/// digits found before `insertion` and before `deletion`.
pub fn line_counts(insertions: &Option<String>, deletions: &Option<String>) -> (r: (u32, u32))
    ensures
        r == (count_value(opt_text(*insertions)), count_value(opt_text(*deletions))),
{
    let ins = match insertions {
        Some(x) => match parse_u32(x.as_str()) {
            Some(v) => v,
            None => 0,
        },
        None => 0,
    };
    let del = match deletions {
        Some(x) => match parse_u32(x.as_str()) {
            Some(v) => v,
            None => 0,
        },
        None => 0,
    };
    (ins, del)
}

/// The insertion and deletion counts of a commit's shortstat output.
pub fn get_commit_stats(output: &str) -> (r: (u32, u32))
    ensures
        r == shortstat_spec(lines_spec(output@)),
{
    let lines = split_lines(output);
    let ghost all = texts(lines@);
    let mut i: usize = 0;
    assert(all.skip(0) =~= all);
    while i < lines.len()
        invariant
            all == texts(lines@),
            all == lines_spec(output@),
            i <= lines@.len(),
            shortstat_spec(all) == shortstat_spec(all.skip(i as int)),
        decreases lines@.len() - i,
    {
        let line = lines[i].as_str();
        let (ins, del) = line_counts(&find_insertions(line), &find_deletions(line));
        assert(all.skip(i as int)[0] == line@);
        if ins > 0 || del > 0 {
            return (ins, del);
        }
        assert(all.skip(i as int).drop_first() =~= all.skip(i + 1));
        i += 1;
    }
    assert(all.skip(i as int) =~= Seq::<Seq<char>>::empty());
    (0, 0)
}

/// A line of `git diff --stat` output for a binary file.
pub open spec fn is_binary_stat_line(line: Seq<char>) -> bool {
    match split_once_spec(line, '|') {
        Some((_, stats)) => "Bin"@.is_prefix_of(trim_start_spec(stats)),
        None => false,
    }
}

fn is_binary_line(line: &str) -> (r: bool)
    ensures
        r == is_binary_stat_line(line@),
{
    match split_once(line, '|') {
        Some((_, stats)) => starts_with(trim_start(stats), "Bin"),
        None => false,
    }
}

/// The file summary lines of a report: every stat line but the binary ones.
pub open spec fn file_lines_spec(lines: Seq<Seq<char>>) -> Seq<char>
    decreases lines.len(),
{
    if lines.len() == 0 {
        Seq::empty()
    } else {
        file_lines_spec(lines.drop_last()) + if is_binary_stat_line(lines.last()) {
            Seq::empty()
        } else {
            "│   "@ + lines.last() + "\n"@
        }
    }
}

/// How many stat lines are of binary files.
pub open spec fn binary_count_spec(lines: Seq<Seq<char>>) -> nat
    decreases lines.len(),
{
    if lines.len() == 0 {
        0
    } else {
        binary_count_spec(lines.drop_last()) + if is_binary_stat_line(lines.last()) {
            1nat
        } else {
            0nat
        }
    }
}

/// The report line of one commit; the counts are left out when they could
/// not be had.
pub open spec fn commit_line_spec(e: LogEntryView, stats: Option<(u32, u32)>) -> Seq<char> {
    "│   "@ + e.short_sha + " "@ + e.message + match e.pr_link {
        Some(link) => " "@ + link,
        None => Seq::empty(),
    } + match stats {
        Some((ins, del)) => " (+"@ + decimal_spec(ins as nat) + ", -"@ + decimal_spec(del as nat)
            + ")"@,
        None => Seq::empty(),
    } + "\n"@
}

pub open spec fn commit_lines_spec(es: Seq<LogEntry>, stats: Seq<Option<(u32, u32)>>) -> Seq<char>
    decreases es.len(),
{
    if es.len() == 0 {
        Seq::empty()
    } else {
        commit_lines_spec(es.drop_last(), stats.drop_last()) + commit_line_spec(
            es.last()@,
            stats[es.len() - 1],
        )
    }
}

/// The first lines of a report: the two builds and the number of commits.
pub open spec fn report_head(newer: Seq<char>, older: Seq<char>, n: nat) -> Seq<char> {
    "┌─ Diff between "@ + newer + " and "@ + older + "\n"@ + "│ "@ + decimal_spec(n)
        + " commits:\n"@
}

/// The section on dependency versions, or why it is missing.
pub open spec fn components_part(components: Result<Seq<ComponentDiff>, Seq<char>>) -> Seq<char> {
    match components {
        Ok(ds) => component_section(ds),
        Err(e) => "│\n│ ⚠️ Component version comparison failed: "@ + e + "\n"@,
    }
}

/// The file summary section.
pub open spec fn files_part(stat_output: Seq<char>) -> Seq<char> {
    let lines = lines_spec(stat_output);
    "│\n│ File summary:\n"@ + file_lines_spec(lines) + if binary_count_spec(lines) > 0 {
        "│   ("@ + decimal_spec(binary_count_spec(lines)) + " binary files changed)\n"@
    } else {
        Seq::empty()
    } + "└─────────────────────────────────────\n"@
}

/// The whole report between two builds.
pub open spec fn diff_report_spec(
    newer: Seq<char>,
    older: Seq<char>,
    es: Seq<LogEntry>,
    stats: Seq<Option<(u32, u32)>>,
    components: Result<Seq<ComponentDiff>, Seq<char>>,
    stat_output: Seq<char>,
) -> Seq<char> {
    report_head(newer, older, es.len()) + commit_lines_spec(es, stats) + components_part(components)
        + files_part(stat_output)
}

pub open spec fn components_view(c: Result<Vec<ComponentDiff>, String>) -> Result<
    Seq<ComponentDiff>,
    Seq<char>,
> {
    match c {
        Ok(ds) => Ok(ds@),
        Err(e) => Err(e@),
    }
}

fn append_commit_line(report: &mut String, e: &LogEntry, stats: Option<(u32, u32)>)
    ensures
        final(report)@ == old(report)@ + commit_line_spec(e@, stats),
{
    let ghost before = report@;
    report.append("│   ");
    report.append(e.short_sha.as_str());
    report.append(" ");
    report.append(e.message.as_str());
    let ghost mid = report@;
    assert(mid =~= before + "│   "@ + e.short_sha@ + " "@ + e.message@);
    match &e.pr_link {
        Some(link) => {
            report.append(" ");
            report.append(link.as_str());
        },
        None => {},
    }
    let ghost mid2 = report@;
    match stats {
        Some((ins, del)) => {
            report.append(" (+");
            report.append(decimal(ins as u64).as_str());
            report.append(", -");
            report.append(decimal(del as u64).as_str());
            report.append(")");
        },
        None => {},
    }
    let ghost mid3 = report@;
    report.append("\n");
    proof {
        let link_part = match e@.pr_link {
            Some(link) => " "@ + link,
            None => Seq::empty(),
        };
        let stats_part = match stats {
            Some((ins, del)) => " (+"@ + decimal_spec(ins as nat) + ", -"@ + decimal_spec(
                del as nat,
            ) + ")"@,
            None => Seq::empty(),
        };
        assert(mid2 =~= mid + link_part);
        assert(mid3 =~= mid2 + stats_part);
        assert(report@ =~= mid3 + "\n"@);
        assert(report@ =~= before + commit_line_spec(e@, stats));
    }
}

/// The report between two builds: a header naming them, the number of
/// commits and a line for each, the dependency version changes (or why
/// they could not be compared), and a summary of the changed files with
/// binary files counted but not listed. `stats[i]` holds the insertion and
/// deletion counts of `entries[i]` when they could be had.
pub fn render_diff_report(
    newer_name: &str,
    older_name: &str,
    entries: &[LogEntry],
    stats: &[Option<(u32, u32)>],
    components: &Result<Vec<ComponentDiff>, String>,
    stat_output: &str,
) -> (r: String)
    requires
        entries@.len() == stats@.len(),
    ensures
        r@ == diff_report_spec(
            newer_name@,
            older_name@,
            entries@,
            stats@,
            components_view(*components),
            stat_output@,
        ),
{
    let mut report = String::new();
    report.append("┌─ Diff between ");
    report.append(newer_name);
    report.append(" and ");
    report.append(older_name);
    report.append("\n");
    report.append("│ ");
    report.append(decimal(entries.len() as u64).as_str());
    report.append(" commits:\n");
    proof {
        assert(report@ =~= report_head(newer_name@, older_name@, entries@.len()));
    }
    let ghost head = report@;
    let mut i: usize = 0;
    assert(entries@.subrange(0, 0) =~= Seq::<LogEntry>::empty());
    while i < entries.len()
        invariant
            entries@.len() == stats@.len(),
            i <= entries@.len(),
            report@ == head + commit_lines_spec(
                entries@.subrange(0, i as int),
                stats@.subrange(0, i as int),
            ),
        decreases entries@.len() - i,
    {
        append_commit_line(&mut report, &entries[i], stats[i]);
        proof {
            let es = entries@.subrange(0, i + 1);
            let ss = stats@.subrange(0, i + 1);
            assert(es.drop_last() =~= entries@.subrange(0, i as int));
            assert(ss.drop_last() =~= stats@.subrange(0, i as int));
            assert(ss[es.len() - 1] == stats@[i as int]);
            assert(report@ =~= head + commit_lines_spec(es, ss));
        }
        i += 1;
    }
    proof {
        assert(entries@.subrange(0, i as int) =~= entries@);
        assert(stats@.subrange(0, i as int) =~= stats@);
    }
    let ghost with_commits = report@;
    match components {
        Ok(ds) => add_component_diff_to_report(&mut report, ds.as_slice()),
        Err(e) => {
            report.append("│\n│ ⚠️ Component version comparison failed: ");
            report.append(e.as_str());
            report.append("\n");
        },
    }
    proof {
        assert(report@ =~= with_commits + components_part(components_view(*components)));
    }
    let ghost with_components = report@;
    report.append("│\n│ File summary:\n");
    let lines = split_lines(stat_output);
    let ghost all = texts(lines@);
    let ghost summary_start = report@;
    let mut binary_count: u64 = 0;
    let mut k: usize = 0;
    assert(all.subrange(0, 0) =~= Seq::<Seq<char>>::empty());
    while k < lines.len()
        invariant
            all == texts(lines@),
            all == lines_spec(stat_output@),
            k <= lines@.len(),
            report@ == summary_start + file_lines_spec(all.subrange(0, k as int)),
            binary_count == binary_count_spec(all.subrange(0, k as int)),
            binary_count <= k,
        decreases lines@.len() - k,
    {
        let line = lines[k].as_str();
        let ghost before = report@;
        proof {
            assert(all.subrange(0, k + 1).drop_last() =~= all.subrange(0, k as int));
            assert(all.subrange(0, k + 1).last() == line@);
        }
        if is_binary_line(line) {
            binary_count += 1;
        } else {
            report.append("│   ");
            report.append(line);
            report.append("\n");
            proof {
                assert(report@ =~= before + ("│   "@ + line@ + "\n"@));
            }
        }
        proof {
            assert(report@ =~= summary_start + file_lines_spec(all.subrange(0, k + 1)));
        }
        k += 1;
    }
    proof {
        assert(all.subrange(0, k as int) =~= all);
    }
    let ghost with_files = report@;
    if binary_count > 0 {
        report.append("│   (");
        report.append(decimal(binary_count).as_str());
        report.append(" binary files changed)\n");
    }
    let ghost with_binary = report@;
    report.append("└─────────────────────────────────────\n");
    proof {
        let bin_part = if binary_count_spec(all) > 0 {
            "│   ("@ + decimal_spec(binary_count_spec(all)) + " binary files changed)\n"@
        } else {
            Seq::empty()
        };
        assert(with_binary =~= with_files + bin_part);
        assert(report@ =~= with_components + files_part(stat_output@));
    }
    report
}

/// The number of commits in a report does not depend on the per-commit
/// insertion and deletion counts: whatever counts could be had, the report
/// opens with the two builds and the number of log entries.
pub proof fn lemma_commit_count_ignores_stats(
    newer: Seq<char>,
    older: Seq<char>,
    es: Seq<LogEntry>,
    stats: Seq<Option<(u32, u32)>>,
    components: Result<Seq<ComponentDiff>, Seq<char>>,
    stat_output: Seq<char>,
)
    ensures
        report_head(newer, older, es.len()).is_prefix_of(
            diff_report_spec(newer, older, es, stats, components, stat_output),
        ),
{
    let head = report_head(newer, older, es.len());
    let full = diff_report_spec(newer, older, es, stats, components, stat_output);
    assert(full =~= head + (commit_lines_spec(es, stats) + components_part(components) + files_part(
        stat_output,
    )));
    assert(full.subrange(0, head.len() as int) =~= head);
}

/// Each commit of the log gives exactly one entry, whether or not its
/// counts can be had: the number of commits a report states is the number
/// of lines of the log.
pub proof fn lemma_one_entry_per_log_line(output: Seq<char>)
    ensures
        log_entries_spec(output).len() == lines_spec(output).len(),
{
}

} // verus!
