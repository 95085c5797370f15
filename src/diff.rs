use vstd::prelude::*;

use crate::text::{
    lemma_text_lt_total, lemma_text_lt_transitive, opt_text, same_text, text_lt, text_lt_spec,
};

verus! {

/// How a dependency's version changed between two builds.
#[derive(Debug, Clone, Copy, PartialEq, Eq, Structural)]
pub enum ComponentStatus {
    Same,
    Updated,
    Added,
    Removed,
}

/// One dependency's versions in the base and in the comparison build.
#[derive(Debug)]
pub struct ComponentDiff {
    pub name: String,
    pub base_version: Option<String>,
    pub comparison_version: Option<String>,
    pub status: ComponentStatus,
}

pub struct ComponentDiffView {
    pub name: Seq<char>,
    pub base_version: Option<Seq<char>>,
    pub comparison_version: Option<Seq<char>>,
    pub status: ComponentStatus,
}

impl View for ComponentDiff {
    type V = ComponentDiffView;

    open spec fn view(&self) -> ComponentDiffView {
        ComponentDiffView {
            name: self.name@,
            base_version: opt_text(self.base_version),
            comparison_version: opt_text(self.comparison_version),
            status: self.status,
        }
    }
}

/// Some entry of the manifest `m` (name, version) is named `name`.
pub open spec fn has_name(m: Seq<(String, String)>, name: Seq<char>) -> bool {
    exists|i: int| 0 <= i < m.len() && #[trigger] m[i].0@ == name
}

/// No two entries of the manifest share a name.
pub open spec fn distinct_names(m: Seq<(String, String)>) -> bool {
    forall|i: int, j: int| 0 <= i < j < m.len() ==> #[trigger] m[i].0@ != #[trigger] m[j].0@
}

/// The version that the manifest gives `name`.
pub open spec fn version_in(m: Seq<(String, String)>, name: Seq<char>) -> Option<Seq<char>> {
    if has_name(m, name) {
        Some(m[choose|i: int| 0 <= i < m.len() && #[trigger] m[i].0@ == name].1@)
    } else {
        None
    }
}

/// The status of a dependency from its versions in the two builds.
pub open spec fn classify(base: Option<Seq<char>>, comparison: Option<Seq<char>>) -> ComponentStatus {
    match (base, comparison) {
        (Some(b), Some(c)) => if b == c {
            ComponentStatus::Same
        } else {
            ComponentStatus::Updated
        },
        (None, Some(_)) => ComponentStatus::Added,
        _ => ComponentStatus::Removed,
    }
}

/// `d` is the entry of the comparison for one dependency named by either
/// manifest.
pub open spec fn describes(
    base: Seq<(String, String)>,
    comparison: Seq<(String, String)>,
    d: ComponentDiffView,
) -> bool {
    &&& has_name(base, d.name) || has_name(comparison, d.name)
    &&& d.base_version == version_in(base, d.name)
    &&& d.comparison_version == version_in(comparison, d.name)
    &&& d.status == classify(d.base_version, d.comparison_version)
}

/// Names strictly ascending.
pub open spec fn sorted_by_name(ds: Seq<ComponentDiff>) -> bool {
    forall|k: int, l: int|
        0 <= k < l < ds.len() ==> text_lt_spec(#[trigger] ds[k].name@, #[trigger] ds[l].name@)
}

/// Position of the entry named `name`.
fn position_of_name(m: &Vec<(String, String)>, name: &str) -> (r: Option<usize>)
    requires
        distinct_names(m@),
    ensures
        match r {
            Some(i) => i < m@.len() && m@[i as int].0@ == name@ && version_in(m@, name@) == Some(
                m@[i as int].1@,
            ),
            None => !has_name(m@, name@) && version_in(m@, name@) is None,
        },
{
    let mut i: usize = 0;
    while i < m.len()
        invariant
            distinct_names(m@),
            i <= m@.len(),
            forall|j: int| 0 <= j < i ==> m@[j].0@ != name@,
        decreases m@.len() - i,
    {
        if same_text(m[i].0.as_str(), name) {
            proof {
                let c = choose|c: int| 0 <= c < m@.len() && #[trigger] m@[c].0@ == name@;
                if c != i {
                    if c < i {
                        assert(m@[c].0@ != m@[i as int].0@);
                    } else {
                        let ii = i as int;
                        assert(0 <= ii < c < m@.len());
                        assert(m@[ii].0@ != m@[c].0@);
                    }
                }
            }
            return Some(i);
        }
        i += 1;
    }
    None
}

fn clone_opt(o: &Option<String>) -> (r: Option<String>)
    ensures
        opt_text(r) == opt_text(*o),
{
    match o {
        Some(s) => Some(s.clone()),
        None => None,
    }
}

/// Puts `d` into the name-sorted `out` at its place.
fn insert_by_name(out: &mut Vec<ComponentDiff>, d: ComponentDiff)
    requires
        sorted_by_name(old(out)@),
        forall|k: int| 0 <= k < old(out)@.len() ==> (#[trigger] old(out)@[k]).name@ != d.name@,
    ensures
        sorted_by_name(final(out)@),
        exists|p: int| 0 <= p <= old(out)@.len() && final(out)@ == old(out)@.insert(p, d),
{
    let mut p: usize = 0;
    while p < out.len()
        invariant
            p <= out@.len(),
            forall|q: int| 0 <= q < p ==> text_lt_spec(#[trigger] out@[q].name@, d.name@),
        ensures
            p <= out@.len(),
            forall|q: int| 0 <= q < p ==> text_lt_spec(#[trigger] out@[q].name@, d.name@),
            p < out@.len() ==> !text_lt_spec(out@[p as int].name@, d.name@),
        decreases out@.len() - p,
    {
        if !text_lt(out[p].name.as_str(), d.name.as_str()) {
            break;
        }
        p += 1;
    }
    let ghost old_out = out@;
    let ghost dn = d.name@;
    proof {
        if p < old_out.len() {
            lemma_text_lt_total(old_out[p as int].name@, dn);
        }
    }
    out.insert(p, d);
    proof {
        assert forall|k: int, l: int| 0 <= k < l < out@.len() implies text_lt_spec(
            #[trigger] out@[k].name@,
            #[trigger] out@[l].name@,
        ) by {
            if l < p {
                assert(out@[k] == old_out[k] && out@[l] == old_out[l]);
            } else if l == p {
                assert(out@[k] == old_out[k]);
            } else if k < p {
                assert(out@[k] == old_out[k] && out@[l] == old_out[l - 1]);
                if l - 1 > p {
                    assert(text_lt_spec(old_out[p as int].name@, old_out[l - 1].name@));
                    lemma_text_lt_transitive(dn, old_out[p as int].name@, old_out[l - 1].name@);
                }
                lemma_text_lt_transitive(old_out[k].name@, dn, old_out[l - 1].name@);
            } else if k == p {
                assert(out@[l] == old_out[l - 1]);
                if l - 1 > p {
                    assert(text_lt_spec(old_out[p as int].name@, old_out[l - 1].name@));
                    lemma_text_lt_transitive(dn, old_out[p as int].name@, old_out[l - 1].name@);
                }
            } else {
                assert(out@[k] == old_out[k - 1] && out@[l] == old_out[l - 1]);
            }
        }
    }
}

/// One of the first `upto` entries of `m` is named `name`.
pub open spec fn named_below(m: Seq<(String, String)>, upto: int, name: Seq<char>) -> bool {
    exists|i: int| 0 <= i < upto && #[trigger] m[i].0@ == name
}

/// Some entry of `ds` is named `name`.
pub open spec fn listed(ds: Seq<ComponentDiff>, name: Seq<char>) -> bool {
    exists|k: int| 0 <= k < ds.len() && #[trigger] ds[k].name@ == name
}

proof fn lemma_version_at(m: Seq<(String, String)>, i: int)
    requires
        distinct_names(m),
        0 <= i < m.len(),
    ensures
        has_name(m, m[i].0@),
        version_in(m, m[i].0@) == Some(m[i].1@),
{
    assert(m[i].0@ == m[i].0@);
    let c = choose|c: int| 0 <= c < m.len() && #[trigger] m[c].0@ == m[i].0@;
    if c < i {
        assert(m[c].0@ != m[i].0@);
    } else if c > i {
        assert(m[i].0@ != m[c].0@);
    }
}

/// After inserting `d` at `p`, every name listed before is still listed.
proof fn lemma_insert_keeps_listed(old_ds: Seq<ComponentDiff>, p: int, d: ComponentDiff, name: Seq<char>)
    requires
        0 <= p <= old_ds.len(),
        listed(old_ds, name),
    ensures
        listed(old_ds.insert(p, d), name),
{
    let k = choose|k: int| 0 <= k < old_ds.len() && #[trigger] old_ds[k].name@ == name;
    let ds = old_ds.insert(p, d);
    if k < p {
        assert(ds[k] == old_ds[k]);
    } else {
        assert(ds[k + 1] == old_ds[k]);
    }
}

/// The version change of every dependency named by either manifest, one
/// entry per name, ascending by name. A manifest is a list of (name,
/// version) pairs with distinct names.
pub fn compare_components(base: &Vec<(String, String)>, comparison: &Vec<(String, String)>) -> (r:
    Vec<ComponentDiff>)
    requires
        distinct_names(base@),
        distinct_names(comparison@),
    ensures
        sorted_by_name(r@),
        forall|k: int| 0 <= k < r@.len() ==> describes(base@, comparison@, #[trigger] r@[k]@),
        forall|i: int| 0 <= i < base@.len() ==> listed(r@, #[trigger] base@[i].0@),
        forall|j: int| 0 <= j < comparison@.len() ==> listed(r@, #[trigger] comparison@[j].0@),
{
    let mut out: Vec<ComponentDiff> = Vec::new();
    let mut i: usize = 0;
    while i < base.len()
        invariant
            distinct_names(base@),
            distinct_names(comparison@),
            i <= base@.len(),
            sorted_by_name(out@),
            forall|k: int| 0 <= k < out@.len() ==> describes(base@, comparison@, #[trigger] out@[k]@),
            forall|k: int| 0 <= k < out@.len() ==> named_below(base@, i as int, #[trigger] out@[k].name@),
            forall|a: int| 0 <= a < i ==> listed(out@, #[trigger] base@[a].0@),
        decreases base@.len() - i,
    {
        let name = &base[i].0;
        let version = &base[i].1;
        let comparison_version = match position_of_name(comparison, name.as_str()) {
            Some(j) => Some(comparison[j].1.clone()),
            None => None,
        };
        let status = match &comparison_version {
            Some(v) => if same_text(version.as_str(), v.as_str()) {
                ComponentStatus::Same
            } else {
                ComponentStatus::Updated
            },
            None => ComponentStatus::Removed,
        };
        let d = ComponentDiff {
            name: name.clone(),
            base_version: Some(version.clone()),
            comparison_version,
            status,
        };
        proof {
            lemma_version_at(base@, i as int);
            assert(describes(base@, comparison@, d@));
            assert forall|k: int| 0 <= k < out@.len() implies (#[trigger] out@[k]).name@ != d.name@ by {
                assert(named_below(base@, i as int, out@[k].name@));
                let a = choose|a: int| 0 <= a < i && #[trigger] base@[a].0@ == out@[k].name@;
                assert(base@[a].0@ != base@[i as int].0@);
            }
        }
        let ghost old_out = out@;
        let ghost dd = d;
        insert_by_name(&mut out, d);
        proof {
            let p = choose|p: int| 0 <= p <= old_out.len() && out@ == old_out.insert(p, dd);
            assert forall|k: int| 0 <= k < out@.len() implies describes(
                base@,
                comparison@,
                #[trigger] out@[k]@,
            ) && named_below(base@, i + 1, out@[k].name@) by {
                if k < p {
                    assert(out@[k] == old_out[k]);
                    assert(named_below(base@, i as int, old_out[k].name@));
                } else if k == p {
                    assert(base@[i as int].0@ == out@[k].name@);
                } else {
                    assert(out@[k] == old_out[k - 1]);
                    assert(named_below(base@, i as int, old_out[k - 1].name@));
                }
            }
            assert forall|a: int| 0 <= a < i + 1 implies listed(out@, #[trigger] base@[a].0@) by {
                if a < i {
                    lemma_insert_keeps_listed(old_out, p, dd, base@[a].0@);
                } else {
                    assert(out@[p].name@ == base@[a].0@);
                }
            }
        }
        i += 1;
    }
    let mut j: usize = 0;
    while j < comparison.len()
        invariant
            distinct_names(base@),
            distinct_names(comparison@),
            j <= comparison@.len(),
            sorted_by_name(out@),
            forall|k: int| 0 <= k < out@.len() ==> describes(base@, comparison@, #[trigger] out@[k]@),
            forall|k: int|
                0 <= k < out@.len() ==> has_name(base@, #[trigger] out@[k].name@) || named_below(
                    comparison@,
                    j as int,
                    out@[k].name@,
                ),
            forall|a: int| 0 <= a < base@.len() ==> listed(out@, #[trigger] base@[a].0@),
            forall|b: int| 0 <= b < j ==> listed(out@, #[trigger] comparison@[b].0@),
        decreases comparison@.len() - j,
    {
        let name = &comparison[j].0;
        let ghost old_out = out@;
        if position_of_name(base, name.as_str()).is_none() {
            let d = ComponentDiff {
                name: name.clone(),
                base_version: None,
                comparison_version: Some(comparison[j].1.clone()),
                status: ComponentStatus::Added,
            };
            proof {
                lemma_version_at(comparison@, j as int);
                assert(describes(base@, comparison@, d@));
                assert forall|k: int| 0 <= k < out@.len() implies (#[trigger] out@[k]).name@
                    != d.name@ by {
                    if !has_name(base@, out@[k].name@) {
                        assert(named_below(comparison@, j as int, out@[k].name@));
                        let b = choose|b: int|
                            0 <= b < j && #[trigger] comparison@[b].0@ == out@[k].name@;
                        assert(comparison@[b].0@ != comparison@[j as int].0@);
                    }
                }
            }
            let ghost dd = d;
            insert_by_name(&mut out, d);
            proof {
                let p = choose|p: int| 0 <= p <= old_out.len() && out@ == old_out.insert(p, dd);
                assert forall|k: int| 0 <= k < out@.len() implies describes(
                    base@,
                    comparison@,
                    #[trigger] out@[k]@,
                ) && (has_name(base@, out@[k].name@) || named_below(
                    comparison@,
                    j + 1,
                    out@[k].name@,
                )) by {
                    if k < p {
                        assert(out@[k] == old_out[k]);
                        if !has_name(base@, old_out[k].name@) {
                            assert(named_below(comparison@, j as int, old_out[k].name@));
                        }
                    } else if k == p {
                        assert(comparison@[j as int].0@ == out@[k].name@);
                    } else {
                        assert(out@[k] == old_out[k - 1]);
                        if !has_name(base@, old_out[k - 1].name@) {
                            assert(named_below(comparison@, j as int, old_out[k - 1].name@));
                        }
                    }
                }
                assert forall|a: int| 0 <= a < base@.len() implies listed(
                    out@,
                    #[trigger] base@[a].0@,
                ) by {
                    lemma_insert_keeps_listed(old_out, p, dd, base@[a].0@);
                }
                assert forall|b: int| 0 <= b < j + 1 implies listed(
                    out@,
                    #[trigger] comparison@[b].0@,
                ) by {
                    if b < j {
                        lemma_insert_keeps_listed(old_out, p, dd, comparison@[b].0@);
                    } else {
                        assert(out@[p].name@ == comparison@[b].0@);
                    }
                }
            }
        } else {
            proof {
                assert(has_name(base@, comparison@[j as int].0@));
                let a = choose|a: int| 0 <= a < base@.len() && #[trigger] base@[a].0@ == comparison@[j as int].0@;
                assert(listed(out@, base@[a].0@));
                assert forall|k: int|
                    0 <= k < out@.len() implies has_name(base@, #[trigger] out@[k].name@) || named_below(
                    comparison@,
                    j + 1,
                    out@[k].name@,
                ) by {
                    if !has_name(base@, out@[k].name@) {
                        assert(named_below(comparison@, j as int, out@[k].name@));
                        let b = choose|b: int|
                            0 <= b < j && #[trigger] comparison@[b].0@ == out@[k].name@;
                        assert(comparison@[b].0@ == out@[k].name@);
                    }
                }
            }
        }
        j += 1;
    }
    out
}

/// A version as shown in a report.
pub open spec fn or_unknown(v: Option<Seq<char>>) -> Seq<char> {
    match v {
        Some(s) => s,
        None => "unknown"@,
    }
}

/// The report line of one dependency; none for an unchanged one.
pub open spec fn component_line(d: ComponentDiffView) -> Seq<char> {
    match d.status {
        ComponentStatus::Same => Seq::empty(),
        ComponentStatus::Updated => "│   "@ + d.name + " "@ + or_unknown(d.base_version) + " → "@
            + or_unknown(d.comparison_version) + "\n"@,
        ComponentStatus::Added => "│   "@ + d.name + " added "@ + or_unknown(d.comparison_version)
            + "\n"@,
        ComponentStatus::Removed => "│   "@ + d.name + " removed "@ + or_unknown(d.base_version)
            + "\n"@,
    }
}

pub open spec fn component_lines(ds: Seq<ComponentDiff>) -> Seq<char>
    decreases ds.len(),
{
    if ds.len() == 0 {
        Seq::empty()
    } else {
        component_lines(ds.drop_last()) + component_line(ds.last()@)
    }
}

/// The report section on dependency versions.
pub open spec fn component_section(ds: Seq<ComponentDiff>) -> Seq<char> {
    if ds.len() == 0 {
        "│ No component version changes found.\n"@
    } else {
        "│\n│ 🔧 Component version changes:\n"@ + component_lines(ds)
    }
}

fn append_version(report: &mut String, v: &Option<String>)
    ensures
        final(report)@ == old(report)@ + or_unknown(opt_text(*v)),
{
    match v {
        Some(s) => report.append(s.as_str()),
        None => report.append("unknown"),
    }
}

/// Appends the report section on dependency versions: a line for each
/// dependency that was updated, added or removed.
pub fn add_component_diff_to_report(report: &mut String, component_diffs: &[ComponentDiff])
    ensures
        final(report)@ == old(report)@ + component_section(component_diffs@),
{
    if component_diffs.len() == 0 {
        report.append("│ No component version changes found.\n");
        return;
    }
    report.append("│\n│ 🔧 Component version changes:\n");
    let ghost head = report@;
    let mut i: usize = 0;
    assert(component_diffs@.subrange(0, 0) =~= Seq::<ComponentDiff>::empty());
    while i < component_diffs.len()
        invariant
            i <= component_diffs@.len(),
            report@ == head + component_lines(component_diffs@.subrange(0, i as int)),
        decreases component_diffs@.len() - i,
    {
        let d = &component_diffs[i];
        let ghost before = report@;
        match d.status {
            ComponentStatus::Same => {},
            ComponentStatus::Updated => {
                report.append("│   ");
                report.append(d.name.as_str());
                report.append(" ");
                append_version(report, &d.base_version);
                report.append(" → ");
                append_version(report, &d.comparison_version);
                report.append("\n");
            },
            ComponentStatus::Added => {
                report.append("│   ");
                report.append(d.name.as_str());
                report.append(" added ");
                append_version(report, &d.comparison_version);
                report.append("\n");
            },
            ComponentStatus::Removed => {
                report.append("│   ");
                report.append(d.name.as_str());
                report.append(" removed ");
                append_version(report, &d.base_version);
                report.append("\n");
            },
        }
        proof {
            assert(report@ =~= before + component_line(d@));
            assert(component_diffs@.subrange(0, i + 1).drop_last() =~= component_diffs@.subrange(
                0,
                i as int,
            ));
        }
        i += 1;
    }
    assert(component_diffs@.subrange(0, i as int) =~= component_diffs@);
}

} // verus!
