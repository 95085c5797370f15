use vstd::prelude::*;
use vstd::string::*;

use crate::order::{is_time_order, time_order};
pub use crate::registry::find_tags_by_sha;
use crate::repo::{get_commit_timestamp, CommitGraph};
use crate::text::{all_ascii_alnum, ends_with, is_ascii_alnum_spec, opt_text, same_text, starts_with};
use crate::time::{is_weekend_spec, Timestamp};

verus! {

/// Characters before the build identifier in a nightly tag's name.
pub open spec fn nightly_prefix() -> Seq<char> {
    "nightly-full-main-"@
}

/// Role suffix that marks the tag kept for each nightly.
pub open spec fn role_suffix() -> Seq<char> {
    "-jmx"@
}

/// The build identifier held by a tag name: the fourth `-`-separated token,
/// when the name carries the nightly prefix and the role suffix and that
/// token is eight ASCII letters or digits.
pub open spec fn tag_sha_spec(name: Seq<char>) -> Option<Seq<char>> {
    if nightly_prefix().is_prefix_of(name) && role_suffix().is_suffix_of(name) && name.len() >= 26
        && (name.len() == 26 || name[26] == '-') && (forall|i: int|
        18 <= i < 26 ==> is_ascii_alnum_spec(#[trigger] name[i])) {
        Some(name.subrange(18, 26))
    } else {
        None
    }
}

/// One registry entry.
#[derive(Debug)]
pub struct Tag {
    pub name: String,
    pub last_pushed: Timestamp,
    pub digest: String,
}

pub struct TagView {
    pub name: Seq<char>,
    pub last_pushed: Timestamp,
    pub digest: Seq<char>,
}

impl View for Tag {
    type V = TagView;

    open spec fn view(&self) -> TagView {
        TagView { name: self.name@, last_pushed: self.last_pushed, digest: self.digest@ }
    }
}

impl Clone for Tag {
    fn clone(&self) -> (r: Tag)
        ensures
            r@ == self@,
    {
        Tag { name: self.name.clone(), last_pushed: self.last_pushed, digest: self.digest.clone() }
    }
}

impl Tag {
    /// The build identifier embedded in the tag's name, if it has one.
    pub fn get_sha(&self) -> (r: Option<&str>)
        ensures
            match r {
                Some(s) => tag_sha_spec(self.name@) == Some(s@),
                None => tag_sha_spec(self.name@) is None,
            },
    {
        sha_in_name(self.name.as_str())
    }
}

/// The build identifier in a nightly tag's name.
pub fn extract_sha_from_tag(tag: &str) -> (r: Option<String>)
    ensures
        opt_text(r) == tag_sha_spec(tag@),
{
    match sha_in_name(tag) {
        Some(s) => Some(s.to_owned()),
        None => None,
    }
}

/// Prefix of a full image reference to a nightly tag.
pub open spec fn image_prefix() -> Seq<char> {
    "datadog/agent-dev:"@
}

/// The build identifier that a user names a nightly by: a full image
/// reference or a tag name holding one, or the identifier itself (eight
/// ASCII letters or digits).
pub open spec fn nightly_identifier_spec(input: Seq<char>) -> Option<Seq<char>> {
    if image_prefix().is_prefix_of(input) {
        tag_sha_spec(input.skip(image_prefix().len() as int))
    } else if nightly_prefix().is_prefix_of(input) && role_suffix().is_suffix_of(input) {
        tag_sha_spec(input)
    } else if input.len() == 8 && forall|i: int| 0 <= i < 8 ==> is_ascii_alnum_spec(#[trigger] input[i]) {
        Some(input)
    } else {
        None
    }
}

/// Reads the build identifier out of a tag name, an image reference or a
/// bare identifier.
pub fn parse_nightly_identifier(input: &str) -> (r: Option<String>)
    ensures
        opt_text(r) == nightly_identifier_spec(input@),
{
    proof {
        reveal_strlit("datadog/agent-dev:");
        reveal_strlit("nightly-full-main-");
        reveal_strlit("-jmx");
    }
    if starts_with(input, "datadog/agent-dev:") {
        let n = input.unicode_len();
        let tag = input.substring_char(18, n);
        assert(tag@ =~= input@.skip(18));
        return extract_sha_from_tag(tag);
    }
    if starts_with(input, "nightly-full-main-") && ends_with(input, "-jmx") {
        return extract_sha_from_tag(input);
    }
    if input.unicode_len() == 8 && all_ascii_alnum(input) {
        return Some(input.to_owned());
    }
    None
}

fn sha_in_name(name: &str) -> (r: Option<&str>)
    ensures
        match r {
            Some(s) => tag_sha_spec(name@) == Some(s@),
            None => tag_sha_spec(name@) is None,
        },
{
        proof {
            reveal_strlit("nightly-full-main-");
            reveal_strlit("-jmx");
        }
        if starts_with(name, "nightly-full-main-") && ends_with(name, "-jmx") {
            let n = name.unicode_len();
            if n >= 26 && (n == 26 || name.get_char(26) == '-') {
                let sha = name.substring_char(18, 26);
                if all_ascii_alnum(sha) {
                    proof {
                        assert forall|i: int| 18 <= i < 26 implies is_ascii_alnum_spec(
                            name@[i],
                        ) by {
                            assert(sha@[i - 18] == name@[i]);
                        }
                    }
                    return Some(sha);
                } else {
                    proof {
                        let j = choose|j: int| 0 <= j < sha@.len() && !is_ascii_alnum_spec(sha@[j]);
                        assert(sha@[j] == name@[j + 18]);
                    }
                }
            }
        }
        None
}

/// The record of one nightly build.
#[derive(Debug)]
pub struct Nightly {
    pub sha: String,
    pub estimated_last_pushed: Timestamp,
    pub sha_timestamp: Option<Timestamp>,
    pub tag: Tag,
}

pub struct NightlyView {
    pub sha: Seq<char>,
    pub estimated_last_pushed: Timestamp,
    pub sha_timestamp: Option<Timestamp>,
    pub tag: TagView,
}

impl View for Nightly {
    type V = NightlyView;

    open spec fn view(&self) -> NightlyView {
        NightlyView {
            sha: self.sha@,
            estimated_last_pushed: self.estimated_last_pushed,
            sha_timestamp: self.sha_timestamp,
            tag: self.tag@,
        }
    }
}

impl Clone for Nightly {
    fn clone(&self) -> (r: Nightly)
        ensures
            r@ == self@,
    {
        Nightly {
            sha: self.sha.clone(),
            estimated_last_pushed: self.estimated_last_pushed,
            sha_timestamp: self.sha_timestamp,
            tag: self.tag.clone(),
        }
    }
}

pub open spec fn tag_views(s: Seq<Tag>) -> Seq<TagView> {
    s.map_values(|t: Tag| t@)
}

pub open spec fn nightly_views(s: Seq<Nightly>) -> Seq<NightlyView> {
    s.map_values(|n: Nightly| n@)
}

/// Some nightly of `ns` has build identifier `sha`.
pub open spec fn has_sha(ns: Seq<NightlyView>, sha: Seq<char>) -> bool {
    exists|i: int| 0 <= i < ns.len() && #[trigger] ns[i].sha == sha
}

/// No two nightlies of `ns` share a build identifier.
pub open spec fn unique_shas(ns: Seq<NightlyView>) -> bool {
    forall|i: int, j: int| 0 <= i < j < ns.len() ==> #[trigger] ns[i].sha != #[trigger] ns[j].sha
}

/// The nightly made from tag `t` with build identifier `sha`.
pub open spec fn nightly_from_tag(g: &CommitGraph, t: TagView, sha: Seq<char>) -> NightlyView {
    NightlyView {
        sha,
        estimated_last_pushed: t.last_pushed,
        sha_timestamp: g.commit_time_spec(sha),
        tag: t,
    }
}

/// `ns` after taking in `tags` in order: each tag with a build identifier
/// that no nightly has yet adds one nightly at the end.
pub open spec fn merged(g: &CommitGraph, ns: Seq<NightlyView>, tags: Seq<TagView>) -> Seq<
    NightlyView,
>
    decreases tags.len(),
{
    if tags.len() == 0 {
        ns
    } else {
        let rest = merged(g, ns, tags.drop_last());
        let t = tags.last();
        match tag_sha_spec(t.name) {
            Some(sha) => if has_sha(rest, sha) {
                rest
            } else {
                rest.push(nightly_from_tag(g, t, sha))
            },
            None => rest,
        }
    }
}

/// The time by which nightlies are ordered: the commit time when it is
/// known, else the registry push time.
pub open spec fn effective_spec(n: NightlyView) -> Timestamp {
    match n.sha_timestamp {
        Some(t) => t,
        None => n.estimated_last_pushed,
    }
}

pub open spec fn effective_times(ns: Seq<Nightly>) -> Seq<Timestamp> {
    ns.map_values(|n: Nightly| effective_spec(n@))
}

impl Nightly {
    /// Its timestamps lie within the range of the calendar.
    pub open spec fn wf(&self) -> bool {
        &&& self.estimated_last_pushed.wf()
        &&& self.sha_timestamp matches Some(t) ==> t.wf()
    }

    /// Whether its timestamps lie within the range of the calendar.
    pub fn is_valid(&self) -> (r: bool)
        ensures
            r == self.wf(),
    {
        self.estimated_last_pushed.is_valid() && match self.sha_timestamp {
            Some(t) => t.is_valid(),
            None => true,
        }
    }

    /// Whether the image was pushed on a Saturday or a Sunday (UTC).
    pub fn is_weekend_build(&self) -> (r: bool)
        requires
            self.estimated_last_pushed.wf(),
        ensures
            r == is_weekend_spec(self.estimated_last_pushed),
    {
        self.estimated_last_pushed.is_weekend()
    }

    /// The commit time when it is known, else the registry push time.
    pub fn effective_timestamp(&self) -> (r: Timestamp)
        ensures
            r == effective_spec(self@),
    {
        match self.sha_timestamp {
            Some(t) => t,
            None => self.estimated_last_pushed,
        }
    }
}

/// Ordering falls back on the push time only where the commit time is
/// unknown: a known commit time decides whatever the push time.
pub proof fn lemma_effective_time_fallback(n: NightlyView)
    ensures
        n.sha_timestamp is None ==> effective_spec(n) == n.estimated_last_pushed,
        forall|t: Timestamp| n.sha_timestamp == Some(t) ==> effective_spec(n) == t,
{
}

/// The positions of `nightlies` ordered by effective time, oldest or newest
/// first, equal times in the order given.
pub fn order_by_effective_time(nightlies: &Vec<Nightly>, newest_first: bool) -> (r: Vec<usize>)
    ensures
        is_time_order(effective_times(nightlies@), r@, newest_first),
{
    let mut times: Vec<Timestamp> = Vec::new();
    let mut i: usize = 0;
    while i < nightlies.len()
        invariant
            i <= nightlies@.len(),
            times@ == effective_times(nightlies@).subrange(0, i as int),
        decreases nightlies@.len() - i,
    {
        times.push(nightlies[i].effective_timestamp());
        i += 1;
        proof {
            assert(times@ =~= effective_times(nightlies@).subrange(0, i as int));
        }
    }
    proof {
        assert(times@ =~= effective_times(nightlies@));
    }
    time_order(&times, newest_first)
}

/// Position of the first nightly whose build identifier is `sha`.
fn position_of_sha(nightlies: &Vec<Nightly>, sha: &str) -> (r: Option<usize>)
    ensures
        match r {
            Some(i) => i < nightlies@.len() && nightlies@[i as int].sha@ == sha@ && forall|j: int|
                0 <= j < i ==> nightlies@[j].sha@ != sha@,
            None => !has_sha(nightly_views(nightlies@), sha@),
        },
{
    let mut i: usize = 0;
    while i < nightlies.len()
        invariant
            i <= nightlies@.len(),
            forall|j: int| 0 <= j < i ==> nightlies@[j].sha@ != sha@,
        decreases nightlies@.len() - i,
    {
        if same_text(nightlies[i].sha.as_str(), sha) {
            return Some(i);
        }
        i += 1;
    }
    proof {
        let vs = nightly_views(nightlies@);
        assert forall|j: int| 0 <= j < vs.len() implies vs[j].sha != sha@ by {
            assert(vs[j].sha == nightlies@[j].sha@);
        }
    }
    None
}

/// The first nightly whose build identifier is `sha`.
pub fn find_nightly_by_sha<'a>(nightlies: &'a Vec<Nightly>, sha: &str) -> (r: Option<&'a Nightly>)
    ensures
        match r {
            Some(n) => exists|i: int|
                0 <= i < nightlies@.len() && nightlies@[i] == *n && n.sha@ == sha@ && forall|j: int|
                    0 <= j < i ==> nightlies@[j].sha@ != sha@,
            None => !has_sha(nightly_views(nightlies@), sha@),
        },
{
    match position_of_sha(nightlies, sha) {
        Some(i) => Some(&nightlies[i]),
        None => None,
    }
}

/// Adds to `nightlies`, in the order of `tags`, one nightly for each tag
/// whose build identifier no nightly has yet. A new nightly's push time is
/// the tag's; its commit time is looked up in `graph` and left out when the
/// lookup fails. Existing nightlies are kept as they are.
pub fn enrich_nightlies(tags: &[Tag], nightlies: &mut Vec<Nightly>, graph: &CommitGraph)
    requires
        graph.wf(),
    ensures
        nightly_views(final(nightlies)@) == merged(
            graph,
            nightly_views(old(nightlies)@),
            tag_views(tags@),
        ),
{
    let ghost init = nightly_views(nightlies@);
    let mut i: usize = 0;
    while i < tags.len()
        invariant
            graph.wf(),
            i <= tags@.len(),
            nightly_views(nightlies@) == merged(graph, init, tag_views(tags@.subrange(0, i as int))),
        decreases tags@.len() - i,
    {
        let tag = &tags[i];
        let ghost before = nightlies@;
        proof {
            assert(tag_views(tags@.subrange(0, i + 1)).drop_last() =~= tag_views(
                tags@.subrange(0, i as int),
            ));
            assert(tag_views(tags@.subrange(0, i + 1)).last() == tag@);
        }
        match tag.get_sha() {
            Some(sha) => {
                let pos = position_of_sha(nightlies, sha);
                proof {
                    if let Some(k) = pos {
                        assert(nightly_views(nightlies@)[k as int].sha == sha@);
                    }
                }
                if pos.is_none() {
                    let sha_timestamp = match get_commit_timestamp(graph, sha) {
                        Ok(t) => Some(t),
                        Err(_) => None,
                    };
                    let nightly = Nightly {
                        sha: sha.to_owned(),
                        estimated_last_pushed: tag.last_pushed,
                        sha_timestamp,
                        tag: tag.clone(),
                    };
                    nightlies.push(nightly);
                    proof {
                        assert(nightly_views(nightlies@) =~= nightly_views(before).push(
                            nightly_from_tag(graph, tag@, sha@),
                        ));
                    }
                }
            },
            None => {},
        }
        proof {
            let tv = tag_views(tags@.subrange(0, i + 1));
            assert(merged(graph, init, tv) == match tag_sha_spec(tag@.name) {
                Some(sha) => if has_sha(merged(graph, init, tv.drop_last()), sha) {
                    merged(graph, init, tv.drop_last())
                } else {
                    merged(graph, init, tv.drop_last()).push(nightly_from_tag(graph, tag@, sha))
                },
                None => merged(graph, init, tv.drop_last()),
            });
        }
        i += 1;
    }
    proof {
        assert(tags@.subrange(0, tags@.len() as int) =~= tags@);
    }
}

pub open spec fn push_times(ns: Seq<NightlyView>) -> Seq<Timestamp> {
    ns.map_values(|n: NightlyView| n.estimated_last_pushed)
}

/// One nightly for each distinct build identifier among the tags (the first
/// tag that carries it), newest push first, equal push times in tag order.
/// Commit times are looked up in `graph`.
pub fn tags_to_nightlies(tags: &[Tag], graph: &CommitGraph) -> (r: Vec<Nightly>)
    requires
        graph.wf(),
    ensures
        unique_shas(nightly_views(r@)),
        exists|order: Seq<usize>|
            is_time_order(push_times(merged(graph, Seq::empty(), tag_views(tags@))), order, true)
                && nightly_views(r@) == order.map_values(
                |i: usize| merged(graph, Seq::empty(), tag_views(tags@))[i as int],
            ),
{
    let mut made: Vec<Nightly> = Vec::new();
    assert(nightly_views(made@) =~= Seq::<NightlyView>::empty());
    enrich_nightlies(tags, &mut made, graph);
    let ghost fresh = nightly_views(made@);
    proof {
        assert(unique_shas(Seq::<NightlyView>::empty()));
        lemma_merge_no_duplicate_shas(graph, Seq::empty(), tag_views(tags@));
    }
    let mut times: Vec<Timestamp> = Vec::new();
    let mut i: usize = 0;
    while i < made.len()
        invariant
            fresh == nightly_views(made@),
            i <= made@.len(),
            times@ == push_times(fresh).subrange(0, i as int),
        decreases made@.len() - i,
    {
        times.push(made[i].estimated_last_pushed);
        i += 1;
        proof {
            assert(times@ =~= push_times(fresh).subrange(0, i as int));
        }
    }
    proof {
        assert(times@ =~= push_times(fresh));
    }
    let order = time_order(&times, true);
    let mut out: Vec<Nightly> = Vec::new();
    let mut k: usize = 0;
    while k < order.len()
        invariant
            fresh == nightly_views(made@),
            is_time_order(times@, order@, true),
            times@.len() == made@.len(),
            k <= order@.len(),
            nightly_views(out@) == order@.subrange(0, k as int).map_values(|i: usize| fresh[i as int]),
        decreases order@.len() - k,
    {
        let ghost before = out@;
        out.push(made[order[k]].clone());
        proof {
            let o = order@[k as int] as int;
            assert(0 <= o < made@.len());
            assert(fresh[o] == made@[o]@);
            assert(nightly_views(out@) =~= nightly_views(before).push(fresh[o]));
            assert(nightly_views(out@) =~= order@.subrange(0, k + 1).map_values(
                |i: usize| fresh[i as int],
            ));
        }
        k += 1;
    }
    proof {
        assert(order@.subrange(0, k as int) =~= order@);
        let r = nightly_views(out@);
        assert forall|a: int, b: int| 0 <= a < b < r.len() implies #[trigger] r[a].sha
            != #[trigger] r[b].sha by {
            let oa = order@[a] as int;
            let ob = order@[b] as int;
            assert(r[a] == fresh[oa] && r[b] == fresh[ob]);
            if oa == ob {
                assert(times@[order@[a] as int] == times@[order@[b] as int]);
            } else if oa < ob {
                assert(fresh[oa].sha != fresh[ob].sha);
            } else {
                assert(fresh[ob].sha != fresh[oa].sha);
            }
        }
    }
    out
}

/// Merging keeps every nightly that was already there, unchanged and in
/// its place: the earlier set is a prefix of the result.
pub proof fn lemma_merge_keeps_existing(g: &CommitGraph, ns: Seq<NightlyView>, tags: Seq<TagView>)
    ensures
        ns.len() <= merged(g, ns, tags).len(),
        forall|i: int| 0 <= i < ns.len() ==> #[trigger] merged(g, ns, tags)[i] == ns[i],
    decreases tags.len(),
{
    if tags.len() > 0 {
        lemma_merge_keeps_existing(g, ns, tags.drop_last());
        let rest = merged(g, ns, tags.drop_last());
        match tag_sha_spec(tags.last().name) {
            Some(sha) => if !has_sha(rest, sha) {
                let r = rest.push(nightly_from_tag(g, tags.last(), sha));
                assert forall|i: int| 0 <= i < ns.len() implies r[i] == ns[i] by {
                    assert(r[i] == rest[i]);
                }
            },
            None => {},
        }
    }
}

/// After a merge, every build identifier of the merged tags is present.
pub proof fn lemma_merge_covers(g: &CommitGraph, ns: Seq<NightlyView>, tags: Seq<TagView>)
    ensures
        forall|k: int|
            0 <= k < tags.len() ==> (#[trigger] tag_sha_spec(tags[k].name) matches Some(s) ==> has_sha(
                merged(g, ns, tags),
                s,
            )),
    decreases tags.len(),
{
    if tags.len() > 0 {
        let front = tags.drop_last();
        lemma_merge_covers(g, ns, front);
        let rest = merged(g, ns, front);
        let m = merged(g, ns, tags);
        assert forall|k: int| 0 <= k < tags.len() implies (#[trigger] tag_sha_spec(
            tags[k].name,
        ) matches Some(s) ==> has_sha(m, s)) by {
            if let Some(s) = tag_sha_spec(tags[k].name) {
                if k < tags.len() - 1 {
                    assert(front[k] == tags[k]);
                    assert(has_sha(rest, s));
                    let j = choose|j: int| 0 <= j < rest.len() && #[trigger] rest[j].sha == s;
                    if m != rest {
                        assert(m[j] == rest[j]);
                    }
                    assert(m[j].sha == s);
                } else {
                    if !has_sha(rest, s) {
                        assert(m[rest.len() as int].sha == s);
                    }
                }
            }
        }
    }
}

/// Merging tags whose build identifiers are all present changes nothing.
pub proof fn lemma_merge_present_is_noop(g: &CommitGraph, ns: Seq<NightlyView>, tags: Seq<TagView>)
    requires
        forall|k: int|
            0 <= k < tags.len() ==> (#[trigger] tag_sha_spec(tags[k].name) matches Some(s) ==> has_sha(
                ns,
                s,
            )),
    ensures
        merged(g, ns, tags) == ns,
    decreases tags.len(),
{
    if tags.len() > 0 {
        let front = tags.drop_last();
        assert forall|k: int| 0 <= k < front.len() implies (#[trigger] tag_sha_spec(
            front[k].name,
        ) matches Some(s) ==> has_sha(ns, s)) by {
            assert(front[k] == tags[k]);
        }
        lemma_merge_present_is_noop(g, ns, front);
        assert(tag_sha_spec(tags[tags.len() - 1].name) == tag_sha_spec(tags.last().name));
    }
}

/// Merging the same tags a second time changes nothing: the result has the
/// same nightlies, so the same number of them.
pub proof fn lemma_merge_idempotent(g: &CommitGraph, ns: Seq<NightlyView>, tags: Seq<TagView>)
    ensures
        merged(g, merged(g, ns, tags), tags) == merged(g, ns, tags),
        merged(g, merged(g, ns, tags), tags).len() == merged(g, ns, tags).len(),
{
    lemma_merge_covers(g, ns, tags);
    lemma_merge_present_is_noop(g, merged(g, ns, tags), tags);
}

/// A merge into a set without repeated build identifiers leaves none.
pub proof fn lemma_merge_no_duplicate_shas(g: &CommitGraph, ns: Seq<NightlyView>, tags: Seq<TagView>)
    requires
        unique_shas(ns),
    ensures
        unique_shas(merged(g, ns, tags)),
    decreases tags.len(),
{
    if tags.len() > 0 {
        let front = tags.drop_last();
        lemma_merge_no_duplicate_shas(g, ns, front);
        let rest = merged(g, ns, front);
        if let Some(sha) = tag_sha_spec(tags.last().name) {
            if !has_sha(rest, sha) {
                let m = rest.push(nightly_from_tag(g, tags.last(), sha));
                assert forall|i: int, j: int| 0 <= i < j < m.len() implies #[trigger] m[i].sha
                    != #[trigger] m[j].sha by {
                    if j == rest.len() {
                        assert(m[i] == rest[i]);
                    } else {
                        assert(m[i] == rest[i] && m[j] == rest[j]);
                    }
                }
            }
        }
    }
}

} // verus!
