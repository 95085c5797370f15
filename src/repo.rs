use vstd::prelude::*;
use vstd::string::*;

use crate::error::NightlyError;
pub use crate::locate::get_first_nightly_containing_change;
use crate::text::{parse_u64, parse_u64_spec, starts_with, trim, trim_spec};
use crate::time::{Timestamp, MAX_SECS, NANOS_PER_SEC};

verus! {

/// Fewest characters of a commit id that identify a commit.
pub const MIN_ABBREV: usize = 4;

/// One commit of the local clone: its full id, its commit time in seconds
/// since the Unix epoch, and the positions of its parents in the graph.
pub struct Commit {
    pub id: String,
    pub time: i64,
    pub parents: Vec<usize>,
}

/// The commits of the local clone that the logic reads, newest first in
/// topological order: every parent stands after each of its children.
/// `main_tip` is the position of the tracked remote default branch's tip, if
/// that reference exists.
pub struct CommitGraph {
    pub commits: Vec<Commit>,
    pub main_tip: Option<usize>,
}

impl CommitGraph {
    pub open spec fn len(&self) -> int {
        self.commits@.len() as int
    }

    pub open spec fn id(&self, i: int) -> Seq<char> {
        self.commits@[i].id@
    }

    pub open spec fn time(&self, i: int) -> i64 {
        self.commits@[i].time
    }

    pub open spec fn parents(&self, i: int) -> Seq<usize> {
        self.commits@[i].parents@
    }

    /// Parents lie inside the graph and after their children; the tip lies
    /// inside the graph.
    pub open spec fn wf(&self) -> bool {
        &&& forall|i: int, k: int|
            0 <= i < self.len() && 0 <= k < self.parents(i).len() ==> i < #[trigger] self.parents(
                i,
            )[k] < self.len()
        &&& self.main_tip matches Some(t) ==> t < self.len()
    }

    /// `p` is a parent of commit `c`.
    pub open spec fn is_parent(&self, c: int, p: int) -> bool {
        0 <= c < self.len() && exists|k: int|
            0 <= k < self.parents(c).len() && #[trigger] self.parents(c)[k] == p
    }

    /// `path` is a walk along parent edges: each commit after the first is a
    /// parent of the one before it.
    pub open spec fn is_path(&self, path: Seq<int>) -> bool {
        &&& path.len() >= 1
        &&& forall|i: int| 0 <= i < path.len() - 1 ==> self.is_parent(path[i], #[trigger] path[i + 1])
    }

    /// `anc` is reachable from `desc` along parent edges (a commit is its own
    /// ancestor).
    pub open spec fn is_ancestor_spec(&self, anc: int, desc: int) -> bool {
        exists|path: Seq<int>| self.is_path(path) && path[0] == desc && path.last() == anc
    }

    /// Commit `i` is the only commit whose id begins with `short`, and
    /// `short` is long enough to name a commit.
    pub open spec fn resolves_to(&self, short: Seq<char>, i: int) -> bool {
        &&& short.len() >= MIN_ABBREV
        &&& 0 <= i < self.len()
        &&& short.is_prefix_of(self.id(i))
        &&& forall|j: int| 0 <= j < self.len() && j != i ==> !short.is_prefix_of(#[trigger] self.id(j))
    }

    pub open spec fn resolve_spec(&self, short: Seq<char>) -> Option<int> {
        if exists|i: int| self.resolves_to(short, i) {
            Some(choose|i: int| self.resolves_to(short, i))
        } else {
            None
        }
    }

    /// Commit `i` is reachable from the tip of the tracked default branch.
    pub open spec fn on_main(&self, i: int) -> bool {
        self.main_tip matches Some(t) && self.is_ancestor_spec(i, t as int)
    }

    /// The commit time of the commit that `sha` names, when it names exactly
    /// one commit, that commit is on the tracked default branch, and its time
    /// lies within the range of a timestamp.
    pub open spec fn commit_time_spec(&self, sha: Seq<char>) -> Option<Timestamp> {
        match self.resolve_spec(sha) {
            Some(i) => if self.on_main(i) && -MAX_SECS <= self.time(i) <= MAX_SECS {
                Some(Timestamp { secs: self.time(i), nanos: 0 })
            } else {
                None
            },
            None => None,
        }
    }

    /// `e` is the failure that looking up `sha` on the tracked branch gives.
    pub open spec fn lookup_failure(&self, sha: Seq<char>, e: NightlyError) -> bool {
        match e {
            NightlyError::StaleCheckout(s) => s@ == sha && self.resolve_spec(sha) is None,
            NightlyError::NotOnMainBranch(s) => s@ == sha && (self.resolve_spec(sha) matches Some(i)
                && !self.on_main(i)),
            NightlyError::DateParseError(s) => s@ == sha && (self.resolve_spec(sha) matches Some(i)
                && self.on_main(i) && self.commit_time_spec(sha) is None),
            _ => false,
        }
    }

    /// Checks the graph's shape; `None` when a parent or the tip lies outside
    /// the graph or a parent stands before its child.
    pub fn new(commits: Vec<Commit>, main_tip: Option<usize>) -> (r: Option<CommitGraph>)
        ensures
            match r {
                Some(g) => g.wf() && g.commits@ == commits@ && g.main_tip == main_tip,
                None => !(CommitGraph { commits, main_tip }).wf(),
            },
    {
        let n = commits.len();
        let mut i: usize = 0;
        while i < n
            invariant
                n == commits@.len(),
                i <= n,
                forall|a: int, k: int|
                    0 <= a < i && 0 <= k < commits@[a].parents@.len() ==> a
                        < #[trigger] commits@[a].parents@[k] < n,
            decreases n - i,
        {
            let ps = &commits[i].parents;
            let mut k: usize = 0;
            while k < ps.len()
                invariant
                    n == commits@.len(),
                    i < n,
                    ps@ == commits@[i as int].parents@,
                    k <= ps@.len(),
                    forall|a: int, k: int|
                        0 <= a < i && 0 <= k < commits@[a].parents@.len() ==> a
                            < #[trigger] commits@[a].parents@[k] < n,
                    forall|j: int| 0 <= j < k ==> i < #[trigger] ps@[j] < n,
                decreases ps@.len() - k,
            {
                let p = ps[k];
                if p <= i || p >= n {
                    let ghost g = CommitGraph { commits, main_tip };
                    assert(g.parents(i as int)[k as int] == p);
                    return None;
                }
                k += 1;
            }
            i += 1;
        }
        if let Some(t) = main_tip {
            if t >= n {
                return None;
            }
        }
        let g = CommitGraph { commits, main_tip };
        assert(g.wf());
        Some(g)
    }

    /// Walking parent edges only moves to later positions.
    pub proof fn lemma_path_order(&self, path: Seq<int>, i: int)
        requires
            self.wf(),
            self.is_path(path),
            0 <= path[0] < self.len(),
            0 <= i < path.len(),
        ensures
            path[0] <= path[i] < self.len(),
            i < path.len() - 1 ==> path[i] < path[i + 1],
        decreases i,
    {
        if i > 0 {
            self.lemma_path_order(path, i - 1);
        }
        if i < path.len() - 1 {
            assert(self.is_parent(path[i], path[i + 1]));
            let k = choose|k: int|
                0 <= k < self.parents(path[i]).len() && #[trigger] self.parents(path[i])[k] == path[i
                    + 1];
            assert(path[i] < self.parents(path[i])[k] < self.len());
        }
    }

    /// A marking that is closed under parents before `anc` and holds the
    /// start of a path holds each commit of it up to `anc`.
    proof fn lemma_marked_closed(&self, marked: Seq<bool>, path: Seq<int>, anc: int, i: int)
        requires
            self.wf(),
            self.is_path(path),
            marked.len() == self.len(),
            0 <= path[0] < self.len(),
            path.last() == anc,
            0 <= i < path.len(),
            marked[path[0]],
            forall|v: int, k: int|
                0 <= v < anc && marked[v] && 0 <= k < self.parents(v).len() && self.parents(v)[k]
                    <= anc ==> marked[#[trigger] self.parents(v)[k] as int],
        ensures
            marked[path[i]],
        decreases i,
    {
        if i > 0 {
            self.lemma_marked_closed(marked, path, anc, i - 1);
            self.lemma_path_order(path, i - 1);
            self.lemma_path_order(path, i);
            self.lemma_path_order(path, path.len() - 1);
            assert(self.is_parent(path[i - 1], path[i]));
            let k = choose|k: int|
                0 <= k < self.parents(path[i - 1]).len() && #[trigger] self.parents(path[i - 1])[k]
                    == path[i];
            self.lemma_order_to_end(path, i);
            assert(path[i - 1] < anc) by {
                if i < path.len() - 1 {
                    self.lemma_path_order(path, i + 0);
                    self.lemma_order_to_end(path, i);
                }
            }
        }
    }

    proof fn lemma_order_to_end(&self, path: Seq<int>, i: int)
        requires
            self.wf(),
            self.is_path(path),
            0 <= path[0] < self.len(),
            0 <= i < path.len(),
        ensures
            path[i] <= path.last(),
        decreases path.len() - i,
    {
        if i < path.len() - 1 {
            self.lemma_path_order(path, i);
            self.lemma_order_to_end(path, i + 1);
        }
    }

    /// Whether `anc` is an ancestor of `desc`. Scans the commits from `desc`
    /// towards older ones in topological order, marking the parents of each
    /// marked commit, and stops on reaching `anc`. Only the positions from
    /// `desc` to `anc` are marked: a commit after `anc` cannot lead to it.
    pub fn is_ancestor(&self, anc: usize, desc: usize) -> (r: bool)
        requires
            self.wf(),
            anc < self.len(),
            desc < self.len(),
        ensures
            r == self.is_ancestor_spec(anc as int, desc as int),
    {
        if anc < desc {
            proof {
                if self.is_ancestor_spec(anc as int, desc as int) {
                    let path = choose|path: Seq<int>|
                        self.is_path(path) && path[0] == desc && path.last() == anc;
                    self.lemma_order_to_end(path, 0);
                }
            }
            return false;
        }
        let n = self.commits.len();
        assert(anc < n);
        let span = anc - desc + 1;
        let mut marked: Vec<bool> = vec![false; span];
        proof {
            assert forall|v: int| 0 <= v < span implies !marked@[v] by {
                assert(cloned(false, marked@[v]));
            }
        }
        marked[0] = true;
        proof {
            let start = seq![desc as int];
            assert(self.is_path(start) && start[0] == desc && start.last() == desc);
        }
        let mut i: usize = desc;
        while i < anc
            invariant
                self.wf(),
                desc <= i <= anc < self.len(),
                span == anc - desc + 1,
                marked@.len() == span,
                marked@[0],
                forall|v: int|
                    desc <= v <= anc && #[trigger] marked@[v - desc] ==> self.is_ancestor_spec(
                        v,
                        desc as int,
                    ),
                forall|v: int, k: int|
                    desc <= v < i && marked@[v - desc] && 0 <= k < self.parents(v).len()
                        && self.parents(v)[k] <= anc ==> marked@[#[trigger] self.parents(v)[k]
                        - desc],
            decreases anc - i,
        {
            if marked[i - desc] {
                let ps = &self.commits[i].parents;
                let mut k: usize = 0;
                while k < ps.len()
                    invariant
                        self.wf(),
                        desc <= i < anc < self.len(),
                        span == anc - desc + 1,
                        ps@ == self.parents(i as int),
                        k <= ps@.len(),
                        marked@.len() == span,
                        marked@[0],
                        marked@[i - desc],
                        forall|v: int|
                            desc <= v <= anc && #[trigger] marked@[v - desc]
                                ==> self.is_ancestor_spec(v, desc as int),
                        forall|v: int, k: int|
                            desc <= v < i && marked@[v - desc] && 0 <= k < self.parents(v).len()
                                && self.parents(v)[k] <= anc ==> marked@[#[trigger] self.parents(
                                v,
                            )[k] - desc],
                        forall|j: int|
                            0 <= j < k && ps@[j] <= anc ==> marked@[#[trigger] ps@[j] - desc],
                    decreases ps@.len() - k,
                {
                    let p = ps[k];
                    if p <= anc {
                        proof {
                            assert(i < self.parents(i as int)[k as int] < self.len());
                            assert(self.is_parent(i as int, p as int));
                            let path = choose|path: Seq<int>|
                                self.is_path(path) && path[0] == desc && path.last() == i;
                            let longer = path.push(p as int);
                            assert forall|j: int| 0 <= j < longer.len() - 1 implies self.is_parent(
                                longer[j],
                                #[trigger] longer[j + 1],
                            ) by {
                                if j < path.len() - 1 {
                                    assert(self.is_parent(path[j], path[j + 1]));
                                }
                            }
                            assert(self.is_path(longer) && longer[0] == desc && longer.last()
                                == p);
                        }
                        marked[p - desc] = true;
                    }
                    k += 1;
                }
            }
            i += 1;
        }
        proof {
            if self.is_ancestor_spec(anc as int, desc as int) {
                let path = choose|path: Seq<int>|
                    self.is_path(path) && path[0] == desc && path.last() == anc;
                let full = Seq::new(
                    self.len() as nat,
                    |v: int| desc <= v <= anc && marked@[v - desc],
                );
                assert forall|v: int, k: int|
                    0 <= v < anc && full[v] && 0 <= k < self.parents(v).len() && self.parents(
                        v,
                    )[k] <= anc implies full[#[trigger] self.parents(v)[k] as int] by {
                    assert(v < self.parents(v)[k] < self.len());
                    assert(marked@[self.parents(v)[k] - desc]);
                }
                assert(full[desc as int]);
                self.lemma_marked_closed(full, path, anc as int, path.len() - 1);
                assert(full[anc as int]);
            }
        }
        marked[anc - desc]
    }

    /// Whether commit `i` is reachable from the tracked branch's tip.
    pub fn is_on_main(&self, i: usize) -> (r: bool)
        requires
            self.wf(),
            i < self.len(),
        ensures
            r == self.on_main(i as int),
    {
        match self.main_tip {
            Some(t) => self.is_ancestor(i, t),
            None => false,
        }
    }

    /// The position of the one commit whose id begins with `short`.
    pub fn resolve(&self, short: &str) -> (r: Option<usize>)
        ensures
            match r {
                Some(i) => self.resolve_spec(short@) == Some(i as int),
                None => self.resolve_spec(short@) is None,
            },
    {
        if short.unicode_len() < MIN_ABBREV {
            return None;
        }
        let n = self.commits.len();
        let mut found: Option<usize> = None;
        let mut i: usize = 0;
        while i < n
            invariant
                n == self.len(),
                i <= n,
                short@.len() >= MIN_ABBREV,
                match found {
                    Some(f) => f < i && short@.is_prefix_of(self.id(f as int)) && forall|j: int|
                        0 <= j < i && j != f ==> !short@.is_prefix_of(#[trigger] self.id(j)),
                    None => forall|j: int| 0 <= j < i ==> !short@.is_prefix_of(#[trigger] self.id(j)),
                },
            decreases n - i,
        {
            if starts_with(self.commits[i].id.as_str(), short) {
                if let Some(f) = found {
                    proof {
                        assert forall|x: int| !self.resolves_to(short@, x) by {
                            if self.resolves_to(short@, x) {
                                if x != f {
                                    assert(!short@.is_prefix_of(self.id(f as int)));
                                } else {
                                    assert(!short@.is_prefix_of(self.id(i as int)));
                                }
                            }
                        }
                    }
                    return None;
                }
                found = Some(i);
            }
            i += 1;
        }
        match found {
            Some(f) => {
                assert(self.resolves_to(short@, f as int));
                proof {
                    let c = choose|x: int| self.resolves_to(short@, x);
                    if c != f {
                        assert(!short@.is_prefix_of(self.id(f as int)));
                    }
                }
                Some(f)
            },
            None => {
                assert forall|x: int| !self.resolves_to(short@, x) by {
                    if 0 <= x < n {
                        assert(!short@.is_prefix_of(self.id(x)));
                    }
                }
                None
            },
        }
    }
}

/// The commit time of the commit on the tracked default branch that
/// `sha` names. Fails with `StaleCheckout` when `sha` names no single
/// commit of the clone, with `NotOnMainBranch` when the commit is not
/// reachable from the branch, and with `DateParseError` when its time
/// cannot be a timestamp.
pub fn get_commit_timestamp(graph: &CommitGraph, sha: &str) -> (r: Result<Timestamp, NightlyError>)
    requires
        graph.wf(),
    ensures
        match r {
            Ok(t) => graph.commit_time_spec(sha@) == Some(t),
            Err(e) => graph.lookup_failure(sha@, e),
        },
        r is Ok <==> graph.commit_time_spec(sha@) is Some,
{
    match graph.resolve(sha) {
        None => Err(NightlyError::StaleCheckout(sha.to_owned())),
        Some(i) => {
            if !graph.is_on_main(i) {
                return Err(NightlyError::NotOnMainBranch(sha.to_owned()));
            }
            let secs = graph.commits[i].time;
            match Timestamp::new(secs, 0) {
                Some(t) => Ok(t),
                None => Err(NightlyError::DateParseError(sha.to_owned())),
            }
        },
    }
}

/// Seconds after a refresh of the tracked branch during which another is
/// skipped.
pub const FETCH_COOLDOWN_SECS: u64 = 300;

/// When to refresh the local clone's tracked branch: never (`skip`), always
/// (`force`), or once the last refresh is more than `cooldown_secs` old.
pub struct FetchPolicy {
    pub skip: bool,
    pub force: bool,
    pub cooldown_secs: u64,
}

/// A refresh is due: not skipped, and forced, or no readable marker of the
/// last refresh (seconds since the epoch), or the clock stands before that
/// time, or more than the cooldown has passed since.
pub open spec fn fetch_due_spec(policy: FetchPolicy, marker: Option<Seq<char>>, now: Timestamp) -> bool {
    if policy.skip {
        false
    } else if policy.force {
        true
    } else {
        match marker {
            None => true,
            Some(m) => match parse_u64_spec(trim_spec(m)) {
                None => true,
                Some(last) => now.key() < last * NANOS_PER_SEC as int || now.key() - last
                    * NANOS_PER_SEC as int > policy.cooldown_secs * NANOS_PER_SEC as int,
            },
        }
    }
}

impl FetchPolicy {
    /// The usual policy: refresh unless refreshed within five minutes.
    pub fn new(skip: bool, force: bool) -> (r: FetchPolicy)
        ensures
            r.skip == skip,
            r.force == force,
            r.cooldown_secs == FETCH_COOLDOWN_SECS,
    {
        FetchPolicy { skip, force, cooldown_secs: FETCH_COOLDOWN_SECS }
    }

    /// Whether the decision depends on the marker of the last refresh and the
    /// clock: neither skipped nor forced.
    pub fn needs_marker(&self) -> (r: bool)
        ensures
            r == (!self.skip && !self.force),
            !r ==> forall|m: Option<Seq<char>>, now: Timestamp|
                #[trigger] fetch_due_spec(*self, m, now) == !self.skip,
    {
        !self.skip && !self.force
    }

    /// Whether to refresh now, given the marker file's text if it could be
    /// read.
    pub fn fetch_due(&self, marker: Option<&str>, now: Timestamp) -> (r: bool)
        requires
            now.wf(),
        ensures
            r == fetch_due_spec(
                *self,
                match marker {
                    Some(m) => Some(m@),
                    None => None,
                },
                now,
            ),
    {
        if self.skip {
            return false;
        }
        if self.force {
            return true;
        }
        match marker {
            None => true,
            Some(m) => match parse_u64(trim(m)) {
                None => true,
                Some(last) => {
                    let now_key: i128 = now.secs as i128 * 1_000_000_000 + now.nanos as i128;
                    let last_key: i128 = last as i128 * 1_000_000_000;
                    let cooldown: i128 = self.cooldown_secs as i128 * 1_000_000_000;
                    now_key < last_key || now_key - last_key > cooldown
                },
            },
        }
    }
}

/// What to tell the operator when a commit cannot be found in the local
/// clone at `repo_path`: the clone is probably out of date, and how to
/// refresh it.
pub fn print_friendly_git_may_be_stale_warning(target_sha: &str, repo_path: &str) -> (r: String)
    ensures
        r@ == "Could not find the target commit: "@ + target_sha@
            + " on 'main' of your datadog-agent checkout at "@ + repo_path@ + "\n"@
            + "Consider running 'git -C "@ + repo_path@ + " fetch --all --tags'"@,
{
    let mut r = String::from_str("Could not find the target commit: ");
    r.append(target_sha);
    r.append(" on 'main' of your datadog-agent checkout at ");
    r.append(repo_path);
    r.append("\n");
    r.append("Consider running 'git -C ");
    r.append(repo_path);
    r.append(" fetch --all --tags'");
    r
}

} // verus!
