use vstd::prelude::*;

use crate::error::NightlyError;
use crate::nightly::{effective_spec, Nightly, NightlyView};
use crate::order::{is_time_order, may_precede, time_order};
use crate::repo::{get_commit_timestamp, CommitGraph};
use crate::time::Timestamp;

verus! {

/// The nightly was built no earlier than the change was committed.
pub open spec fn built_after(n: NightlyView, change_time: Timestamp) -> bool {
    change_time.le_spec(effective_spec(n))
}

/// The nightly's build commit resolves in the graph and descends from
/// commit `change`.
pub open spec fn contains_change(g: &CommitGraph, n: NightlyView, change: int) -> bool {
    g.resolve_spec(n.sha) matches Some(x) && g.is_ancestor_spec(change, x)
}

/// A nightly of `ns` that was built after the change and contains it.
pub open spec fn is_containing(
    g: &CommitGraph,
    ns: Seq<Nightly>,
    j: int,
    change: int,
    change_time: Timestamp,
) -> bool {
    0 <= j < ns.len() && built_after(ns[j]@, change_time) && contains_change(g, ns[j]@, change)
}

/// Nightly `i` contains the change, no nightly that contains it has an
/// earlier effective time, and none with the same time stands before it.
pub open spec fn is_earliest_containing(
    g: &CommitGraph,
    ns: Seq<Nightly>,
    i: int,
    change: int,
    change_time: Timestamp,
) -> bool {
    &&& is_containing(g, ns, i, change, change_time)
    &&& forall|j: int|
        #[trigger] is_containing(g, ns, j, change, change_time) ==> effective_spec(ns[i]@).le_spec(
            effective_spec(ns[j]@),
        ) && (effective_spec(ns[j]@) == effective_spec(ns[i]@) ==> i <= j)
}

/// Which nightly is the earliest to contain a change depends only on the
/// nightlies' build identifiers and effective times: where the push time
/// of a nightly with a known commit time changes, the choice stays.
pub proof fn lemma_choice_depends_on_effective_times(
    g: &CommitGraph,
    ns1: Seq<Nightly>,
    ns2: Seq<Nightly>,
    i1: int,
    i2: int,
    change: int,
    change_time: Timestamp,
)
    requires
        ns1.len() == ns2.len(),
        forall|j: int|
            0 <= j < ns1.len() ==> (#[trigger] ns1[j]).sha@ == ns2[j].sha@ && effective_spec(ns1[j]@)
                == effective_spec(ns2[j]@),
        is_earliest_containing(g, ns1, i1, change, change_time),
        is_earliest_containing(g, ns2, i2, change, change_time),
    ensures
        i1 == i2,
{
    assert(ns1[i2].sha@ == ns2[i2].sha@);
    assert(ns1[i1].sha@ == ns2[i1].sha@);
    assert(is_containing(g, ns1, i2, change, change_time));
    assert(is_containing(g, ns2, i1, change, change_time));
}

/// Without a nightly that contains the change in one sequence there is none
/// in another that agrees with it on build identifiers and effective times.
pub proof fn lemma_absence_depends_on_effective_times(
    g: &CommitGraph,
    ns1: Seq<Nightly>,
    ns2: Seq<Nightly>,
    change: int,
    change_time: Timestamp,
)
    requires
        ns1.len() == ns2.len(),
        forall|j: int|
            0 <= j < ns1.len() ==> (#[trigger] ns1[j]).sha@ == ns2[j].sha@ && effective_spec(ns1[j]@)
                == effective_spec(ns2[j]@),
        forall|j: int| !#[trigger] is_containing(g, ns1, j, change, change_time),
    ensures
        forall|j: int| !#[trigger] is_containing(g, ns2, j, change, change_time),
{
    assert forall|j: int| !#[trigger] is_containing(g, ns2, j, change, change_time) by {
        if 0 <= j < ns1.len() {
            assert(ns1[j].sha@ == ns2[j].sha@);
            assert(!is_containing(g, ns1, j, change, change_time));
        }
    }
}

/// The earliest nightly, by effective time, whose build commit descends
/// from the change `change_sha`. Only nightlies built no earlier than the
/// change are tried, oldest first; the first that contains the change is
/// returned. Fails as `get_commit_timestamp` does when the change
/// cannot be found on the tracked branch, and with `NoNightlyContaining`
/// when no nightly contains it.
pub fn get_first_nightly_containing_change(
    graph: &CommitGraph,
    nightlies: &Vec<Nightly>,
    change_sha: &str,
) -> (r: Result<Nightly, NightlyError>)
    requires
        graph.wf(),
    ensures
        graph.commit_time_spec(change_sha@) is None ==> (r matches Err(e) && graph.lookup_failure(
            change_sha@,
            e,
        )),
        graph.commit_time_spec(change_sha@) is Some ==> (r is Ok || r matches Err(
            NightlyError::NoNightlyContaining(_),
        )),
        r matches Ok(n) ==> exists|i: int|
            #[trigger] is_earliest_containing(
                graph,
                nightlies@,
                i,
                graph.resolve_spec(change_sha@).unwrap(),
                graph.commit_time_spec(change_sha@).unwrap(),
            ) && n@ == nightlies@[i]@,
        r matches Err(NightlyError::NoNightlyContaining(s)) ==> s@ == change_sha@ && forall|j: int|
            !#[trigger] is_containing(
                graph,
                nightlies@,
                j,
                graph.resolve_spec(change_sha@).unwrap(),
                graph.commit_time_spec(change_sha@).unwrap(),
            ),
{
    let change_time = match get_commit_timestamp(graph, change_sha) {
        Ok(t) => t,
        Err(e) => return Err(e),
    };
    let change = match graph.resolve(change_sha) {
        Some(c) => c,
        None => return Err(NightlyError::StaleCheckout(change_sha.to_owned())),
    };
    let ghost ns = nightlies@;
    let n = nightlies.len();
    // Nightlies built no earlier than the change, with their times.
    let mut cand: Vec<usize> = Vec::new();
    let mut times: Vec<Timestamp> = Vec::new();
    let mut i: usize = 0;
    while i < nightlies.len()
        invariant
            ns == nightlies@,
            i <= ns.len(),
            cand@.len() == times@.len(),
            forall|a: int|
                0 <= a < cand@.len() ==> #[trigger] cand@[a] < ns.len() && times@[a] == effective_spec(
                    ns[cand@[a] as int]@,
                ) && built_after(ns[cand@[a] as int]@, change_time),
            forall|j: int|
                0 <= j < i && built_after(ns[j]@, change_time) ==> #[trigger] cand@.contains(
                    j as usize,
                ),
            forall|a: int| 0 <= a < cand@.len() ==> #[trigger] cand@[a] < i,
            forall|a: int, b: int| 0 <= a < b < cand@.len() ==> #[trigger] cand@[a] < #[trigger] cand@[b],
        decreases ns.len() - i,
    {
        let e = nightlies[i].effective_timestamp();
        let ghost old_cand = cand@;
        if change_time.not_after(&e) {
            cand.push(i);
            times.push(e);
            proof {
                assert(cand@[cand@.len() - 1] == i);
                assert forall|j: int|
                    0 <= j < i + 1 && built_after(ns[j]@, change_time) implies #[trigger] cand@.contains(
                    j as usize,
                ) by {
                    if j < i {
                        assert(old_cand.contains(j as usize));
                        let a = choose|a: int| 0 <= a < old_cand.len() && old_cand[a] == j as usize;
                        assert(cand@[a] == old_cand[a]);
                    }
                }
            }
        }
        i += 1;
    }
    let order = time_order(&times, false);
    let mut k: usize = 0;
    while k < order.len()
        invariant
            graph.wf(),
            ns == nightlies@,
            n == ns.len(),
            change < graph.len(),
            graph.resolve_spec(change_sha@) == Some(change as int),
            graph.commit_time_spec(change_sha@) == Some(change_time),
            cand@.len() == times@.len(),
            is_time_order(times@, order@, false),
            forall|a: int|
                0 <= a < cand@.len() ==> #[trigger] cand@[a] < ns.len() && times@[a] == effective_spec(
                    ns[cand@[a] as int]@,
                ) && built_after(ns[cand@[a] as int]@, change_time),
            forall|j: int|
                0 <= j < ns.len() && built_after(ns[j]@, change_time) ==> #[trigger] cand@.contains(
                    j as usize,
                ),
            forall|a: int, b: int| 0 <= a < b < cand@.len() ==> #[trigger] cand@[a] < #[trigger] cand@[b],
            k <= order@.len(),
            forall|q: int|
                0 <= q < k ==> !contains_change(
                    graph,
                    ns[cand@[#[trigger] order@[q] as int] as int]@,
                    change as int,
                ),
        decreases order@.len() - k,
    {
        let c = cand[order[k]];
        let contains = match graph.resolve(nightlies[c].sha.as_str()) {
            Some(x) => graph.is_ancestor(change, x),
            None => false,
        };
        if contains {
            let found = nightlies[c].clone();
            proof {
                assert(is_containing(graph, ns, c as int, change as int, change_time));
                assert forall|j: int|
                    #[trigger] is_containing(graph, ns, j, change as int, change_time) implies effective_spec(
                    ns[c as int]@,
                ).le_spec(effective_spec(ns[j]@)) && (effective_spec(ns[j]@) == effective_spec(
                    ns[c as int]@,
                ) ==> c <= j) by {
                    assert(cand@.contains(j as usize));
                    let a = choose|a: int| 0 <= a < cand@.len() && cand@[a] == j as usize;
                    assert(cand@[a] as int == j);
                    assert(order@.contains(a as usize));
                    let q = choose|q: int| 0 <= q < order@.len() && order@[q] == a as usize;
                    let ak = order@[k as int] as int;
                    assert(cand@[ak] < ns.len() && times@[ak] == effective_spec(ns[cand@[ak] as int]@));
                    assert(cand@[a] < ns.len() && times@[a] == effective_spec(ns[cand@[a] as int]@));
                    if q < k {
                        assert(!contains_change(graph, ns[cand@[order@[q] as int] as int]@, change as int));
                    } else if q > k {
                        assert(may_precede(
                            times@[order@[k as int] as int],
                            times@[order@[q] as int],
                            false,
                        ));
                        assert(times@[ak] == effective_spec(ns[c as int]@));
                        assert(times@[a] == effective_spec(ns[j]@));
                        if effective_spec(ns[j]@) == effective_spec(ns[c as int]@) {
                            assert(times@[order@[k as int] as int] == times@[order@[q] as int]);
                            assert(order@[k as int] < order@[q]);
                            assert(cand@[ak] < cand@[a]);
                        }
                    } else {
                        assert(a == ak);
                        assert(j == c);
                    }
                }
                assert(graph.commit_time_spec(change_sha@).unwrap() == change_time);
                assert(is_earliest_containing(
                    graph,
                    nightlies@,
                    c as int,
                    graph.resolve_spec(change_sha@).unwrap(),
                    graph.commit_time_spec(change_sha@).unwrap(),
                ));
            }
            return Ok(found);
        }
        k += 1;
    }
    proof {
        assert forall|j: int| !#[trigger] is_containing(graph, ns, j, change as int, change_time) by {
            if is_containing(graph, ns, j, change as int, change_time) {
                assert(cand@.contains(j as usize));
                let a = choose|a: int| 0 <= a < cand@.len() && cand@[a] == j as usize;
                assert(order@.contains(a as usize));
                let q = choose|q: int| 0 <= q < order@.len() && order@[q] == a as usize;
                assert(!contains_change(graph, ns[cand@[order@[q] as int] as int]@, change as int));
            }
        }
    }
    Err(NightlyError::NoNightlyContaining(change_sha.to_owned()))
}

} // verus!
