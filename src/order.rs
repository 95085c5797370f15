use vstd::prelude::*;

use crate::time::Timestamp;

verus! {

/// `a` may stand before `b`: not later when oldest first, not earlier when
/// newest first.
pub open spec fn may_precede(a: Timestamp, b: Timestamp, newest_first: bool) -> bool {
    if newest_first {
        b.le_spec(a)
    } else {
        a.le_spec(b)
    }
}

/// `order` lists each position of `times` once, sorted by time (oldest
/// first, or newest first), with equal times kept in the order given.
pub open spec fn is_time_order(times: Seq<Timestamp>, order: Seq<usize>, newest_first: bool) -> bool {
    &&& order.len() == times.len()
    &&& forall|i: int| 0 <= i < order.len() ==> #[trigger] order[i] < times.len()
    &&& forall|x: usize| x < times.len() ==> #[trigger] order.contains(x)
    &&& forall|i: int, j: int|
        0 <= i < j < order.len() ==> may_precede(
            times[#[trigger] order[i] as int],
            times[#[trigger] order[j] as int],
            newest_first,
        )
    &&& forall|i: int, j: int|
        0 <= i < j < order.len() && times[#[trigger] order[i] as int] == times[#[trigger] order[j] as int]
            ==> order[i] < order[j]
}

/// The positions of `times` in time order; a stable insertion sort.
pub fn time_order(times: &Vec<Timestamp>, newest_first: bool) -> (r: Vec<usize>)
    ensures
        is_time_order(times@, r@, newest_first),
{
    let n = times.len();
    let mut order: Vec<usize> = Vec::new();
    let mut m: usize = 0;
    while m < n
        invariant
            n == times@.len(),
            m <= n,
            order@.len() == m,
            forall|i: int| 0 <= i < order@.len() ==> #[trigger] order@[i] < m,
            forall|x: usize| x < m ==> #[trigger] order@.contains(x),
            forall|i: int, j: int|
                0 <= i < j < order@.len() ==> may_precede(
                    times@[#[trigger] order@[i] as int],
                    times@[#[trigger] order@[j] as int],
                    newest_first,
                ),
            forall|i: int, j: int|
                0 <= i < j < order@.len() && times@[#[trigger] order@[i] as int]
                    == times@[#[trigger] order@[j] as int] ==> order@[i] < order@[j],
        decreases n - m,
    {
        let t = times[m];
        let mut p: usize = 0;
        while p < order.len()
            invariant
                n == times@.len(),
                m < n,
                t == times@[m as int],
                order@.len() == m,
                p <= order@.len(),
                forall|i: int| 0 <= i < order@.len() ==> #[trigger] order@[i] < m,
                forall|q: int|
                    0 <= q < p ==> may_precede(times@[#[trigger] order@[q] as int], t, newest_first),
            ensures
                p <= order@.len(),
                forall|q: int|
                    0 <= q < p ==> may_precede(times@[#[trigger] order@[q] as int], t, newest_first),
                p < order@.len() ==> !may_precede(times@[order@[p as int] as int], t, newest_first),
            decreases order@.len() - p,
        {
            let o = order[p];
            let before = if newest_first {
                t.not_after(&times[o])
            } else {
                times[o].not_after(&t)
            };
            if !before {
                break;
            }
            p += 1;
        }
        let ghost old_order = order@;
        order.insert(p, m);
        proof {
            assert(order@ == old_order.insert(p as int, m));
            assert forall|i: int, j: int| 0 <= i < j < order@.len() implies may_precede(
                times@[#[trigger] order@[i] as int],
                times@[#[trigger] order@[j] as int],
                newest_first,
            ) by {
                if p < old_order.len() {
                    assert(!may_precede(times@[old_order[p as int] as int], t, newest_first));
                }
                if j < p {
                    assert(order@[i] == old_order[i] && order@[j] == old_order[j]);
                } else if j == p {
                    assert(order@[i] == old_order[i]);
                } else if i < p {
                    assert(order@[i] == old_order[i] && order@[j] == old_order[j - 1]);
                } else if i == p {
                    assert(order@[j] == old_order[j - 1]);
                    if j - 1 > p {
                        assert(may_precede(
                            times@[old_order[p as int] as int],
                            times@[old_order[j - 1] as int],
                            newest_first,
                        ));
                    }
                } else {
                    assert(order@[i] == old_order[i - 1] && order@[j] == old_order[j - 1]);
                }
            }
            assert forall|i: int, j: int|
                0 <= i < j < order@.len() && times@[#[trigger] order@[i] as int]
                    == times@[#[trigger] order@[j] as int] implies order@[i] < order@[j] by {
                if p < old_order.len() {
                    assert(!may_precede(times@[old_order[p as int] as int], t, newest_first));
                }
                if j < p {
                    assert(order@[i] == old_order[i] && order@[j] == old_order[j]);
                } else if j == p {
                    assert(order@[i] == old_order[i]);
                } else if i < p {
                    assert(order@[i] == old_order[i] && order@[j] == old_order[j - 1]);
                } else if i == p {
                    assert(order@[j] == old_order[j - 1]);
                    if j - 1 > p {
                        assert(may_precede(
                            times@[old_order[p as int] as int],
                            times@[old_order[j - 1] as int],
                            newest_first,
                        ));
                    }
                } else {
                    assert(order@[i] == old_order[i - 1] && order@[j] == old_order[j - 1]);
                }
            }
            assert forall|x: usize| x < m + 1 implies #[trigger] order@.contains(x) by {
                if x == m {
                    assert(order@[p as int] == m);
                } else {
                    assert(old_order.contains(x));
                    let k = choose|k: int| 0 <= k < old_order.len() && old_order[k] == x;
                    if k < p {
                        assert(order@[k] == old_order[k]);
                    } else {
                        assert(order@[k + 1] == old_order[k]);
                    }
                }
            }
            assert forall|i: int| 0 <= i < order@.len() implies #[trigger] order@[i] < m + 1 by {
                if i < p {
                    assert(order@[i] == old_order[i]);
                } else if i > p {
                    assert(order@[i] == old_order[i - 1]);
                }
            }
        }
        m += 1;
    }
    order
}

} // verus!
