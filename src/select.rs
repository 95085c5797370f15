use vstd::prelude::*;

use crate::error::NightlyError;
use crate::nightly::{effective_spec, Nightly, NightlyView};
use crate::order::{is_time_order, may_precede, time_order};
use crate::time::{is_weekend_spec, month_span, Timestamp};

verus! {

/// Every nightly's timestamps lie within the range of the calendar.
pub open spec fn all_wf(ns: Seq<Nightly>) -> bool {
    forall|i: int| 0 <= i < ns.len() ==> (#[trigger] ns[i]).wf()
}

/// The nightly is shown: weekend builds, by push time, only when included,
/// and, given a cutoff, only one whose effective time is later.
pub open spec fn shown(n: NightlyView, include_weekends: bool, after: Option<Timestamp>) -> bool {
    &&& include_weekends || !is_weekend_spec(n.estimated_last_pushed)
    &&& after matches Some(c) ==> !effective_spec(n).le_spec(c)
}

/// Nightly `x` comes before nightly `y` newest first: a later effective
/// time, or the same time and an earlier position.
pub open spec fn precedes_newest_first(ns: Seq<Nightly>, x: int, y: int) -> bool {
    let tx = effective_spec(ns[x]@);
    let ty = effective_spec(ns[y]@);
    (ty.le_spec(tx) && !tx.le_spec(ty)) || (tx == ty && x < y)
}

/// `r` lists, once each, the positions of the shown nightlies, ordered by
/// effective time (newest or oldest first), equal times by position.
pub open spec fn lists_shown_in_time_order(
    ns: Seq<Nightly>,
    r: Seq<usize>,
    include_weekends: bool,
    after: Option<Timestamp>,
    newest_first: bool,
) -> bool {
    &&& forall|i: int|
        0 <= i < r.len() ==> #[trigger] r[i] < ns.len() && shown(ns[r[i] as int]@, include_weekends, after)
    &&& forall|j: usize| j < ns.len() && shown(ns[j as int]@, include_weekends, after) ==> #[trigger] r.contains(j)
    &&& forall|i: int, j: int| 0 <= i < j < r.len() ==> #[trigger] r[i] != #[trigger] r[j]
    &&& forall|i: int, j: int|
        0 <= i < j < r.len() ==> may_precede(
            effective_spec(ns[#[trigger] r[i] as int]@),
            effective_spec(ns[#[trigger] r[j] as int]@),
            newest_first,
        )
    &&& forall|i: int, j: int|
        0 <= i < j < r.len() && effective_spec(ns[#[trigger] r[i] as int]@) == effective_spec(
            ns[#[trigger] r[j] as int]@,
        ) ==> r[i] < r[j]
}

/// The positions of the nightlies to show, in time order; weekend builds
/// (by push time) are left out unless `include_weekends`, and with a cutoff
/// `after` so is every nightly not later than it.
pub fn shown_in_time_order(
    nightlies: &Vec<Nightly>,
    include_weekends: bool,
    after: Option<Timestamp>,
    newest_first: bool,
) -> (r: Vec<usize>)
    requires
        all_wf(nightlies@),
    ensures
        lists_shown_in_time_order(nightlies@, r@, include_weekends, after, newest_first),
{
    let ghost ns = nightlies@;
    let n = nightlies.len();
    let mut kept: Vec<usize> = Vec::new();
    let mut times: Vec<Timestamp> = Vec::new();
    let mut i: usize = 0;
    while i < n
        invariant
            ns == nightlies@,
            n == ns.len(),
            all_wf(ns),
            i <= n,
            kept@.len() == times@.len(),
            forall|a: int|
                0 <= a < kept@.len() ==> #[trigger] kept@[a] < i && shown(
                    ns[kept@[a] as int]@,
                    include_weekends,
                    after,
                ) && times@[a] == effective_spec(ns[kept@[a] as int]@),
            forall|a: int, b: int| 0 <= a < b < kept@.len() ==> #[trigger] kept@[a] < #[trigger] kept@[b],
            forall|j: usize| j < i && shown(ns[j as int]@, include_weekends, after) ==> #[trigger] kept@.contains(j),
        decreases n - i,
    {
        assert(ns[i as int].wf());
        let e = nightlies[i].effective_timestamp();
        let keep = (include_weekends || !nightlies[i].is_weekend_build()) && match after {
            Some(c) => !e.not_after(&c),
            None => true,
        };
        if keep {
            let ghost old_kept = kept@;
            kept.push(i);
            times.push(nightlies[i].effective_timestamp());
            proof {
                assert forall|j: usize| j < i + 1 && shown(ns[j as int]@, include_weekends, after) implies #[trigger] kept@.contains(j) by {
                    if j < i {
                        assert(old_kept.contains(j));
                        let a = choose|a: int| 0 <= a < old_kept.len() && old_kept[a] == j;
                        assert(kept@[a] == j);
                    } else {
                        assert(kept@[kept@.len() - 1] == j);
                    }
                }
            }
        }
        i += 1;
    }
    let order = time_order(&times, newest_first);
    let mut r: Vec<usize> = Vec::new();
    let mut k: usize = 0;
    while k < order.len()
        invariant
            is_time_order(times@, order@, newest_first),
            kept@.len() == times@.len(),
            k <= order@.len(),
            r@.len() == k,
            forall|q: int| 0 <= q < k ==> #[trigger] r@[q] == kept@[order@[q] as int],
        decreases order@.len() - k,
    {
        r.push(kept[order[k]]);
        k += 1;
    }
    proof {
        assert forall|i: int, j: int| 0 <= i < j < r@.len() implies #[trigger] r@[i] != #[trigger] r@[j] by {
            assert(r@[i] == kept@[order@[i] as int] && r@[j] == kept@[order@[j] as int]);
            if order@[i] == order@[j] {
                assert(times@[order@[i] as int] == times@[order@[j] as int]);
            } else if order@[i] < order@[j] {
                assert(kept@[order@[i] as int] < kept@[order@[j] as int]);
            } else {
                assert(kept@[order@[j] as int] < kept@[order@[i] as int]);
            }
        }
        assert forall|j: usize| j < ns.len() && shown(ns[j as int]@, include_weekends, after) implies #[trigger] r@.contains(j) by {
            assert(kept@.contains(j));
            let a = choose|a: int| 0 <= a < kept@.len() && kept@[a] == j;
            assert(order@.contains(a as usize));
            let q = choose|q: int| 0 <= q < order@.len() && order@[q] == a as usize;
            assert(r@[q] == j);
        }
        assert forall|i: int, j: int| 0 <= i < j < r@.len() implies may_precede(
            effective_spec(ns[#[trigger] r@[i] as int]@),
            effective_spec(ns[#[trigger] r@[j] as int]@),
            newest_first,
        ) by {
            assert(r@[i] == kept@[order@[i] as int] && r@[j] == kept@[order@[j] as int]);
            assert(times@[order@[i] as int] == effective_spec(ns[r@[i] as int]@));
            assert(times@[order@[j] as int] == effective_spec(ns[r@[j] as int]@));
        }
        assert forall|i: int, j: int|
            0 <= i < j < r@.len() && effective_spec(ns[#[trigger] r@[i] as int]@) == effective_spec(
                ns[#[trigger] r@[j] as int]@,
            ) implies r@[i] < r@[j] by {
            assert(r@[i] == kept@[order@[i] as int] && r@[j] == kept@[order@[j] as int]);
            assert(times@[order@[i] as int] == effective_spec(ns[r@[i] as int]@));
            assert(times@[order@[j] as int] == effective_spec(ns[r@[j] as int]@));
            assert(order@[i] < order@[j]);
            assert(kept@[order@[i] as int] < kept@[order@[j] as int]);
        }
    }
    r
}

/// The newest and the second newest shown nightly, by effective time; equal
/// times go by position. Fails with `NotEnoughNightlies` when fewer than two
/// are shown.
pub fn latest_two(nightlies: &Vec<Nightly>, include_weekends: bool) -> (r: Result<
    (usize, usize),
    NightlyError,
>)
    requires
        all_wf(nightlies@),
    ensures
        match r {
            Ok((a, b)) => {
                &&& a < nightlies@.len() && b < nightlies@.len() && a != b
                &&& shown(nightlies@[a as int]@, include_weekends, None)
                &&& shown(nightlies@[b as int]@, include_weekends, None)
                &&& forall|j: int|
                    0 <= j < nightlies@.len() && j != a && shown(
                        #[trigger] nightlies@[j]@,
                        include_weekends,
                        None,
                    ) ==> precedes_newest_first(nightlies@, a as int, j)
                &&& forall|j: int|
                    0 <= j < nightlies@.len() && j != a && j != b && shown(
                        #[trigger] nightlies@[j]@,
                        include_weekends,
                        None,
                    ) ==> precedes_newest_first(nightlies@, b as int, j)
            },
            Err(NightlyError::NotEnoughNightlies) => forall|x: int, y: int|
                0 <= x < nightlies@.len() && 0 <= y < nightlies@.len() && shown(
                    #[trigger] nightlies@[x]@,
                    include_weekends,
                    None,
                ) && shown(#[trigger] nightlies@[y]@, include_weekends, None) ==> x == y,
            Err(_) => false,
        },
{
    let order = shown_in_time_order(nightlies, include_weekends, None, true);
    let ghost ns = nightlies@;
    let n = nightlies.len();
    if order.len() < 2 {
        proof {
            assert forall|x: int, y: int|
                0 <= x < ns.len() && 0 <= y < ns.len() && shown(
                    #[trigger] ns[x]@,
                    include_weekends,
                    None,
                ) && shown(#[trigger] ns[y]@, include_weekends, None) implies x == y by {
                assert(x < n && y < n);
                assert(ns[(x as usize) as int] == ns[x] && ns[(y as usize) as int] == ns[y]);
                assert(order@.contains(x as usize));
                assert(order@.contains(y as usize));
                let p = choose|p: int| 0 <= p < order@.len() && order@[p] == x as usize;
                let q = choose|q: int| 0 <= q < order@.len() && order@[q] == y as usize;
            }
        }
        return Err(NightlyError::NotEnoughNightlies);
    }
    let a = order[0];
    let b = order[1];
    proof {
        assert(order@[0] != order@[1]);
        assert forall|j: int|
            0 <= j < ns.len() && j != a && shown(#[trigger] ns[j]@, include_weekends, None)
                implies precedes_newest_first(ns, a as int, j) && (j != b ==> precedes_newest_first(
            ns,
            b as int,
            j,
        )) by {
            assert(j < n);
            assert(ns[(j as usize) as int] == ns[j]);
            assert(order@.contains(j as usize));
            let q = choose|q: int| 0 <= q < order@.len() && order@[q] == j as usize;
            assert(q != 0);
            assert(may_precede(
                effective_spec(ns[order@[0] as int]@),
                effective_spec(ns[order@[q] as int]@),
                true,
            ));
            if q > 1 {
                assert(may_precede(
                    effective_spec(ns[order@[1] as int]@),
                    effective_spec(ns[order@[q] as int]@),
                    true,
                ));
            }
        }
    }
    Ok((a, b))
}

/// The effective times of the two nightlies lie at most thirty whole days
/// apart.
pub fn is_within_month_distance(nightly: &Nightly, selected_nightly: &Nightly) -> (r: bool)
    requires
        nightly.wf(),
        selected_nightly.wf(),
    ensures
        r == (-month_span() < effective_spec(nightly@).key() - effective_spec(selected_nightly@).key()
            < month_span()),
{
    nightly.effective_timestamp().within_month_of(&selected_nightly.effective_timestamp())
}

/// The places in `listed` that may be picked second once place `first` is
/// picked: every other place whose nightly lies within a month of the first.
pub fn valid_second_choices(nightlies: &Vec<Nightly>, listed: &Vec<usize>, first: usize) -> (r: Vec<
    usize,
>)
    requires
        all_wf(nightlies@),
        forall|i: int| 0 <= i < listed@.len() ==> #[trigger] listed@[i] < nightlies@.len(),
        first < listed@.len(),
    ensures
        forall|k: int|
            0 <= k < r@.len() ==> #[trigger] r@[k] < listed@.len() && r@[k] != first && (-month_span()
                < effective_spec(nightlies@[listed@[r@[k] as int] as int]@).key() - effective_spec(
                nightlies@[listed@[first as int] as int]@,
            ).key() < month_span()),
        forall|i: usize|
            i < listed@.len() && i != first && (-month_span() < effective_spec(
                nightlies@[listed@[i as int] as int]@,
            ).key() - effective_spec(nightlies@[listed@[first as int] as int]@).key() < month_span())
                ==> #[trigger] r@.contains(i),
        forall|k: int, l: int| 0 <= k < l < r@.len() ==> #[trigger] r@[k] < #[trigger] r@[l],
{
    let ghost ns = nightlies@;
    let chosen = &nightlies[listed[first]];
    proof {
        assert(ns[listed@[first as int] as int].wf());
    }
    let mut r: Vec<usize> = Vec::new();
    let mut i: usize = 0;
    while i < listed.len()
        invariant
            ns == nightlies@,
            all_wf(ns),
            forall|i: int| 0 <= i < listed@.len() ==> #[trigger] listed@[i] < ns.len(),
            first < listed@.len(),
            *chosen == ns[listed@[first as int] as int],
            chosen.wf(),
            i <= listed@.len(),
            forall|k: int|
                0 <= k < r@.len() ==> #[trigger] r@[k] < i && r@[k] != first && (-month_span()
                    < effective_spec(ns[listed@[r@[k] as int] as int]@).key() - effective_spec(
                    ns[listed@[first as int] as int]@,
                ).key() < month_span()),
            forall|j: usize|
                j < i && j != first && (-month_span() < effective_spec(
                    ns[listed@[j as int] as int]@,
                ).key() - effective_spec(ns[listed@[first as int] as int]@).key() < month_span())
                    ==> #[trigger] r@.contains(j),
            forall|k: int, l: int| 0 <= k < l < r@.len() ==> #[trigger] r@[k] < #[trigger] r@[l],
        decreases listed@.len() - i,
    {
        let candidate = &nightlies[listed[i]];
        proof {
            assert(ns[listed@[i as int] as int].wf());
        }
        if i != first && is_within_month_distance(candidate, chosen) {
            let ghost old_r = r@;
            r.push(i);
            proof {
                assert forall|j: usize|
                    j < i + 1 && j != first && (-month_span() < effective_spec(
                        ns[listed@[j as int] as int]@,
                    ).key() - effective_spec(ns[listed@[first as int] as int]@).key()
                        < month_span()) implies #[trigger] r@.contains(j) by {
                    if j < i {
                        assert(old_r.contains(j));
                        let a = choose|a: int| 0 <= a < old_r.len() && old_r[a] == j;
                        assert(r@[a] == j);
                    } else {
                        assert(r@[r@.len() - 1] == j);
                    }
                }
            }
        }
        i += 1;
    }
    r
}

/// The build identifiers of the two nightlies, older first by effective
/// time; on equal times, in the order given.
pub fn older_first(a: &Nightly, b: &Nightly) -> (r: (String, String))
    ensures
        if effective_spec(b@).le_spec(effective_spec(a@)) && effective_spec(a@) != effective_spec(
            b@,
        ) {
            r.0@ == b.sha@ && r.1@ == a.sha@
        } else {
            r.0@ == a.sha@ && r.1@ == b.sha@
        },
{
    let ta = a.effective_timestamp();
    let tb = b.effective_timestamp();
    if !ta.not_after(&tb) {
        (b.sha.clone(), a.sha.clone())
    } else {
        (a.sha.clone(), b.sha.clone())
    }
}

/// Largest number of days that a listing may look back.
pub const MAX_LOOKBACK_DAYS: i64 = 90_000_000;

/// The instant `days` days before `now`.
pub fn days_before(now: Timestamp, days: i64) -> (r: Timestamp)
    requires
        now.wf(),
        -MAX_LOOKBACK_DAYS <= days <= MAX_LOOKBACK_DAYS,
    ensures
        r.secs == now.secs - days * 86_400,
        r.nanos == now.nanos,
{
    Timestamp { secs: now.secs - days * 86_400, nanos: now.nanos }
}

/// Orders by commit time alone, an unknown commit time first.
pub open spec fn commit_time_key(n: NightlyView) -> Timestamp {
    match n.sha_timestamp {
        Some(t) => t,
        None => Timestamp { secs: i64::MIN, nanos: 0 },
    }
}

pub open spec fn commit_time_keys(ns: Seq<Nightly>) -> Seq<Timestamp> {
    ns.map_values(|n: Nightly| commit_time_key(n@))
}

/// The positions of `nightlies` by commit time, oldest first, nightlies
/// without a commit time first, equal times by position. The last is the
/// latest nightly; the one before it the previous.
pub fn by_commit_time(nightlies: &Vec<Nightly>) -> (r: Vec<usize>)
    ensures
        is_time_order(commit_time_keys(nightlies@), r@, false),
{
    let mut keys: Vec<Timestamp> = Vec::new();
    let mut i: usize = 0;
    while i < nightlies.len()
        invariant
            i <= nightlies@.len(),
            keys@ == commit_time_keys(nightlies@).subrange(0, i as int),
        decreases nightlies@.len() - i,
    {
        let k = match nightlies[i].sha_timestamp {
            Some(t) => t,
            None => Timestamp { secs: i64::MIN, nanos: 0 },
        };
        keys.push(k);
        i += 1;
        proof {
            assert(keys@ =~= commit_time_keys(nightlies@).subrange(0, i as int));
        }
    }
    proof {
        assert(keys@ =~= commit_time_keys(nightlies@));
    }
    time_order(&keys, false)
}

} // verus!
