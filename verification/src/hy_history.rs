//! Whole-run guarantee of the Hayashi-Yoshida interval bookkeeping.
//!
//! Fed any interleaving of the ticks of two series, each series moving forward in time
//! and no pending queue ever full when an interval must be kept, the estimator reports
//! every overlapping pair of observation intervals, one of each series, exactly once,
//! and reports nothing else.

use vstd::prelude::*;
use crate::math::{
    HyState, Interval, Overlap, Tick, PENDING_DEPTH, live_after, overlap, overlaps_in, pair_up, run,
    worth_keeping, lemma_overlaps_in_exact,
};

verus! {

/// The latest tick of series `x` (`is_x`) or `y` among `events`.
pub open spec fn last_tick<T>(events: Seq<(bool, Tick<T>)>, is_x: bool) -> Option<Tick<T>>
    decreases events.len(),
{
    if events.len() == 0 {
        None
    } else if events.last().0 == is_x {
        Some(events.last().1)
    } else {
        last_tick(events.drop_last(), is_x)
    }
}

/// `i` is an observation interval of series `x` (`is_x`) or `y`: it runs from one tick
/// of that series among `events` to the next.
pub open spec fn is_interval_of<T>(events: Seq<(bool, Tick<T>)>, is_x: bool, i: Interval<T>) -> bool
    decreases events.len(),
{
    if events.len() == 0 {
        false
    } else {
        ||| is_interval_of(events.drop_last(), is_x, i)
        ||| (events.last().0 == is_x && last_tick(events.drop_last(), is_x) == Some(i.start) && i.end
            == events.last().1)
    }
}

/// Each series moves forward in time: every tick is later than the previous tick of
/// its own series.
pub open spec fn moves_forward<T>(events: Seq<(bool, Tick<T>)>) -> bool
    decreases events.len(),
{
    if events.len() == 0 {
        true
    } else {
        &&& moves_forward(events.drop_last())
        &&& match last_tick(events.drop_last(), events.last().0) {
            None => true,
            Some(p) => p.ts.0 < events.last().1.ts.0,
        }
    }
}

/// Observing `tick` from state `s` must keep a new interval pending while its queue is
/// full, so that the oldest pending interval is dropped.
pub open spec fn overflows<T>(s: HyState<T>, is_x: bool, tick: Tick<T>) -> bool {
    if is_x {
        s.x_last matches Some(p) && worth_keeping(Interval { start: p, end: tick }, s.y_last)
            && s.x_pending.len() >= PENDING_DEPTH
    } else {
        s.y_last matches Some(p) && worth_keeping(Interval { start: p, end: tick }, s.x_last)
            && s.y_pending.len() >= PENDING_DEPTH
    }
}

/// Feeding `events` to a new estimator never drops a pending interval.
pub open spec fn never_overflows<T>(events: Seq<(bool, Tick<T>)>) -> bool
    decreases events.len(),
{
    if events.len() == 0 {
        true
    } else {
        &&& never_overflows(events.drop_last())
        &&& !overflows(run(HyState::empty(), events.drop_last()).0, events.last().0, events.last().1)
    }
}

/// The reported overlaps `r` are exactly the overlapping pairs of intervals, one of
/// series `x` and one of series `y` among `events`, each reported once.
pub open spec fn reports_each_overlap_once<T>(events: Seq<(bool, Tick<T>)>, r: Seq<Overlap<T>>) -> bool {
    &&& forall|k: int|
        #![trigger r[k]]
        0 <= k < r.len() ==> is_interval_of(events, true, r[k].x) && is_interval_of(events, false, r[k].y)
            && overlap(r[k].x, r[k].y)
    &&& forall|i: Interval<T>, j: Interval<T>|
        #![trigger is_interval_of(events, true, i), is_interval_of(events, false, j)]
        is_interval_of(events, true, i) && is_interval_of(events, false, j) && overlap(i, j) ==> r.contains(
            Overlap { x: i, y: j },
        )
    &&& forall|a: int, b: int| #![trigger r[a], r[b]] 0 <= a < b < r.len() ==> r[a] != r[b]
}

/// The intervals of `q` end at strictly increasing times.
spec fn sorted_by_end<T>(q: Seq<Interval<T>>) -> bool {
    forall|a: int, b: int| #![trigger q[a], q[b]] 0 <= a < b < q.len() ==> q[a].end.ts.0 < q[b].end.ts.0
}

/// Interval `i` ends after the other series' latest tick, if any.
spec fn ends_after<T>(i: Interval<T>, other_last: Option<Tick<T>>) -> bool {
    match other_last {
        None => true,
        Some(o) => i.end.ts.0 > o.ts.0,
    }
}

/// Every interval of the series is non-empty and ends no later than the series' latest tick.
spec fn intervals_ok<T>(events: Seq<(bool, Tick<T>)>, is_x: bool) -> bool {
    forall|i: Interval<T>|
        #[trigger] is_interval_of(events, is_x, i) ==> (last_tick(events, is_x) matches Some(l) && i.start.ts.0
            < i.end.ts.0 <= l.ts.0)
}

/// The pending queue `q` of the series holds, in order of their ends, intervals of the
/// series, and among them every interval that ends after the other series' latest tick.
spec fn pending_ok<T>(events: Seq<(bool, Tick<T>)>, q: Seq<Interval<T>>, is_x: bool, other_last: Option<Tick<T>>) -> bool {
    &&& sorted_by_end(q)
    &&& forall|m: int| 0 <= m < q.len() ==> is_interval_of(events, is_x, #[trigger] q[m])
    &&& forall|i: Interval<T>|
        #[trigger] is_interval_of(events, is_x, i) && ends_after(i, other_last) ==> q.contains(i)
}

/// What holds after feeding `events` to a new estimator.
spec fn run_inv<T>(events: Seq<(bool, Tick<T>)>) -> bool {
    let s = run(HyState::<T>::empty(), events).0;
    &&& s.x_last == last_tick(events, true)
    &&& s.y_last == last_tick(events, false)
    &&& intervals_ok(events, true)
    &&& intervals_ok(events, false)
    &&& pending_ok(events, s.x_pending, true, s.y_last)
    &&& pending_ok(events, s.y_pending, false, s.x_last)
    &&& reports_each_overlap_once(events, run(HyState::<T>::empty(), events).1)
}

proof fn lemma_live_after_contains<T>(q: Seq<Interval<T>>, t: i64, j: Interval<T>)
    ensures
        live_after(q, t).contains(j) <==> (q.contains(j) && j.end.ts.0 > t),
    decreases q.len(),
{
    if q.len() > 0 {
        let p = q.drop_last();
        lemma_live_after_contains(p, t, j);
        let r = live_after(q, t);
        let rp = live_after(p, t);
        if q.contains(j) {
            let m = choose|m: int| 0 <= m < q.len() && q[m] == j;
            if m < q.len() - 1 {
                assert(p[m] == q[m]);
            }
        }
        if p.contains(j) {
            let m = choose|m: int| 0 <= m < p.len() && p[m] == j;
            assert(q[m] == p[m]);
        }
        if r.contains(j) {
            let m = choose|m: int| 0 <= m < r.len() && r[m] == j;
            if m < rp.len() {
                assert(rp[m] == r[m]);
            }
        }
        if rp.contains(j) {
            let m = choose|m: int| 0 <= m < rp.len() && rp[m] == j;
            if q.last().end.ts.0 > t {
                assert(r[m] == rp[m]);
            }
        }
        if j == q.last() && j.end.ts.0 > t {
            assert(r[r.len() - 1] == j);
        }
    }
}

proof fn lemma_live_after_sorted<T>(q: Seq<Interval<T>>, t: i64)
    requires
        sorted_by_end(q),
    ensures
        sorted_by_end(live_after(q, t)),
    decreases q.len(),
{
    if q.len() > 0 {
        let p = q.drop_last();
        assert(sorted_by_end(p)) by {
            assert forall|a: int, b: int| 0 <= a < b < p.len() implies p[a].end.ts.0 < p[b].end.ts.0 by {
                assert(p[a] == q[a] && p[b] == q[b]);
            }
        }
        lemma_live_after_sorted(p, t);
        let r = live_after(q, t);
        let rp = live_after(p, t);
        if q.last().end.ts.0 > t {
            assert forall|a: int, b: int| #![trigger r[a], r[b]] 0 <= a < b < r.len() implies r[a].end.ts.0
                < r[b].end.ts.0 by {
                assert(r[a] == rp[a]);
                if b < rp.len() {
                    assert(r[b] == rp[b]);
                } else {
                    lemma_live_after_contains(p, t, rp[a]);
                    assert(rp.contains(rp[a]));
                    let m = choose|m: int| 0 <= m < p.len() && p[m] == rp[a];
                    assert(q[m] == p[m]);
                    assert(q[q.len() - 1] == q.last());
                }
            }
        }
    }
}

/// The side of an overlap that comes from the pending queue.
spec fn pending_side<T>(o: Overlap<T>, new_is_x: bool) -> Interval<T> {
    if new_is_x {
        o.y
    } else {
        o.x
    }
}

proof fn lemma_overlaps_in_sorted<T>(q: Seq<Interval<T>>, new: Interval<T>, new_is_x: bool)
    requires
        sorted_by_end(q),
    ensures
        forall|a: int, b: int|
            #![trigger overlaps_in(q, new, new_is_x)[a], overlaps_in(q, new, new_is_x)[b]]
            0 <= a < b < overlaps_in(q, new, new_is_x).len() ==> pending_side(
                overlaps_in(q, new, new_is_x)[a],
                new_is_x,
            ).end.ts.0 < pending_side(overlaps_in(q, new, new_is_x)[b], new_is_x).end.ts.0,
    decreases q.len(),
{
    if q.len() > 0 {
        let p = q.drop_last();
        assert(sorted_by_end(p)) by {
            assert forall|a: int, b: int| 0 <= a < b < p.len() implies p[a].end.ts.0 < p[b].end.ts.0 by {
                assert(p[a] == q[a] && p[b] == q[b]);
            }
        }
        lemma_overlaps_in_sorted(p, new, new_is_x);
        lemma_overlaps_in_exact(p, new, new_is_x);
        let r = overlaps_in(q, new, new_is_x);
        let rp = overlaps_in(p, new, new_is_x);
        if overlap(new, q.last()) {
            assert forall|a: int, b: int| #![trigger r[a], r[b]] 0 <= a < b < r.len() implies pending_side(
                r[a],
                new_is_x,
            ).end.ts.0 < pending_side(r[b], new_is_x).end.ts.0 by {
                assert(r[a] == rp[a]);
                if b < rp.len() {
                    assert(r[b] == rp[b]);
                } else {
                    let m = choose|m: int|
                        0 <= m < p.len() && overlap(new, p[m]) && #[trigger] rp[a] == pair_up(new, p[m], new_is_x);
                    assert(q[m] == p[m]);
                }
            }
        }
    }
}

proof fn lemma_step_x<T>(events: Seq<(bool, Tick<T>)>)
    requires
        events.len() > 0,
        events.last().0,
        run_inv(events.drop_last()),
        moves_forward(events),
        !overflows(run(HyState::<T>::empty(), events.drop_last()).0, true, events.last().1),
    ensures
        run_inv(events),
{
    let e = events.drop_last();
    let tick = events.last().1;
    let s = run(HyState::<T>::empty(), e).0;
    let rr = run(HyState::<T>::empty(), e).1;
    let s2 = s.step_x(tick).0;
    let now = s.step_x(tick).1;
    let r2 = rr + now;
    assert(run(HyState::<T>::empty(), events).0 == s2);
    assert(run(HyState::<T>::empty(), events).1 == r2);
    assert(last_tick(events, true) == Some(tick));
    assert(last_tick(events, false) == last_tick(e, false));
    assert forall|j: Interval<T>| #[trigger] is_interval_of(events, false, j) == is_interval_of(e, false, j) by {}
    // The pending y queue after the purge.
    let yq = s.y_pending;
    let yq2 = live_after(yq, tick.ts.0);
    assert(s2.y_pending == yq2);
    lemma_live_after_sorted(yq, tick.ts.0);
    assert forall|m: int| 0 <= m < yq2.len() implies is_interval_of(events, false, #[trigger] yq2[m]) by {
        lemma_live_after_contains(yq, tick.ts.0, yq2[m]);
        assert(yq2.contains(yq2[m]));
        let k = choose|k: int| 0 <= k < yq.len() && yq[k] == yq2[m];
        assert(is_interval_of(e, false, yq[k]));
    }
    assert forall|j: Interval<T>| #[trigger] is_interval_of(events, false, j) && ends_after(j, Some(tick))
        implies yq2.contains(j) by {
        assert(is_interval_of(e, false, j));
        lemma_live_after_contains(yq, tick.ts.0, j);
    }
    assert(pending_ok(events, s2.y_pending, false, s2.x_last));
    match s.x_last {
        None => {
            assert forall|i: Interval<T>| #[trigger] is_interval_of(events, true, i) == is_interval_of(e, true, i) by {}
            assert(now.len() == 0);
            assert(r2 =~= rr);
            assert(s2.x_pending == s.x_pending);
            assert forall|i: Interval<T>| #[trigger] is_interval_of(events, true, i) implies (last_tick(events, true) matches Some(l) && i.start.ts.0
                < i.end.ts.0 <= l.ts.0) by {
                assert(is_interval_of(e, true, i));
            }
            assert forall|m: int| 0 <= m < s2.x_pending.len() implies is_interval_of(events, true, #[trigger] s2.x_pending[m]) by {
                assert(is_interval_of(e, true, s.x_pending[m]));
            }
            assert(pending_ok(events, s2.x_pending, true, s2.y_last));
            assert forall|k: int| #![trigger r2[k]] 0 <= k < r2.len() implies is_interval_of(events, true, r2[k].x)
                && is_interval_of(events, false, r2[k].y) && overlap(r2[k].x, r2[k].y) by {
                assert(rr[k] == r2[k]);
            }
        },
        Some(p) => {
            let i_new = Interval { start: p, end: tick };
            assert(p.ts.0 < tick.ts.0);
            assert forall|i: Interval<T>| #[trigger] is_interval_of(events, true, i) == (is_interval_of(e, true, i) || i == i_new) by {}
            assert(now == overlaps_in(yq, i_new, true));
            lemma_overlaps_in_exact(yq, i_new, true);
            lemma_overlaps_in_sorted(yq, i_new, true);
            // Intervals of x.
            assert forall|i: Interval<T>| #[trigger] is_interval_of(events, true, i) implies (last_tick(events, true) matches Some(l) && i.start.ts.0
                < i.end.ts.0 <= l.ts.0) by {
                if i != i_new {
                    assert(is_interval_of(e, true, i));
                }
            }
            // The pending x queue.
            let xq = s.x_pending;
            let xq2 = s2.x_pending;
            if worth_keeping(i_new, s.y_last) {
                assert(xq2 == xq.push(i_new));
                assert forall|a: int, b: int| #![trigger xq2[a], xq2[b]] 0 <= a < b < xq2.len() implies xq2[a].end.ts.0 < xq2[b].end.ts.0 by {
                    assert(xq2[a] == xq[a]);
                    assert(is_interval_of(e, true, xq[a]));
                    if b < xq.len() {
                        assert(xq2[b] == xq[b]);
                    }
                }
                assert forall|m: int| 0 <= m < xq2.len() implies is_interval_of(events, true, #[trigger] xq2[m]) by {
                    if m < xq.len() {
                        assert(xq2[m] == xq[m]);
                        assert(is_interval_of(e, true, xq[m]));
                    }
                }
                assert forall|i: Interval<T>| #[trigger] is_interval_of(events, true, i) && ends_after(i, s2.y_last)
                    implies xq2.contains(i) by {
                    if i == i_new {
                        assert(xq2[xq2.len() - 1] == i_new);
                    } else {
                        assert(xq.contains(i));
                        let k = choose|k: int| 0 <= k < xq.len() && xq[k] == i;
                        assert(xq2[k] == xq[k]);
                    }
                }
            } else {
                assert(xq2 == xq);
                assert forall|m: int| 0 <= m < xq2.len() implies is_interval_of(events, true, #[trigger] xq2[m]) by {
                    assert(is_interval_of(e, true, xq[m]));
                }
                assert forall|i: Interval<T>| #[trigger] is_interval_of(events, true, i) && ends_after(i, s2.y_last)
                    implies xq2.contains(i) by {
                    if i == i_new {
                        assert(worth_keeping(i_new, s.y_last));
                    } else {
                        assert(xq.contains(i));
                    }
                }
            }
            assert(pending_ok(events, s2.x_pending, true, s2.y_last));
            // The reports.
            assert forall|k: int| #![trigger r2[k]] 0 <= k < r2.len() implies is_interval_of(events, true, r2[k].x)
                && is_interval_of(events, false, r2[k].y) && overlap(r2[k].x, r2[k].y) by {
                if k < rr.len() {
                    assert(rr[k] == r2[k]);
                } else {
                    assert(now[k - rr.len()] == r2[k]);
                    let m = choose|m: int| 0 <= m < yq.len() && overlap(i_new, yq[m]) && #[trigger] now[k - rr.len()] == pair_up(i_new, yq[m], true);
                    assert(is_interval_of(e, false, yq[m]));
                }
            }
            assert forall|i: Interval<T>, j: Interval<T>|
                #![trigger is_interval_of(events, true, i), is_interval_of(events, false, j)]
                is_interval_of(events, true, i) && is_interval_of(events, false, j) && overlap(i, j) implies r2.contains(
                    Overlap { x: i, y: j },
                ) by {
                assert(is_interval_of(e, false, j));
                if is_interval_of(e, true, i) {
                    assert(rr.contains(Overlap { x: i, y: j }));
                    let k = choose|k: int| 0 <= k < rr.len() && rr[k] == Overlap { x: i, y: j };
                    assert(r2[k] == rr[k]);
                } else {
                    assert(i == i_new);
                    assert(ends_after(j, s.x_last));
                    assert(yq.contains(j));
                    let m = choose|m: int| 0 <= m < yq.len() && yq[m] == j;
                    assert(overlap(i_new, yq[m]));
                    assert(now.contains(pair_up(i_new, yq[m], true)));
                    let k = choose|k: int| 0 <= k < now.len() && now[k] == pair_up(i_new, yq[m], true);
                    assert(r2[rr.len() + k] == now[k]);
                }
            }
            assert forall|a: int, b: int| #![trigger r2[a], r2[b]] 0 <= a < b < r2.len() implies r2[a] != r2[b] by {
                if b < rr.len() {
                    assert(r2[a] == rr[a] && r2[b] == rr[b]);
                } else if a < rr.len() {
                    assert(r2[a] == rr[a]);
                    assert(is_interval_of(e, true, rr[a].x));
                    assert(r2[b] == now[b - rr.len()]);
                    let m = choose|m: int| 0 <= m < yq.len() && overlap(i_new, yq[m]) && #[trigger] now[b - rr.len()] == pair_up(i_new, yq[m], true);
                } else {
                    assert(r2[a] == now[a - rr.len()] && r2[b] == now[b - rr.len()]);
                    assert(pending_side(now[a - rr.len()], true).end.ts.0 < pending_side(now[b - rr.len()], true).end.ts.0);
                }
            }
        },
    }
}


proof fn lemma_step_y<T>(events: Seq<(bool, Tick<T>)>)
    requires
        events.len() > 0,
        !events.last().0,
        run_inv(events.drop_last()),
        moves_forward(events),
        !overflows(run(HyState::<T>::empty(), events.drop_last()).0, false, events.last().1),
    ensures
        run_inv(events),
{
    let e = events.drop_last();
    let tick = events.last().1;
    let s = run(HyState::<T>::empty(), e).0;
    let rr = run(HyState::<T>::empty(), e).1;
    let s2 = s.step_y(tick).0;
    let now = s.step_y(tick).1;
    let r2 = rr + now;
    assert(run(HyState::<T>::empty(), events).0 == s2);
    assert(run(HyState::<T>::empty(), events).1 == r2);
    assert(last_tick(events, false) == Some(tick));
    assert(last_tick(events, true) == last_tick(e, true));
    assert forall|j: Interval<T>| #[trigger] is_interval_of(events, true, j) == is_interval_of(e, true, j) by {}
    // The pending y queue after the purge.
    let yq = s.x_pending;
    let yq2 = live_after(yq, tick.ts.0);
    assert(s2.x_pending == yq2);
    lemma_live_after_sorted(yq, tick.ts.0);
    assert forall|m: int| 0 <= m < yq2.len() implies is_interval_of(events, true, #[trigger] yq2[m]) by {
        lemma_live_after_contains(yq, tick.ts.0, yq2[m]);
        assert(yq2.contains(yq2[m]));
        let k = choose|k: int| 0 <= k < yq.len() && yq[k] == yq2[m];
        assert(is_interval_of(e, true, yq[k]));
    }
    assert forall|j: Interval<T>| #[trigger] is_interval_of(events, true, j) && ends_after(j, Some(tick))
        implies yq2.contains(j) by {
        assert(is_interval_of(e, true, j));
        lemma_live_after_contains(yq, tick.ts.0, j);
    }
    assert(pending_ok(events, s2.x_pending, true, s2.y_last));
    match s.y_last {
        None => {
            assert forall|i: Interval<T>| #[trigger] is_interval_of(events, false, i) == is_interval_of(e, false, i) by {}
            assert(now.len() == 0);
            assert(r2 =~= rr);
            assert(s2.y_pending == s.y_pending);
            assert forall|i: Interval<T>| #[trigger] is_interval_of(events, false, i) implies (last_tick(events, false) matches Some(l) && i.start.ts.0
                < i.end.ts.0 <= l.ts.0) by {
                assert(is_interval_of(e, false, i));
            }
            assert forall|m: int| 0 <= m < s2.y_pending.len() implies is_interval_of(events, false, #[trigger] s2.y_pending[m]) by {
                assert(is_interval_of(e, false, s.y_pending[m]));
            }
            assert(pending_ok(events, s2.y_pending, false, s2.x_last));
            assert forall|k: int| #![trigger r2[k]] 0 <= k < r2.len() implies is_interval_of(events, true, r2[k].x)
                && is_interval_of(events, false, r2[k].y) && overlap(r2[k].x, r2[k].y) by {
                assert(rr[k] == r2[k]);
            }
        },
        Some(p) => {
            let i_new = Interval { start: p, end: tick };
            assert(p.ts.0 < tick.ts.0);
            assert forall|i: Interval<T>| #[trigger] is_interval_of(events, false, i) == (is_interval_of(e, false, i) || i == i_new) by {}
            assert(now == overlaps_in(yq, i_new, false));
            lemma_overlaps_in_exact(yq, i_new, false);
            lemma_overlaps_in_sorted(yq, i_new, false);
            // Intervals of x.
            assert forall|i: Interval<T>| #[trigger] is_interval_of(events, false, i) implies (last_tick(events, false) matches Some(l) && i.start.ts.0
                < i.end.ts.0 <= l.ts.0) by {
                if i != i_new {
                    assert(is_interval_of(e, false, i));
                }
            }
            // The pending x queue.
            let xq = s.y_pending;
            let xq2 = s2.y_pending;
            if worth_keeping(i_new, s.x_last) {
                assert(xq2 == xq.push(i_new));
                assert forall|a: int, b: int| #![trigger xq2[a], xq2[b]] 0 <= a < b < xq2.len() implies xq2[a].end.ts.0 < xq2[b].end.ts.0 by {
                    assert(xq2[a] == xq[a]);
                    assert(is_interval_of(e, false, xq[a]));
                    if b < xq.len() {
                        assert(xq2[b] == xq[b]);
                    }
                }
                assert forall|m: int| 0 <= m < xq2.len() implies is_interval_of(events, false, #[trigger] xq2[m]) by {
                    if m < xq.len() {
                        assert(xq2[m] == xq[m]);
                        assert(is_interval_of(e, false, xq[m]));
                    }
                }
                assert forall|i: Interval<T>| #[trigger] is_interval_of(events, false, i) && ends_after(i, s2.x_last)
                    implies xq2.contains(i) by {
                    if i == i_new {
                        assert(xq2[xq2.len() - 1] == i_new);
                    } else {
                        assert(xq.contains(i));
                        let k = choose|k: int| 0 <= k < xq.len() && xq[k] == i;
                        assert(xq2[k] == xq[k]);
                    }
                }
            } else {
                assert(xq2 == xq);
                assert forall|m: int| 0 <= m < xq2.len() implies is_interval_of(events, false, #[trigger] xq2[m]) by {
                    assert(is_interval_of(e, false, xq[m]));
                }
                assert forall|i: Interval<T>| #[trigger] is_interval_of(events, false, i) && ends_after(i, s2.x_last)
                    implies xq2.contains(i) by {
                    if i == i_new {
                        assert(worth_keeping(i_new, s.x_last));
                    } else {
                        assert(xq.contains(i));
                    }
                }
            }
            assert(pending_ok(events, s2.y_pending, false, s2.x_last));
            // The reports.
            assert forall|k: int| #![trigger r2[k]] 0 <= k < r2.len() implies is_interval_of(events, true, r2[k].x)
                && is_interval_of(events, false, r2[k].y) && overlap(r2[k].x, r2[k].y) by {
                if k < rr.len() {
                    assert(rr[k] == r2[k]);
                } else {
                    assert(now[k - rr.len()] == r2[k]);
                    let m = choose|m: int| 0 <= m < yq.len() && overlap(i_new, yq[m]) && #[trigger] now[k - rr.len()] == pair_up(i_new, yq[m], false);
                    assert(is_interval_of(e, true, yq[m]));
                }
            }
            assert forall|i: Interval<T>, j: Interval<T>|
                #![trigger is_interval_of(events, false, i), is_interval_of(events, true, j)]
                is_interval_of(events, false, i) && is_interval_of(events, true, j) && overlap(j, i) implies r2.contains(
                    Overlap { x: j, y: i },
                ) by {
                assert(is_interval_of(e, true, j));
                if is_interval_of(e, false, i) {
                    assert(rr.contains(Overlap { x: j, y: i }));
                    let k = choose|k: int| 0 <= k < rr.len() && rr[k] == Overlap { x: j, y: i };
                    assert(r2[k] == rr[k]);
                } else {
                    assert(i == i_new);
                    assert(ends_after(j, s.y_last));
                    assert(yq.contains(j));
                    let m = choose|m: int| 0 <= m < yq.len() && yq[m] == j;
                    assert(overlap(i_new, yq[m]));
                    assert(now.contains(pair_up(i_new, yq[m], false)));
                    let k = choose|k: int| 0 <= k < now.len() && now[k] == pair_up(i_new, yq[m], false);
                    assert(r2[rr.len() + k] == now[k]);
                }
            }
            assert forall|a: int, b: int| #![trigger r2[a], r2[b]] 0 <= a < b < r2.len() implies r2[a] != r2[b] by {
                if b < rr.len() {
                    assert(r2[a] == rr[a] && r2[b] == rr[b]);
                } else if a < rr.len() {
                    assert(r2[a] == rr[a]);
                    assert(is_interval_of(e, false, rr[a].y));
                    assert(r2[b] == now[b - rr.len()]);
                    let m = choose|m: int| 0 <= m < yq.len() && overlap(i_new, yq[m]) && #[trigger] now[b - rr.len()] == pair_up(i_new, yq[m], false);
                } else {
                    assert(r2[a] == now[a - rr.len()] && r2[b] == now[b - rr.len()]);
                    assert(pending_side(now[a - rr.len()], false).end.ts.0 < pending_side(now[b - rr.len()], false).end.ts.0);
                }
            }
        },
    }
}

proof fn lemma_run_inv<T>(events: Seq<(bool, Tick<T>)>)
    requires
        moves_forward(events),
        never_overflows(events),
    ensures
        run_inv(events),
    decreases events.len(),
{
    if events.len() == 0 {
        let r = run(HyState::<T>::empty(), events).1;
        assert(r.len() == 0);
        assert forall|i: Interval<T>| #[trigger] is_interval_of(events, true, i) == false by {}
        assert forall|i: Interval<T>| #[trigger] is_interval_of(events, false, i) == false by {}
    } else {
        lemma_run_inv(events.drop_last());
        if events.last().0 {
            lemma_step_x(events);
        } else {
            lemma_step_y(events);
        }
    }
}

/// Fed to a new estimator, any interleaving of the ticks of two series, each series
/// moving forward in time and no pending queue full when an interval must be kept,
/// reports every overlapping pair of observation intervals, one of series `x` and one
/// of series `y`, exactly once, and reports nothing else.
pub proof fn lemma_run_reports_each_overlap_once<T>(events: Seq<(bool, Tick<T>)>)
    requires
        moves_forward(events),
        never_overflows(events),
    ensures
        reports_each_overlap_once(events, run(HyState::<T>::empty(), events).1),
{
    lemma_run_inv(events);
}

/// Instant `t` lies in the observation interval `(i.start.ts, i.end.ts]`.
pub open spec fn contains_instant<T>(i: Interval<T>, t: int) -> bool {
    i.start.ts.0 < t && t <= i.end.ts.0
}

/// Two observation intervals overlap exactly when some instant lies in both.
pub proof fn lemma_overlap_is_common_instant<T>(i: Interval<T>, j: Interval<T>)
    ensures
        overlap(i, j) <==> exists|t: int| #[trigger] contains_instant(i, t) && contains_instant(j, t),
{
    if overlap(i, j) {
        let t: int = if i.end.ts.0 <= j.end.ts.0 { i.end.ts.0 as int } else { j.end.ts.0 as int };
        assert(contains_instant(i, t) && contains_instant(j, t));
    }
}

} // verus!
