//! Interval bookkeeping of the Hayashi-Yoshida asynchronous covariance estimator.
//!
//! Reference: Hayashi, T., & Yoshida, N. (2005). "On covariance estimation of
//! non-synchronously observed diffusion processes". Bernoulli, 11(2), 359-379.
//!
//! The estimator sums `ΔX · ΔY` over every pair of observation intervals
//! `(t_{i-1}^X, t_i^X]` and `(t_{j-1}^Y, t_j^Y]` that overlap. Online, each side keeps
//! a bounded queue of pending intervals (at most [`PENDING_DEPTH`]). A new tick of one
//! series closes an interval of that series; the interval is checked against every
//! pending interval of the other series and each overlapping pair is reported, so that
//! the caller adds the product of the two price changes to the covariance sum. Pending
//! intervals of the other series that end at or before the new tick are purged: when
//! each series' ticks move forward in time, no later interval of the new tick's series
//! can overlap them. The ticks carry a price of any copyable type `T`.

use vstd::prelude::*;
use crate::error::{ArgusError, require_observations};
use crate::types::TimestampNs;

verus! {

/// The number of pending intervals kept per series. When the queue is full, the
/// oldest pending interval makes room for the new one.
pub const PENDING_DEPTH: usize = 64;

/// A price observation at a specific time.
#[derive(Debug, Clone, Copy)]
pub struct Tick<T> {
    pub ts: TimestampNs,
    pub price: T,
}

/// The observation interval `(start.ts, end.ts]` between two consecutive ticks of a series.
#[derive(Debug, Clone, Copy)]
pub struct Interval<T> {
    pub start: Tick<T>,
    pub end: Tick<T>,
}

/// Two overlapping intervals, one of each series.
#[derive(Debug, Clone, Copy)]
pub struct Overlap<T> {
    pub x: Interval<T>,
    pub y: Interval<T>,
}

/// The intervals `(xp.ts, xc.ts]` and `(yp.ts, yc.ts]` overlap: the later start lies
/// strictly before the earlier end.
pub open spec fn intervals_overlap<T>(xp: Tick<T>, xc: Tick<T>, yp: Tick<T>, yc: Tick<T>) -> bool {
    let max_start = if xp.ts.0 >= yp.ts.0 { xp.ts.0 } else { yp.ts.0 };
    let min_end = if xc.ts.0 <= yc.ts.0 { xc.ts.0 } else { yc.ts.0 };
    min_end > max_start
}

/// Two intervals overlap.
pub open spec fn overlap<T>(i: Interval<T>, j: Interval<T>) -> bool {
    intervals_overlap(i.start, i.end, j.start, j.end)
}

/// The overlap of the new interval `new` with a pending interval `other` of the other
/// series, with `new` on the `x` side when the new tick is of series `x`.
pub open spec fn pair_up<T>(new: Interval<T>, other: Interval<T>, new_is_x: bool) -> Overlap<T> {
    if new_is_x {
        Overlap { x: new, y: other }
    } else {
        Overlap { x: other, y: new }
    }
}

/// The overlaps of `new` with the pending intervals `q`, in the order of `q`.
pub open spec fn overlaps_in<T>(q: Seq<Interval<T>>, new: Interval<T>, new_is_x: bool) -> Seq<Overlap<T>>
    decreases q.len(),
{
    if q.len() == 0 {
        seq![]
    } else {
        let before = overlaps_in(q.drop_last(), new, new_is_x);
        if overlap(new, q.last()) {
            before.push(pair_up(new, q.last(), new_is_x))
        } else {
            before
        }
    }
}

/// The pending intervals of `q` that end after time `t`, in the order of `q`.
pub open spec fn live_after<T>(q: Seq<Interval<T>>, t: i64) -> Seq<Interval<T>>
    decreases q.len(),
{
    if q.len() == 0 {
        seq![]
    } else {
        let before = live_after(q.drop_last(), t);
        if q.last().end.ts.0 > t {
            before.push(q.last())
        } else {
            before
        }
    }
}

/// Appends `i` to the queue `q`, first dropping the oldest interval when the queue is full.
pub open spec fn push_bounded<T>(q: Seq<Interval<T>>, i: Interval<T>) -> Seq<Interval<T>> {
    if q.len() < PENDING_DEPTH {
        q.push(i)
    } else {
        q.drop_first().push(i)
    }
}

/// A new interval is kept pending when it is not empty and ends after the other series'
/// latest tick (otherwise no later interval of the other series can overlap it).
pub open spec fn worth_keeping<T>(i: Interval<T>, other_last: Option<Tick<T>>) -> bool {
    &&& i.start.ts.0 < i.end.ts.0
    &&& match other_last {
        None => true,
        Some(o) => i.end.ts.0 > o.ts.0,
    }
}

/// The count after `n` more overlaps, saturating at `u64::MAX`.
pub open spec fn add_count(count: nat, n: nat) -> nat {
    if count + n > u64::MAX {
        u64::MAX as nat
    } else {
        count + n
    }
}

/// The abstract state of the estimator: the latest tick and the pending intervals of
/// each series, and the number of overlapping interval pairs reported so far.
pub ghost struct HyState<T> {
    pub x_last: Option<Tick<T>>,
    pub y_last: Option<Tick<T>>,
    pub x_pending: Seq<Interval<T>>,
    pub y_pending: Seq<Interval<T>>,
    pub count: nat,
}

impl<T> HyState<T> {
    /// The state before any observation.
    pub open spec fn empty() -> Self {
        HyState { x_last: None, y_last: None, x_pending: seq![], y_pending: seq![], count: 0 }
    }

    /// Both pending queues hold at most [`PENDING_DEPTH`] intervals.
    pub open spec fn bounded(self) -> bool {
        self.x_pending.len() <= PENDING_DEPTH && self.y_pending.len() <= PENDING_DEPTH
    }

    /// An observation of series `x`: the interval from its previous tick, if any, is
    /// checked against every pending `y` interval and the overlaps are reported; it is
    /// kept pending when worth keeping; `y` intervals ending at or before the tick are
    /// purged.
    pub open spec fn step_x(self, tick: Tick<T>) -> (Self, Seq<Overlap<T>>) {
        let (reported, x_pending) = match self.x_last {
            None => (Seq::<Overlap<T>>::empty(), self.x_pending),
            Some(p) => {
                let i = Interval { start: p, end: tick };
                (
                    overlaps_in(self.y_pending, i, true),
                    if worth_keeping(i, self.y_last) { push_bounded(self.x_pending, i) } else { self.x_pending },
                )
            },
        };
        (
            HyState {
                x_last: Some(tick),
                y_last: self.y_last,
                x_pending,
                y_pending: live_after(self.y_pending, tick.ts.0),
                count: add_count(self.count, reported.len()),
            },
            reported,
        )
    }

    /// An observation of series `y`, the mirror image of [`HyState::step_x`].
    pub open spec fn step_y(self, tick: Tick<T>) -> (Self, Seq<Overlap<T>>) {
        let (reported, y_pending) = match self.y_last {
            None => (Seq::<Overlap<T>>::empty(), self.y_pending),
            Some(p) => {
                let i = Interval { start: p, end: tick };
                (
                    overlaps_in(self.x_pending, i, false),
                    if worth_keeping(i, self.x_last) { push_bounded(self.y_pending, i) } else { self.y_pending },
                )
            },
        };
        (
            HyState {
                x_last: self.x_last,
                y_last: Some(tick),
                x_pending: live_after(self.x_pending, tick.ts.0),
                y_pending,
                count: add_count(self.count, reported.len()),
            },
            reported,
        )
    }

    /// An observation of series `x` (`is_x`) or `y`.
    pub open spec fn step(self, is_x: bool, tick: Tick<T>) -> (Self, Seq<Overlap<T>>) {
        if is_x {
            self.step_x(tick)
        } else {
            self.step_y(tick)
        }
    }

    /// The same state with the roles of the two series exchanged.
    pub open spec fn mirror(self) -> Self {
        HyState {
            x_last: self.y_last,
            y_last: self.x_last,
            x_pending: self.y_pending,
            y_pending: self.x_pending,
            count: self.count,
        }
    }
}

impl<T> Overlap<T> {
    /// The same overlap with the roles of the two series exchanged.
    pub open spec fn mirror(self) -> Self {
        Overlap { x: self.y, y: self.x }
    }
}

/// Feeds a sequence of observations, each of series `x` (`true`) or `y`, to the
/// estimator; returns the final state and every overlap reported, in order.
pub open spec fn run<T>(s: HyState<T>, events: Seq<(bool, Tick<T>)>) -> (HyState<T>, Seq<Overlap<T>>)
    decreases events.len(),
{
    if events.len() == 0 {
        (s, seq![])
    } else {
        let (before, reported) = run(s, events.drop_last());
        let (after, now) = before.step(events.last().0, events.last().1);
        (after, reported + now)
    }
}

/// The same observations with the roles of the two series exchanged.
pub open spec fn mirror_events<T>(events: Seq<(bool, Tick<T>)>) -> Seq<(bool, Tick<T>)> {
    events.map_values(|e: (bool, Tick<T>)| (!e.0, e.1))
}

/// The interval bookkeeping of the Hayashi-Yoshida estimator for one pair of series.
#[derive(Debug, Clone)]
pub struct HayashiYoshida<T> {
    x_last: Option<Tick<T>>,
    y_last: Option<Tick<T>>,
    x_pending: Vec<Interval<T>>,
    y_pending: Vec<Interval<T>>,
    count: u64,
}

impl<T> View for HayashiYoshida<T> {
    type V = HyState<T>;

    closed spec fn view(&self) -> HyState<T> {
        HyState {
            x_last: self.x_last,
            y_last: self.y_last,
            x_pending: self.x_pending@,
            y_pending: self.y_pending@,
            count: self.count as nat,
        }
    }
}

proof fn lemma_live_after_len<T>(q: Seq<Interval<T>>, t: i64)
    ensures
        live_after(q, t).len() <= q.len(),
    decreases q.len(),
{
    if q.len() > 0 {
        lemma_live_after_len(q.drop_last(), t);
    }
}

proof fn lemma_overlaps_in_len<T>(q: Seq<Interval<T>>, new: Interval<T>, new_is_x: bool)
    ensures
        overlaps_in(q, new, new_is_x).len() <= q.len(),
    decreases q.len(),
{
    if q.len() > 0 {
        lemma_overlaps_in_len(q.drop_last(), new, new_is_x);
    }
}

fn collect_overlaps<T: Copy>(q: &Vec<Interval<T>>, new: Interval<T>, new_is_x: bool, out: &mut Vec<Overlap<T>>)
    ensures
        final(out)@ == old(out)@ + overlaps_in(q@, new, new_is_x),
{
    let ghost start = out@;
    let mut k: usize = 0;
    while k < q.len()
        invariant
            k <= q@.len(),
            out@ == start + overlaps_in(q@.take(k as int), new, new_is_x),
        decreases q@.len() - k,
    {
        let j = q[k];
        assert(q@.take(k + 1).drop_last() =~= q@.take(k as int));
        let max_start: i64 = if new.start.ts.0 >= j.start.ts.0 { new.start.ts.0 } else { j.start.ts.0 };
        let min_end: i64 = if new.end.ts.0 <= j.end.ts.0 { new.end.ts.0 } else { j.end.ts.0 };
        if min_end > max_start {
            if new_is_x {
                out.push(Overlap { x: new, y: j });
            } else {
                out.push(Overlap { x: j, y: new });
            }
        }
        k = k + 1;
    }
    assert(q@.take(q@.len() as int) =~= q@);
}

fn retain_live<T: Copy>(q: &mut Vec<Interval<T>>, t: i64)
    ensures
        final(q)@ == live_after(old(q)@, t),
{
    let ghost orig = q@;
    let n = q.len();
    let mut w: usize = 0;
    let mut k: usize = 0;
    while k < n
        invariant
            n == orig.len(),
            w <= k <= n,
            q@.len() == n,
            q@.subrange(0, w as int) == live_after(orig.take(k as int), t),
            forall|m: int| k <= m < n ==> #[trigger] q@[m] == orig[m],
        decreases n - k,
    {
        let j = q[k];
        assert(orig.take(k + 1).drop_last() =~= orig.take(k as int));
        if j.end.ts.0 > t {
            let ghost prev = q@;
            q.set(w, j);
            assert(q@.subrange(0, w + 1) =~= prev.subrange(0, w as int).push(j));
            w = w + 1;
        }
        k = k + 1;
    }
    assert(orig.take(n as int) =~= orig);
    q.truncate(w);
    assert(q@ =~= live_after(orig, t));
}

fn push_pending<T: Copy>(q: &mut Vec<Interval<T>>, i: Interval<T>)
    requires
        old(q)@.len() <= PENDING_DEPTH,
    ensures
        final(q)@ == push_bounded(old(q)@, i),
        final(q)@.len() <= PENDING_DEPTH,
{
    if q.len() < PENDING_DEPTH {
        q.push(i);
    } else {
        q.remove(0);
        assert(q@ =~= old(q)@.drop_first());
        q.push(i);
    }
}

impl<T: Copy> HayashiYoshida<T> {
    /// Creates an estimator that has seen no observation.
    pub fn new() -> (r: Self)
        ensures
            r@ == HyState::<T>::empty(),
    {
        HayashiYoshida { x_last: None, y_last: None, x_pending: Vec::new(), y_pending: Vec::new(), count: 0 }
    }

    /// The number of overlapping interval pairs reported so far (saturating).
    pub fn count(&self) -> (r: u64)
        ensures
            r == self@.count,
    {
        self.count
    }

    /// Records an observation of series `x`; appends to `out` the overlaps of the
    /// interval it closes with every pending `y` interval, in queue order, and returns
    /// how many.
    pub fn update_x(&mut self, tick: Tick<T>, out: &mut Vec<Overlap<T>>) -> (r: usize)
        requires
            old(self)@.bounded(),
        ensures
            final(self)@.bounded(),
            final(self)@ == old(self)@.step_x(tick).0,
            final(out)@ == old(out)@ + old(self)@.step_x(tick).1,
            r == old(self)@.step_x(tick).1.len(),
            final(out)@.len() == old(out)@.len() + r,
            old(self)@.count + r <= u64::MAX ==> final(self)@.count == old(self)@.count + r,
            old(self)@.count + r > u64::MAX ==> final(self)@.count == u64::MAX,
    {
        let before = out.len();
        match self.x_last {
            None => {},
            Some(p) => {
                let i = Interval { start: p, end: tick };
                collect_overlaps(&self.y_pending, i, true, out);
                proof {
                    lemma_overlaps_in_len(self.y_pending@, i, true);
                }
                let keep = p.ts.0 < tick.ts.0 && match self.y_last {
                    None => true,
                    Some(o) => tick.ts.0 > o.ts.0,
                };
                if keep {
                    push_pending(&mut self.x_pending, i);
                }
            },
        }
        proof {
            lemma_live_after_len(self.y_pending@, tick.ts.0);
        }
        retain_live(&mut self.y_pending, tick.ts.0);
        self.x_last = Some(tick);
        let reported = out.len() - before;
        self.count = self.count.saturating_add(reported as u64);
        reported
    }

    /// Records an observation of series `y`; appends to `out` the overlaps of the
    /// interval it closes with every pending `x` interval, in queue order, and returns
    /// how many.
    pub fn update_y(&mut self, tick: Tick<T>, out: &mut Vec<Overlap<T>>) -> (r: usize)
        requires
            old(self)@.bounded(),
        ensures
            final(self)@.bounded(),
            final(self)@ == old(self)@.step_y(tick).0,
            final(out)@ == old(out)@ + old(self)@.step_y(tick).1,
            r == old(self)@.step_y(tick).1.len(),
            final(out)@.len() == old(out)@.len() + r,
            old(self)@.count + r <= u64::MAX ==> final(self)@.count == old(self)@.count + r,
            old(self)@.count + r > u64::MAX ==> final(self)@.count == u64::MAX,
    {
        let before = out.len();
        match self.y_last {
            None => {},
            Some(p) => {
                let i = Interval { start: p, end: tick };
                collect_overlaps(&self.x_pending, i, false, out);
                proof {
                    lemma_overlaps_in_len(self.x_pending@, i, false);
                }
                let keep = p.ts.0 < tick.ts.0 && match self.x_last {
                    None => true,
                    Some(o) => tick.ts.0 > o.ts.0,
                };
                if keep {
                    push_pending(&mut self.y_pending, i);
                }
            },
        }
        proof {
            lemma_live_after_len(self.x_pending@, tick.ts.0);
        }
        retain_live(&mut self.x_pending, tick.ts.0);
        self.y_last = Some(tick);
        let reported = out.len() - before;
        self.count = self.count.saturating_add(reported as u64);
        reported
    }

    /// Succeeds once at least one overlapping interval pair has been reported;
    /// otherwise reports `InsufficientData { needed: 1, have: 0 }`.
    pub fn covariance_ready(&self) -> (r: Result<(), ArgusError>)
        ensures
            r is Ok <==> self@.count >= 1,
            self@.count < 1 ==> (r matches Err(ArgusError::InsufficientData { needed: n, have: h })
                && n == 1 && h == self@.count),
    {
        require_observations(1, self.count)
    }
}

/// The overlaps of `new` with a queue are exactly its overlapping intervals: every
/// reported overlap pairs `new` with an interval of the queue that it overlaps, and
/// every interval of the queue that `new` overlaps is reported.
pub proof fn lemma_overlaps_in_exact<T>(q: Seq<Interval<T>>, new: Interval<T>, new_is_x: bool)
    ensures
        forall|m: int|
            0 <= m < q.len() && overlap(new, #[trigger] q[m]) ==> overlaps_in(q, new, new_is_x).contains(
                pair_up(new, q[m], new_is_x),
            ),
        forall|k: int|
            0 <= k < overlaps_in(q, new, new_is_x).len() ==> exists|m: int|
                0 <= m < q.len() && overlap(new, q[m]) && #[trigger] overlaps_in(q, new, new_is_x)[k]
                    == pair_up(new, q[m], new_is_x),
    decreases q.len(),
{
    if q.len() > 0 {
        let p = q.drop_last();
        lemma_overlaps_in_exact(p, new, new_is_x);
        let r = overlaps_in(q, new, new_is_x);
        let rp = overlaps_in(p, new, new_is_x);
        assert forall|m: int| 0 <= m < q.len() && overlap(new, #[trigger] q[m]) implies r.contains(
            pair_up(new, q[m], new_is_x),
        ) by {
            if m < q.len() - 1 {
                assert(p[m] == q[m]);
                let k = choose|k: int| 0 <= k < rp.len() && rp[k] == pair_up(new, p[m], new_is_x);
                assert(r[k] == rp[k]);
            } else {
                assert(r[r.len() - 1] == pair_up(new, q[m], new_is_x));
            }
        }
        assert forall|k: int| 0 <= k < r.len() implies exists|m: int|
            0 <= m < q.len() && overlap(new, q[m]) && #[trigger] r[k] == pair_up(new, q[m], new_is_x) by {
            if k < rp.len() {
                assert(r[k] == rp[k]);
                let m = choose|m: int| 0 <= m < p.len() && overlap(new, p[m]) && rp[k] == pair_up(new, p[m], new_is_x);
                assert(q[m] == p[m]);
            } else {
                assert(r[k] == pair_up(new, q[q.len() - 1], new_is_x));
            }
        }
    }
}

/// Each observation that closes an interval reports exactly the pending intervals of
/// the other series that overlap it, and the count grows by the number reported
/// (saturating at `u64::MAX`).
pub proof fn lemma_step_reports_window<T>(s: HyState<T>, tick: Tick<T>)
    ensures
        s.step_x(tick).0.count == add_count(s.count, s.step_x(tick).1.len()),
        s.step_y(tick).0.count == add_count(s.count, s.step_y(tick).1.len()),
        s.x_last is None ==> s.step_x(tick).1.len() == 0,
        s.y_last is None ==> s.step_y(tick).1.len() == 0,
        s.x_last matches Some(p) ==> s.step_x(tick).1 == overlaps_in(
            s.y_pending,
            Interval { start: p, end: tick },
            true,
        ),
        s.y_last matches Some(p) ==> s.step_y(tick).1 == overlaps_in(
            s.x_pending,
            Interval { start: p, end: tick },
            false,
        ),
{
}

proof fn lemma_overlaps_in_mirror<T>(q: Seq<Interval<T>>, new: Interval<T>)
    ensures
        overlaps_in(q, new, false) == overlaps_in(q, new, true).map_values(|o: Overlap<T>| o.mirror()),
    decreases q.len(),
{
    if q.len() > 0 {
        lemma_overlaps_in_mirror(q.drop_last(), new);
        assert(overlaps_in(q, new, false) =~= overlaps_in(q, new, true).map_values(|o: Overlap<T>| o.mirror()));
    } else {
        assert(overlaps_in(q, new, false) =~= overlaps_in(q, new, true).map_values(|o: Overlap<T>| o.mirror()));
    }
}

/// The two series play symmetric roles: observing `y` is observing `x` with the series
/// exchanged, and the overlaps reported are the same with their sides exchanged.
pub proof fn lemma_series_symmetry<T>(s: HyState<T>, tick: Tick<T>)
    ensures
        s.step_y(tick).0 == s.mirror().step_x(tick).0.mirror(),
        s.step_y(tick).1 == s.mirror().step_x(tick).1.map_values(|o: Overlap<T>| o.mirror()),
        s.step_x(tick).0 == s.mirror().step_y(tick).0.mirror(),
        s.step_x(tick).1 == s.mirror().step_y(tick).1.map_values(|o: Overlap<T>| o.mirror()),
{
    if let Some(p) = s.y_last {
        lemma_overlaps_in_mirror(s.x_pending, Interval { start: p, end: tick });
    }
    if let Some(p) = s.x_last {
        lemma_overlaps_in_mirror(s.y_pending, Interval { start: p, end: tick });
        let r = overlaps_in(s.y_pending, Interval { start: p, end: tick }, true);
        assert(r.map_values(|o: Overlap<T>| o.mirror()).map_values(|o: Overlap<T>| o.mirror()) =~= r);
    }
    assert(s.mirror().mirror() == s);
    assert(s.step_y(tick).0 =~~= s.mirror().step_x(tick).0.mirror());
    assert(s.step_x(tick).0 =~~= s.mirror().step_y(tick).0.mirror());
    assert(s.step_y(tick).1 =~= s.mirror().step_x(tick).1.map_values(|o: Overlap<T>| o.mirror()));
    assert(s.step_x(tick).1 =~= s.mirror().step_y(tick).1.map_values(|o: Overlap<T>| o.mirror()));
}

/// The estimator is symmetric in its two series over whole tick sequences: feeding the
/// same observations with the series exchanged ends in the mirrored state and reports
/// the same overlaps with their sides exchanged, so the sum of the products of the price
/// changes is the same.
pub proof fn lemma_run_symmetry<T>(s: HyState<T>, events: Seq<(bool, Tick<T>)>)
    ensures
        run(s.mirror(), mirror_events(events)).0 == run(s, events).0.mirror(),
        run(s.mirror(), mirror_events(events)).1 == run(s, events).1.map_values(|o: Overlap<T>| o.mirror()),
    decreases events.len(),
{
    if events.len() == 0 {
        assert(mirror_events(events).len() == 0);
        assert(run(s, events).1.map_values(|o: Overlap<T>| o.mirror()) =~= Seq::<Overlap<T>>::empty());
    } else {
        let e = events.drop_last();
        lemma_run_symmetry(s, e);
        let me = mirror_events(events);
        assert(me.drop_last() =~= mirror_events(e));
        let (before, reported) = run(s, e);
        let (b, t) = events.last();
        lemma_series_symmetry(before, t);
        assert(before.mirror().mirror() == before);
        let now = before.step(b, t).1;
        assert((reported + now).map_values(|o: Overlap<T>| o.mirror()) =~= reported.map_values(
            |o: Overlap<T>| o.mirror(),
        ) + now.map_values(|o: Overlap<T>| o.mirror()));
        if b {
            assert(before.mirror().step_y(t).1 == before.mirror().mirror().step_x(t).1.map_values(
                |o: Overlap<T>| o.mirror(),
            )) by {
                lemma_series_symmetry(before.mirror(), t);
            }
            lemma_series_symmetry(before.mirror(), t);
        } else {
            lemma_series_symmetry(before.mirror(), t);
        }
    }
}

/// Purging loses no overlap while each series moves forward in time: an interval that
/// ends at or before time `t` cannot overlap an interval starting at or after `t`. With
/// `t` the new tick, this covers the pending intervals of the other series that are
/// purged; with `t` the other series' latest tick, the new intervals not kept pending.
pub proof fn lemma_expired_intervals_cannot_overlap<T>(j: Interval<T>, later: Interval<T>, t: i64)
    requires
        j.end.ts.0 <= t,
        later.start.ts.0 >= t,
    ensures
        !overlap(later, j),
        !overlap(j, later),
{
}

/// Over any sequence of observations the count grows by the number of overlaps
/// reported, saturating at `u64::MAX`.
pub proof fn lemma_run_count<T>(s: HyState<T>, events: Seq<(bool, Tick<T>)>)
    requires
        s.count <= u64::MAX,
    ensures
        run(s, events).0.count == add_count(s.count, run(s, events).1.len()),
    decreases events.len(),
{
    if events.len() > 0 {
        lemma_run_count(s, events.drop_last());
        let (before, reported) = run(s, events.drop_last());
        let now = before.step(events.last().0, events.last().1).1;
        lemma_step_reports_window(before, events.last().1);
        assert(add_count(add_count(s.count, reported.len()), now.len()) == add_count(
            s.count,
            reported.len() + now.len(),
        ));
    }
}

/// A new estimator counts every overlap it reports: after any sequence of observations
/// its count is the number of overlaps reported, or `u64::MAX` when there are more.
pub proof fn lemma_count_is_number_reported<T>(events: Seq<(bool, Tick<T>)>)
    ensures
        run(HyState::<T>::empty(), events).1.len() <= u64::MAX ==> run(HyState::<T>::empty(), events).0.count
            == run(HyState::<T>::empty(), events).1.len(),
        run(HyState::<T>::empty(), events).1.len() > u64::MAX ==> run(HyState::<T>::empty(), events).0.count
            == u64::MAX,
{
    lemma_run_count(HyState::<T>::empty(), events);
}

} // verus!
