//! Pair layout of the covariance matrix and the routing of ticks to pairs.
//!
//! The off-diagonal pairs `(i, j)` with `i < j < n` are stored in a flat
//! sequence at the upper-triangular index `i * n - i * (i + 1) / 2 + j - i - 1`.

use vstd::prelude::*;
use crate::error::ArgusError;
use crate::math::{HayashiYoshida, HyState, Overlap, Tick};
use crate::text::{decimal, push_decimal};
use crate::types::TimestampNs;

verus! {

/// The number of off-diagonal pairs of an `n`-asset universe.
pub open spec fn num_pairs(n: int) -> int {
    n * (n - 1) / 2
}

/// The flat index of the upper-triangular pair `(i, j)`, `i < j`, in an `n`-asset universe.
pub open spec fn pair_index_spec(n: int, i: int, j: int) -> int {
    i * n - i * (i + 1) / 2 + j - i - 1
}

/// The index at which the pairs of row `i` start.
spec fn row_start(n: int, i: int) -> int {
    i * n - i * (i + 1) / 2
}

proof fn lemma_triangle_step(i: int)
    requires
        i >= 0,
    ensures
        (i + 1) * (i + 2) / 2 == i * (i + 1) / 2 + (i + 1),
{
    assert((i + 1) * (i + 2) == i * (i + 1) + 2 * (i + 1)) by (nonlinear_arith);
}

proof fn lemma_row_step(n: int, i: int)
    requires
        i >= 0,
    ensures
        row_start(n, i + 1) == row_start(n, i) + (n - 1 - i),
{
    lemma_triangle_step(i);
    assert((i + 1) * n == i * n + n) by (nonlinear_arith);
}

proof fn lemma_row_monotone(n: int, a: int, b: int)
    requires
        0 <= a <= b <= n,
    ensures
        row_start(n, a) <= row_start(n, b),
    decreases b - a,
{
    if a < b {
        lemma_row_monotone(n, a, b - 1);
        lemma_row_step(n, b - 1);
    }
}

proof fn lemma_last_row(n: int)
    requires
        n >= 1,
    ensures
        row_start(n, n - 1) == num_pairs(n),
{
    let m = n - 1;
    assert(m * n == m * (m + 1)) by (nonlinear_arith)
        requires
            m == n - 1;
    assert(m * (m + 1) == n * (n - 1)) by (nonlinear_arith)
        requires
            m == n - 1;
    assert((m * (m + 1)) % 2 == 0) by {
        if m % 2 == 0 {
            assert(m * (m + 1) == 2 * ((m / 2) * (m + 1))) by (nonlinear_arith)
                requires
                    m % 2 == 0;
        } else {
            assert(m * (m + 1) == 2 * (m * ((m + 1) / 2))) by (nonlinear_arith)
                requires
                    m % 2 == 1;
        }
    }
}

/// Every pair `(i, j)` with `i < j < n` has an index in `[0, n(n-1)/2)`.
pub proof fn lemma_pair_index_in_range(n: int, i: int, j: int)
    requires
        0 <= i < j < n,
    ensures
        0 <= pair_index_spec(n, i, j) < num_pairs(n),
{
    lemma_row_monotone(n, 0, i);
    assert(row_start(n, 0) == 0);
    lemma_row_step(n, i);
    lemma_row_monotone(n, i + 1, n - 1);
    lemma_last_row(n);
}

/// Distinct pairs have distinct indices: the layout never makes two pairs share a slot.
pub proof fn lemma_pair_index_injective(n: int, i1: int, j1: int, i2: int, j2: int)
    requires
        0 <= i1 < j1 < n,
        0 <= i2 < j2 < n,
        pair_index_spec(n, i1, j1) == pair_index_spec(n, i2, j2),
    ensures
        i1 == i2,
        j1 == j2,
{
    if i1 < i2 {
        lemma_row_step(n, i1);
        lemma_row_monotone(n, i1 + 1, i2);
    } else if i2 < i1 {
        lemma_row_step(n, i2);
        lemma_row_monotone(n, i2 + 1, i1);
    }
}

proof fn lemma_row_of(n: int, p: int, i: int) -> (ij: (int, int))
    requires
        0 <= i < n - 1,
        row_start(n, i) <= p < num_pairs(n),
    ensures
        0 <= ij.0 < ij.1 < n,
        pair_index_spec(n, ij.0, ij.1) == p,
    decreases n - i,
{
    lemma_row_step(n, i);
    if p < row_start(n, i + 1) {
        (i, p - row_start(n, i) + i + 1)
    } else {
        if i + 1 == n - 1 {
            lemma_last_row(n);
        }
        lemma_row_of(n, p, i + 1)
    }
}

/// Every slot in `[0, n(n-1)/2)` is the index of some pair `(i, j)`, `i < j < n`: with
/// injectivity, the layout is a one-to-one correspondence between pairs and slots.
pub proof fn lemma_pair_index_onto(n: int, p: int)
    requires
        n >= 0,
        0 <= p < num_pairs(n),
    ensures
        exists|i: int, j: int| 0 <= i < j < n && pair_index_spec(n, i, j) == p,
{
    if n < 2 {
        if n == 0 {
            assert(num_pairs(0) == 0) by (nonlinear_arith);
        } else {
            assert(num_pairs(1) == 0) by (nonlinear_arith);
        }
    } else {
        assert(row_start(n, 0) == 0);
        let ij = lemma_row_of(n, p, 0);
        assert(pair_index_spec(n, ij.0, ij.1) == p);
    }
}

/// A reported overlap together with the slot of the pair it belongs to.
#[derive(Debug, Clone, Copy)]
pub struct PairOverlap<T> {
    pub pair: usize,
    pub overlap: Overlap<T>,
}

/// Where an entry of the covariance matrix is found: on the diagonal, the variance of
/// one asset; off the diagonal, the accumulated sum of one pair slot.
#[derive(Debug, Clone, Copy, PartialEq, Eq)]
pub enum CovarianceEntry {
    Diagonal(usize),
    Pair(usize),
}

/// The abstract state of the manager: the universe size and the interval state of
/// every pair slot.
pub ghost struct CovView<T> {
    pub n: nat,
    pub pairs: Seq<HyState<T>>,
}

impl<T> CovView<T> {
    /// The interval state of the pair `(i, j)`, `i < j`.
    pub open spec fn pair(self, i: int, j: int) -> HyState<T> {
        self.pairs[pair_index_spec(self.n as int, i, j)]
    }

    /// The interval state of the pair `(a, other)` after asset `a` observed `tick`,
    /// together with the overlap it reports.
    pub open spec fn pair_step(self, a: int, other: int, tick: Tick<T>) -> (HyState<T>, Seq<Overlap<T>>) {
        if a < other {
            self.pair(a, other).step_x(tick)
        } else {
            self.pair(other, a).step_y(tick)
        }
    }

    /// The slot of the pair made of assets `a` and `other`.
    pub open spec fn slot(self, a: int, other: int) -> int {
        if a < other {
            pair_index_spec(self.n as int, a, other)
        } else {
            pair_index_spec(self.n as int, other, a)
        }
    }

    /// The overlaps reported when asset `a` observes `tick`, for the other assets below
    /// `k`, in increasing order of the other asset.
    pub open spec fn tick_events(self, a: int, tick: Tick<T>, k: int) -> Seq<PairOverlap<T>>
        decreases k,
    {
        if k <= 0 {
            seq![]
        } else {
            let before = self.tick_events(a, tick, k - 1);
            let other = k - 1;
            if other == a {
                before
            } else {
                before + self.pair_step(a, other, tick).1.map_values(
                    |o: Overlap<T>| PairOverlap { pair: self.slot(a, other) as usize, overlap: o },
                )
            }
        }
    }

    /// Where the off-diagonal entry `(i, j)`, `i != j`, of the matrix is found: the slot
    /// of the pair, once that pair has reported an overlap.
    pub open spec fn entry(self, i: int, j: int) -> Option<CovarianceEntry> {
        let lo = if i < j { i } else { j };
        let hi = if i < j { j } else { i };
        if self.pair(lo, hi).count >= 1 {
            Some(CovarianceEntry::Pair(pair_index_spec(self.n as int, lo, hi) as usize))
        } else {
            None
        }
    }

    /// The state of pair `(i, j)` once asset `a` has observed `tick` for the other
    /// assets below `k`.
    pub open spec fn pair_after(self, a: int, tick: Tick<T>, k: int, i: int, j: int) -> HyState<T> {
        if i == a && j < k {
            self.pair(i, j).step_x(tick).0
        } else if j == a && i < k {
            self.pair(i, j).step_y(tick).0
        } else {
            self.pair(i, j)
        }
    }
}

/// The text of the error for an asset index outside the universe.
pub open spec fn asset_out_of_range(idx: nat, n: nat) -> Seq<char> {
    "asset index "@ + decimal(idx) + " out of range for "@ + decimal(n) + "-asset universe"@
}

/// The text of the error for a matrix position outside the universe.
pub open spec fn position_out_of_range(i: nat, j: nat, n: nat) -> Seq<char> {
    "index ("@ + decimal(i) + ", "@ + decimal(j) + ") out of range for "@ + decimal(n)
        + "-asset universe"@
}

/// The text of the error for a covariance asked on the diagonal.
pub open spec fn diagonal_position(i: nat) -> Seq<char> {
    "index ("@ + decimal(i) + ", "@ + decimal(i) + ") is on the diagonal: it holds the variance"@
}

fn diagonal_position_text(i: usize) -> (s: String)
    ensures
        s@ == diagonal_position(i as nat),
{
    let mut s = String::new();
    s.append("index (");
    push_decimal(&mut s, i as u64);
    s.append(", ");
    push_decimal(&mut s, i as u64);
    s.append(") is on the diagonal: it holds the variance");
    s
}

fn asset_out_of_range_text(idx: usize, n: usize) -> (s: String)
    ensures
        s@ == asset_out_of_range(idx as nat, n as nat),
{
    let mut s = String::new();
    s.append("asset index ");
    push_decimal(&mut s, idx as u64);
    s.append(" out of range for ");
    push_decimal(&mut s, n as u64);
    s.append("-asset universe");
    s
}

fn position_out_of_range_text(i: usize, j: usize, n: usize) -> (s: String)
    ensures
        s@ == position_out_of_range(i as nat, j as nat, n as nat),
{
    let mut s = String::new();
    s.append("index (");
    push_decimal(&mut s, i as u64);
    s.append(", ");
    push_decimal(&mut s, j as u64);
    s.append(") out of range for ");
    push_decimal(&mut s, n as u64);
    s.append("-asset universe");
    s
}

/// Manages the pairwise interval state of the covariance matrix of `n` assets:
/// one Hayashi-Yoshida estimator per upper-triangular pair.
pub struct CovarianceManager<T> {
    n: usize,
    hy_pairs: Vec<HayashiYoshida<T>>,
    /// Reused buffer for the overlaps one pair reports on one tick.
    scratch: Vec<Overlap<T>>,
}

impl<T> View for CovarianceManager<T> {
    type V = CovView<T>;

    closed spec fn view(&self) -> CovView<T> {
        CovView {
            n: self.n as nat,
            pairs: self.hy_pairs@.map_values(|h: HayashiYoshida<T>| h@),
        }
    }
}

impl<T: Copy> CovarianceManager<T> {
    /// The manager's invariant: one slot per pair, the pair count fits in memory
    /// arithmetic, and every pair keeps bounded pending queues.
    pub closed spec fn wf(&self) -> bool {
        &&& self.n * (self.n - 1) <= usize::MAX
        &&& self.hy_pairs@.len() == num_pairs(self.n as int)
        &&& forall|k: int| 0 <= k < self.hy_pairs@.len() ==> #[trigger] self.hy_pairs@[k]@.bounded()
    }

    /// Creates a manager for `n` assets with every pair in its initial state.
    pub fn new(n: usize) -> (r: Self)
        requires
            n * (n - 1) <= usize::MAX,
        ensures
            r.wf(),
            r@.n == n,
            r@.pairs.len() == num_pairs(n as int),
            forall|k: int| 0 <= k < r@.pairs.len() ==> #[trigger] r@.pairs[k] == HyState::<T>::empty(),
    {
        let num: usize = if n == 0 { 0 } else { n * (n - 1) / 2 };
        assert(num == num_pairs(n as int)) by {
            if n == 0 {
                assert(num_pairs(0) == 0) by (nonlinear_arith);
            }
        }
        let mut hy_pairs: Vec<HayashiYoshida<T>> = Vec::new();
        while hy_pairs.len() < num
            invariant
                hy_pairs@.len() <= num,
                forall|k: int| 0 <= k < hy_pairs@.len() ==> #[trigger] hy_pairs@[k]@ == HyState::<T>::empty(),
            decreases num - hy_pairs@.len(),
        {
            hy_pairs.push(HayashiYoshida::new());
        }
        let r = CovarianceManager { n, hy_pairs, scratch: Vec::new() };
        assert(r@.pairs.len() == num_pairs(n as int));
        r
    }

    /// The number of assets.
    pub fn n(&self) -> (r: usize)
        ensures
            r == self@.n,
    {
        self.n
    }

    /// The number of off-diagonal pair slots, `n(n-1)/2`.
    pub fn pair_count(&self) -> (r: usize)
        requires
            self.wf(),
        ensures
            r == num_pairs(self@.n as int),
            r == self@.pairs.len(),
    {
        self.hy_pairs.len()
    }

    /// Returns the flat slot of the upper-triangular entry `(i, j)` where `i < j`.
    pub fn pair_index(&self, i: usize, j: usize) -> (r: usize)
        requires
            self.wf(),
            i < j < self@.n,
        ensures
            r == pair_index_spec(self@.n as int, i as int, j as int),
            r < self@.pairs.len(),
    {
        let n = self.n;
        proof {
            lemma_pair_index_in_range(n as int, i as int, j as int);
            assert(i * n <= (n - 1) * n) by (nonlinear_arith)
                requires
                    i < n,
            ;
            assert(i * (i + 1) <= i * n) by (nonlinear_arith)
                requires
                    i + 1 <= n,
            ;
            assert((n - 1) * n == n * (n - 1)) by (nonlinear_arith);
        }
        let row: usize = i * n - i * (i + 1) / 2;
        row + (j - i - 1)
    }

    /// Locates the variance of `asset_idx`: the diagonal entry of an asset of the
    /// universe; an index outside it reports `InvalidParameter` for `asset_idx`.
    pub fn variance(&self, asset_idx: usize) -> (r: Result<CovarianceEntry, ArgusError>)
        ensures
            asset_idx < self@.n ==> r == Ok::<CovarianceEntry, ArgusError>(CovarianceEntry::Diagonal(asset_idx)),
            asset_idx >= self@.n ==> (r matches Err(ArgusError::InvalidParameter { name, reason })
                && name@ == "asset_idx"@ && reason@ == asset_out_of_range(asset_idx as nat, self@.n)),
    {
        if asset_idx >= self.n {
            Err(ArgusError::InvalidParameter {
                name: "asset_idx",
                reason: asset_out_of_range_text(asset_idx, self.n),
            })
        } else {
            Ok(CovarianceEntry::Diagonal(asset_idx))
        }
    }

    /// Feeds a tick of `asset_idx` into every pair that includes the asset: as series
    /// `x` of the pairs with a larger asset and as series `y` of those with a smaller
    /// one. The overlaps reported are appended to `overlaps`, tagged with their pair's
    /// slot, in increasing order of the other asset and, for one pair, in the order the
    /// pair reports them. An index outside the universe is refused and changes nothing.
    pub fn update_tick(
        &mut self,
        asset_idx: usize,
        ts: TimestampNs,
        price: T,
        overlaps: &mut Vec<PairOverlap<T>>,
    ) -> (r: Result<(), ArgusError>)
        requires
            old(self).wf(),
        ensures
            final(self).wf(),
            r is Ok <==> asset_idx < old(self)@.n,
            asset_idx >= old(self)@.n ==> {
                &&& r matches Err(ArgusError::InvalidParameter { name, reason })
                &&& name@ == "asset_idx"@
                &&& reason@ == asset_out_of_range(asset_idx as nat, old(self)@.n)
                &&& final(self)@ == old(self)@
                &&& final(overlaps)@ == old(overlaps)@
            },
            asset_idx < old(self)@.n ==> {
                let tick = Tick { ts, price };
                &&& final(self)@.n == old(self)@.n
                &&& final(self)@.pairs.len() == old(self)@.pairs.len()
                &&& forall|i: int, j: int|
                    0 <= i < j < old(self)@.n ==> #[trigger] final(self)@.pair(i, j) == old(
                        self,
                    )@.pair_after(asset_idx as int, tick, old(self)@.n as int, i, j)
                &&& final(overlaps)@ == old(overlaps)@ + old(self)@.tick_events(
                    asset_idx as int,
                    tick,
                    old(self)@.n as int,
                )
            },
    {
        if asset_idx >= self.n {
            return Err(ArgusError::InvalidParameter {
                name: "asset_idx",
                reason: asset_out_of_range_text(asset_idx, self.n),
            });
        }
        let ghost start = self@;
        let ghost start_pairs = self.hy_pairs@;
        let ghost start_overlaps = overlaps@;
        let tick = Tick { ts, price };
        let n = self.n;
        let mut other: usize = 0;
        while other < n
            invariant
                n == self.n,
                n == start.n,
                other <= n,
                n * (n - 1) <= usize::MAX,
                asset_idx < n,
                self.hy_pairs@.len() == num_pairs(n as int),
                start.pairs.len() == num_pairs(n as int),
                start.pairs == start_pairs.map_values(|h: HayashiYoshida<T>| h@),
                forall|k: int| 0 <= k < self.hy_pairs@.len() ==> #[trigger] self.hy_pairs@[k]@.bounded(),
                forall|i: int, j: int|
                    0 <= i < j < n ==> #[trigger] self@.pair(i, j) == start.pair_after(
                        asset_idx as int,
                        tick,
                        other as int,
                        i,
                        j,
                    ),
                overlaps@ == start_overlaps + start.tick_events(asset_idx as int, tick, other as int),
            decreases n - other,
        {
            if other != asset_idx {
                let lo = if asset_idx < other { asset_idx } else { other };
                let hi = if asset_idx < other { other } else { asset_idx };
                let idx = self.pair_index(lo, hi);
                proof {
                    lemma_pair_index_in_range(n as int, lo as int, hi as int);
                    assert(self@.pair(lo as int, hi as int) == start.pair(lo as int, hi as int));
                    assert(self.hy_pairs@[idx as int]@ == self@.pairs[idx as int]);
                }
                let ghost before = self@;
                let ghost before_overlaps = overlaps@;
                self.scratch.clear();
                if asset_idx < other {
                    self.hy_pairs[idx].update_x(tick, &mut self.scratch);
                } else {
                    self.hy_pairs[idx].update_y(tick, &mut self.scratch);
                }
                let ghost found = self.scratch@;
                let ghost tag = |o: Overlap<T>| PairOverlap { pair: idx, overlap: o };
                assert(found == start.pair_step(asset_idx as int, other as int, tick).1);
                assert(idx as int == start.slot(asset_idx as int, other as int));
                let mut k: usize = 0;
                while k < self.scratch.len()
                    invariant
                        self.scratch@ == found,
                        k <= found.len(),
                        overlaps@ == before_overlaps + found.take(k as int).map_values(tag),
                        tag == (|o: Overlap<T>| PairOverlap { pair: idx, overlap: o }),
                    decreases found.len() - k,
                {
                    overlaps.push(PairOverlap { pair: idx, overlap: self.scratch[k] });
                    assert(found.take(k + 1).map_values(tag) =~= found.take(k as int).map_values(tag).push(
                        tag(found[k as int]),
                    ));
                    k = k + 1;
                }
                proof {
                    assert(found.take(found.len() as int) =~= found);
                    assert(found.map_values(tag) =~= start.pair_step(asset_idx as int, other as int, tick).1.map_values(
                        |o: Overlap<T>| PairOverlap { pair: start.slot(asset_idx as int, other as int) as usize, overlap: o },
                    ));
                    assert forall|i: int, j: int| 0 <= i < j < n implies #[trigger] self@.pair(i, j)
                        == start.pair_after(asset_idx as int, tick, other + 1, i, j) by {
                        lemma_pair_index_in_range(n as int, i, j);
                        if pair_index_spec(n as int, i, j) == idx {
                            lemma_pair_index_injective(n as int, i, j, lo as int, hi as int);
                        } else {
                            assert(self@.pair(i, j) == before.pair(i, j));
                        }
                    }
                }
            }
            other = other + 1;
        }
        Ok(())
    }

    /// Locates the off-diagonal entry `(i, j)` of the covariance matrix: the slot of the
    /// pair, once that pair has reported an overlap. Indices outside the universe are
    /// refused first, then `i == j` (the diagonal is the variance); a pair without
    /// overlap reports `InsufficientData { needed: 1, have: 0 }`.
    pub fn covariance(&self, i: usize, j: usize) -> (r: Result<CovarianceEntry, ArgusError>)
        requires
            self.wf(),
        ensures
            (i >= self@.n || j >= self@.n) ==> (r matches Err(ArgusError::InvalidParameter { name, reason })
                && name@ == "asset_index"@ && reason@ == position_out_of_range(i as nat, j as nat, self@.n)),
            (i < self@.n && j < self@.n && i == j) ==> (r matches Err(ArgusError::InvalidParameter { name, reason })
                && name@ == "asset_index"@ && reason@ == diagonal_position(i as nat)),
            (i < self@.n && j < self@.n && i != j) ==> match self@.entry(i as int, j as int) {
                Some(e) => r == Ok::<CovarianceEntry, ArgusError>(e),
                None => r matches Err(ArgusError::InsufficientData { needed: 1, have: 0 }),
            },
    {
        if i >= self.n || j >= self.n {
            return Err(ArgusError::InvalidParameter {
                name: "asset_index",
                reason: position_out_of_range_text(i, j, self.n),
            });
        }
        if i == j {
            return Err(ArgusError::InvalidParameter { name: "asset_index", reason: diagonal_position_text(i) });
        }
        let lo = if i < j { i } else { j };
        let hi = if i < j { j } else { i };
        let idx = self.pair_index(lo, hi);
        assert(self.hy_pairs@[idx as int]@ == self@.pairs[idx as int]);
        match self.hy_pairs[idx].covariance_ready() {
            Ok(()) => Ok(CovarianceEntry::Pair(idx)),
            Err(e) => Err(e),
        }
    }
}

/// The covariance matrix is symmetric: entries `(i, j)` and `(j, i)` are found at the
/// same place, and are available together.
pub proof fn lemma_covariance_symmetric<T>(v: CovView<T>, i: int, j: int)
    requires
        i != j,
    ensures
        v.entry(i, j) == v.entry(j, i),
{
}

/// The state of one estimator fed, from `s`, the ticks of asset `i` as series `x` and
/// those of asset `j` as series `y`, in order; ticks of other assets are ignored.
pub open spec fn pair_history<T>(s: HyState<T>, ticks: Seq<(int, Tick<T>)>, i: int, j: int) -> HyState<T>
    decreases ticks.len(),
{
    if ticks.len() == 0 {
        s
    } else {
        let before = pair_history(s, ticks.drop_last(), i, j);
        let (a, t) = ticks.last();
        if a == i {
            before.step_x(t).0
        } else if a == j {
            before.step_y(t).0
        } else {
            before
        }
    }
}

impl<T> CovView<T> {
    /// `next` is the state that an accepted tick `tick` of asset `a` leaves, as
    /// [`CovarianceManager::update_tick`] states it.
    pub open spec fn accepted(self, next: Self, a: int, tick: Tick<T>) -> bool {
        &&& 0 <= a < self.n
        &&& next.n == self.n
        &&& forall|i: int, j: int|
            0 <= i < j < self.n ==> #[trigger] next.pair(i, j) == self.pair_after(a, tick, self.n as int, i, j)
    }
}

/// Over any sequence of accepted ticks, pair `(i, j)` of the manager behaves as a single
/// estimator fed the ticks of `i` as series `x` and those of `j` as series `y`; the ticks
/// of other assets leave it unchanged.
pub proof fn lemma_pair_follows_its_assets<T>(
    views: Seq<CovView<T>>,
    ticks: Seq<(int, Tick<T>)>,
    i: int,
    j: int,
)
    requires
        views.len() == ticks.len() + 1,
        forall|k: int| 0 <= k < ticks.len() ==> #[trigger] views[k].accepted(views[k + 1], ticks[k].0, ticks[k].1),
        0 <= i < j < views[0].n,
    ensures
        views.last().n == views[0].n,
        views.last().pair(i, j) == pair_history(views[0].pair(i, j), ticks, i, j),
    decreases ticks.len(),
{
    if ticks.len() > 0 {
        let k = ticks.len() - 1;
        assert(views.drop_last().last() == views[k]);
        assert(views[k].accepted(views[k + 1], ticks[k].0, ticks[k].1));
        assert(ticks.drop_last().len() == k);
        assert(views.drop_last()[0] == views[0]);
        assert forall|m: int| 0 <= m < ticks.drop_last().len() implies #[trigger] views.drop_last()[m].accepted(
            views.drop_last()[m + 1],
            ticks.drop_last()[m].0,
            ticks.drop_last()[m].1,
        ) by {
            assert(views[m].accepted(views[m + 1], ticks[m].0, ticks[m].1));
        }
        lemma_pair_follows_its_assets(views.drop_last(), ticks.drop_last(), i, j);
        assert(views[k + 1].pair(i, j) == views[k].pair_after(ticks[k].0, ticks[k].1, views[k].n as int, i, j));
    }
}

/// The overlaps among `evs` tagged with pair slot `slot`, in order.
pub open spec fn for_slot<T>(evs: Seq<PairOverlap<T>>, slot: usize) -> Seq<Overlap<T>>
    decreases evs.len(),
{
    if evs.len() == 0 {
        seq![]
    } else {
        let before = for_slot(evs.drop_last(), slot);
        if evs.last().pair == slot {
            before.push(evs.last().overlap)
        } else {
            before
        }
    }
}

/// The overlaps one estimator reports when fed, from `s`, the ticks of asset `i` as
/// series `x` and those of asset `j` as series `y`, in order.
pub open spec fn pair_reports<T>(s: HyState<T>, ticks: Seq<(int, Tick<T>)>, i: int, j: int) -> Seq<Overlap<T>>
    decreases ticks.len(),
{
    if ticks.len() == 0 {
        seq![]
    } else {
        let before = pair_history(s, ticks.drop_last(), i, j);
        let (a, t) = ticks.last();
        pair_reports(s, ticks.drop_last(), i, j) + if a == i {
            before.step_x(t).1
        } else if a == j {
            before.step_y(t).1
        } else {
            seq![]
        }
    }
}

proof fn lemma_for_slot_append<T>(a: Seq<PairOverlap<T>>, b: Seq<PairOverlap<T>>, slot: usize)
    ensures
        for_slot(a + b, slot) == for_slot(a, slot) + for_slot(b, slot),
    decreases b.len(),
{
    if b.len() == 0 {
        assert(a + b =~= a);
        assert(for_slot(a, slot) + for_slot(b, slot) =~= for_slot(a, slot));
    } else {
        lemma_for_slot_append(a, b.drop_last(), slot);
        assert((a + b).drop_last() =~= a + b.drop_last());
        assert((a + b).last() == b.last());
        if b.last().pair == slot {
            assert(for_slot(a, slot) + for_slot(b.drop_last(), slot).push(b.last().overlap) =~= (for_slot(a, slot)
                + for_slot(b.drop_last(), slot)).push(b.last().overlap));
        }
    }
}

proof fn lemma_for_slot_tagged<T>(os: Seq<Overlap<T>>, p: usize, slot: usize)
    ensures
        for_slot(os.map_values(|o: Overlap<T>| PairOverlap { pair: p, overlap: o }), slot) == if p == slot {
            os
        } else {
            seq![]
        },
    decreases os.len(),
{
    let tagged = os.map_values(|o: Overlap<T>| PairOverlap { pair: p, overlap: o });
    if os.len() == 0 {
        assert(tagged.len() == 0);
        if p == slot {
            assert(os =~= seq![]);
        }
    } else {
        lemma_for_slot_tagged(os.drop_last(), p, slot);
        assert(tagged.drop_last() =~= os.drop_last().map_values(|o: Overlap<T>| PairOverlap { pair: p, overlap: o }));
        assert(tagged.last() == PairOverlap { pair: p, overlap: os.last() });
        if p == slot {
            assert(os.drop_last().push(os.last()) =~= os);
        }
    }
}

proof fn lemma_slot_fits(n: int, i: int, j: int)
    requires
        0 <= i < j < n,
        n * (n - 1) <= usize::MAX,
    ensures
        (pair_index_spec(n, i, j) as usize) as int == pair_index_spec(n, i, j),
{
    lemma_pair_index_in_range(n, i, j);
    assert(num_pairs(n) <= n * (n - 1));
}

/// The overlaps tagged with the slot of pair `(i, j)` when asset `a` observes `tick`, for
/// the other assets below `k`.
proof fn lemma_tick_events_for_pair<T>(v: CovView<T>, a: int, tick: Tick<T>, k: int, i: int, j: int)
    requires
        0 <= a < v.n,
        0 <= i < j < v.n,
        0 <= k <= v.n,
        v.n * (v.n - 1) <= usize::MAX,
    ensures
        for_slot(v.tick_events(a, tick, k), pair_index_spec(v.n as int, i, j) as usize) == if a == i && j < k {
            v.pair(i, j).step_x(tick).1
        } else if a == j && i < k {
            v.pair(i, j).step_y(tick).1
        } else {
            seq![]
        },
    decreases k,
{
    let n = v.n as int;
    let target = pair_index_spec(n, i, j) as usize;
    lemma_slot_fits(n, i, j);
    if k > 0 {
        lemma_tick_events_for_pair(v, a, tick, k - 1, i, j);
        let other = k - 1;
        if other != a {
            let lo = if a < other { a } else { other };
            let hi = if a < other { other } else { a };
            lemma_slot_fits(n, lo, hi);
            let sl = v.slot(a, other) as usize;
            let os = v.pair_step(a, other, tick).1;
            lemma_for_slot_append(
                v.tick_events(a, tick, k - 1),
                os.map_values(|o: Overlap<T>| PairOverlap { pair: sl, overlap: o }),
                target,
            );
            lemma_for_slot_tagged(os, sl, target);
            if sl == target {
                lemma_pair_index_injective(n, lo, hi, i, j);
            } else {
                assert(!(lo == i && hi == j));
            }
            let before = for_slot(v.tick_events(a, tick, k - 1), target);
            assert(before + seq![] =~= before);
            assert(seq![] + os =~= os);
        }
    }
}

/// Over any sequence of accepted ticks, each appending what it reports to one buffer,
/// the overlaps tagged with the slot of pair `(i, j)` are exactly those that a single
/// estimator fed the ticks of `i` as series `x` and those of `j` as series `y` reports,
/// in the same order: the pair's covariance sum is that estimator's.
pub proof fn lemma_pair_reports_follow_its_assets<T>(
    views: Seq<CovView<T>>,
    logs: Seq<Seq<PairOverlap<T>>>,
    ticks: Seq<(int, Tick<T>)>,
    i: int,
    j: int,
)
    requires
        views.len() == ticks.len() + 1,
        logs.len() == ticks.len() + 1,
        forall|k: int| 0 <= k < ticks.len() ==> #[trigger] views[k].accepted(views[k + 1], ticks[k].0, ticks[k].1),
        forall|k: int|
            0 <= k < ticks.len() ==> #[trigger] logs[k + 1] == logs[k] + views[k].tick_events(
                ticks[k].0,
                ticks[k].1,
                views[k].n as int,
            ),
        0 <= i < j < views[0].n,
        views[0].n * (views[0].n - 1) <= usize::MAX,
    ensures
        for_slot(logs.last(), pair_index_spec(views[0].n as int, i, j) as usize) == for_slot(
            logs[0],
            pair_index_spec(views[0].n as int, i, j) as usize,
        ) + pair_reports(views[0].pair(i, j), ticks, i, j),
    decreases ticks.len(),
{
    let target = pair_index_spec(views[0].n as int, i, j) as usize;
    if ticks.len() == 0 {
        assert(for_slot(logs[0], target) + pair_reports(views[0].pair(i, j), ticks, i, j) =~= for_slot(
            logs[0],
            target,
        ));
    } else {
        let k = ticks.len() - 1;
        let vs = views.drop_last();
        let ls = logs.drop_last();
        let ts = ticks.drop_last();
        assert(vs[0] == views[0] && ls[0] == logs[0]);
        assert(vs.last() == views[k] && ls.last() == logs[k]);
        assert forall|m: int| 0 <= m < ts.len() implies #[trigger] vs[m].accepted(vs[m + 1], ts[m].0, ts[m].1) by {
            assert(views[m].accepted(views[m + 1], ticks[m].0, ticks[m].1));
        }
        assert forall|m: int| 0 <= m < ts.len() implies #[trigger] ls[m + 1] == ls[m] + vs[m].tick_events(
            ts[m].0,
            ts[m].1,
            vs[m].n as int,
        ) by {
            assert(logs[m + 1] == logs[m] + views[m].tick_events(ticks[m].0, ticks[m].1, views[m].n as int));
        }
        lemma_pair_reports_follow_its_assets(vs, ls, ts, i, j);
        lemma_pair_follows_its_assets(vs, ts, i, j);
        let v = views[k];
        assert(v.accepted(views[k + 1], ticks[k].0, ticks[k].1));
        assert(logs[k + 1] == logs[k] + v.tick_events(ticks[k].0, ticks[k].1, v.n as int));
        lemma_for_slot_append(logs[k], v.tick_events(ticks[k].0, ticks[k].1, v.n as int), target);
        lemma_tick_events_for_pair(v, ticks[k].0, ticks[k].1, v.n as int, i, j);
        assert(logs.last() == logs[k + 1]);
        let now = if ticks[k].0 == i {
            v.pair(i, j).step_x(ticks[k].1).1
        } else if ticks[k].0 == j {
            v.pair(i, j).step_y(ticks[k].1).1
        } else {
            seq![]
        };
        assert(pair_reports(views[0].pair(i, j), ticks, i, j) == pair_reports(views[0].pair(i, j), ts, i, j)
            + now);
        assert(for_slot(logs[0], target) + pair_reports(views[0].pair(i, j), ts, i, j) + now =~= for_slot(
            logs[0],
            target,
        ) + (pair_reports(views[0].pair(i, j), ts, i, j) + now));
    }
}

} // verus!
