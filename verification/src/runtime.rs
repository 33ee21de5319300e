//! Routing of ticks to shards over lock-free single-producer single-consumer rings.
//!
//! Each shard owns the consuming end of one ring; the router owns the producing ends
//! and sends every tick to the shard `asset_id % num_shards`. A ring that is full
//! drops the tick, which is counted all the same.

use vstd::prelude::*;
use ringbuf::traits::{Producer, Split};

verus! {

/// The tick payload sent from the orchestrator to a shard. Prices travel as the bit
/// patterns of IEEE-754 doubles (`f64::to_bits`), so the payload is plain integers.
#[derive(Debug, Clone, Copy, PartialEq, Eq)]
pub struct TickPayload {
    pub asset_id: u32,
    pub timestamp_ns: i64,
    pub price_bits: u64,
    pub volume_bits: Option<u64>,
}

/// The producing end of a shard's ring (`ringbuf::HeapProd`).
#[verifier::external_body]
pub struct TickSender {
    inner: ringbuf::HeapProd<TickPayload>,
}

/// The consuming end of a shard's ring (`ringbuf::HeapCons`), handed to the shard's
/// thread, which pops from `inner` with `ringbuf::traits::Consumer::try_pop`.
#[verifier::external_body]
pub struct TickReceiver {
    pub inner: ringbuf::HeapCons<TickPayload>,
}

/// The ticks accepted through a producing end since its ring was created, in the
/// order they were pushed; the consumer receives them in this order.
pub uninterp spec fn sent_ticks(sender: TickSender) -> Seq<TickPayload>;

/// The number of slots that the ring of a producing end was created with.
pub uninterp spec fn ring_capacity(sender: TickSender) -> nat;

/// The ring that a producing end writes to.
pub uninterp spec fn sender_ring(sender: TickSender) -> int;

/// The ring that a consuming end reads from.
pub uninterp spec fn receiver_ring(receiver: TickReceiver) -> int;

/// Creates a ring of `capacity` slots with `ringbuf::HeapRb::new` and splits it with
/// `ringbuf::traits::Split::split` into its producing and consuming ends. `new` panics
/// for a zero capacity, for one above `usize::MAX / 2` and when the slot array does not
/// fit in `isize::MAX` bytes; `requires` leaves those out, a slot of `TickPayload` taking
/// at most 64 bytes (40 on 64-bit targets). Nothing has been sent yet, the ring has
/// `capacity` slots, and both ends share it: `split` wraps one `Arc` of the ring in both.
#[verifier::external_body]
fn tick_channel(capacity: usize) -> (r: (TickSender, TickReceiver))
    requires
        0 < capacity <= isize::MAX / 64,
    ensures
        sent_ticks(r.0) == Seq::<TickPayload>::empty(),
        ring_capacity(r.0) == capacity,
        sender_ring(r.0) == receiver_ring(r.1),
{
    let (prod, cons) = ringbuf::HeapRb::<TickPayload>::new(capacity).split();
    (TickSender { inner: prod }, TickReceiver { inner: cons })
}

impl TickSender {
    /// Pushes a tick with `ringbuf::traits::Producer::try_push`, which stores it and
    /// returns `Ok` when the ring has a vacant slot, and hands it back in `Err` when the
    /// ring is full. The ring holds at most the ticks ever accepted through this end, so
    /// while fewer than its capacity have been accepted the push is accepted; beyond
    /// that, whether the ring is full depends on the consuming thread. An accepted tick
    /// is appended to the sent sequence and a refused one leaves it unchanged; the ring
    /// and its capacity stay the same.
    #[verifier::external_body]
    fn try_push(&mut self, tick: TickPayload) -> (r: bool)
        ensures
            sent_ticks(*old(self)).len() < ring_capacity(*old(self)) ==> r,
            ring_capacity(*final(self)) == ring_capacity(*old(self)),
            sender_ring(*final(self)) == sender_ring(*old(self)),
            r ==> sent_ticks(*final(self)) == sent_ticks(*old(self)).push(tick),
            !r ==> sent_ticks(*final(self)) == sent_ticks(*old(self)),
    {
        self.inner.try_push(tick).is_ok()
    }
}

/// The shard that handles the ticks of `asset_id` among `num_shards` shards.
pub open spec fn shard_of(asset_id: u32, num_shards: nat) -> int {
    (asset_id as int) % (num_shards as int)
}

/// The abstract state of a router: the ticks sent to each shard so far, the capacity
/// and the identity of each shard's ring, and the number of ticks dispatched (accepted
/// or dropped).
pub ghost struct RouterView {
    pub sent: Seq<Seq<TickPayload>>,
    pub capacities: Seq<nat>,
    pub rings: Seq<int>,
    pub tick_count: nat,
}

/// Distributes ticks to shards.
pub struct TickRouter {
    senders: Vec<TickSender>,
    tick_count: u64,
}

impl View for TickRouter {
    type V = RouterView;

    closed spec fn view(&self) -> RouterView {
        RouterView {
            sent: self.senders@.map_values(|s: TickSender| sent_ticks(s)),
            capacities: self.senders@.map_values(|s: TickSender| ring_capacity(s)),
            rings: self.senders@.map_values(|s: TickSender| sender_ring(s)),
            tick_count: self.tick_count as nat,
        }
    }
}

impl TickRouter {
    /// Creates a router with one ring of `capacity` slots per shard; returns the router
    /// and the consuming ends, the one that reads the ring of shard `i` at position `i`.
    pub fn new(num_shards: usize, capacity: usize) -> (r: (TickRouter, Vec<TickReceiver>))
        requires
            0 < capacity <= isize::MAX / 64,
        ensures
            r.0@.sent.len() == num_shards,
            forall|i: int| 0 <= i < num_shards ==> #[trigger] r.0@.sent[i] == Seq::<TickPayload>::empty(),
            r.0@.tick_count == 0,
            r.0@.capacities.len() == num_shards,
            r.0@.rings.len() == num_shards,
            r.1@.len() == num_shards,
            forall|i: int| 0 <= i < num_shards ==> #[trigger] r.0@.capacities[i] == capacity,
            forall|i: int| 0 <= i < num_shards ==> #[trigger] receiver_ring(r.1@[i]) == r.0@.rings[i],
    {
        let mut senders: Vec<TickSender> = Vec::new();
        let mut receivers: Vec<TickReceiver> = Vec::new();
        let mut i: usize = 0;
        while i < num_shards
            invariant
                i <= num_shards,
                0 < capacity <= isize::MAX / 64,
                senders@.len() == i,
                receivers@.len() == i,
                forall|k: int| 0 <= k < i ==> sent_ticks(#[trigger] senders@[k]) == Seq::<TickPayload>::empty(),
                forall|k: int| 0 <= k < i ==> ring_capacity(#[trigger] senders@[k]) == capacity,
                forall|k: int| 0 <= k < i ==> sender_ring(#[trigger] senders@[k]) == receiver_ring(receivers@[k]),
            decreases num_shards - i,
        {
            let (tx, rx) = tick_channel(capacity);
            senders.push(tx);
            receivers.push(rx);
            i = i + 1;
        }
        let r = (TickRouter { senders, tick_count: 0 }, receivers);
        assert(forall|k: int| 0 <= k < num_shards ==> #[trigger] r.0@.rings[k] == sender_ring(r.0.senders@[k]));
        r
    }

    /// The number of shards.
    pub fn num_shards(&self) -> (r: usize)
        ensures
            r == self@.sent.len(),
    {
        self.senders.len()
    }

    /// The number of ticks dispatched so far, accepted or dropped.
    pub fn tick_count(&self) -> (r: u64)
        ensures
            r == self@.tick_count,
    {
        self.tick_count
    }

    /// The shard that handles the ticks of `asset_id`.
    pub fn shard_for(&self, asset_id: u32) -> (r: usize)
        requires
            self@.sent.len() > 0,
        ensures
            r == shard_of(asset_id, self@.sent.len()),
            r < self@.sent.len(),
    {
        (asset_id as usize) % self.senders.len()
    }

    /// Sends a tick to the shard of its asset and counts it. Returns whether the ring
    /// accepted it: always while the shard has been sent fewer ticks than its ring's
    /// capacity; beyond that, a full ring drops it. No other shard's ring changes.
    pub fn dispatch(&mut self, tick: TickPayload) -> (r: bool)
        requires
            old(self)@.sent.len() > 0,
            old(self)@.tick_count < u64::MAX,
        ensures
            final(self)@ == old(self)@.after_dispatch(tick, r),
            ({
                let s = shard_of(tick.asset_id, old(self)@.sent.len());
                old(self)@.sent[s].len() < old(self)@.capacities[s] ==> r
            }),
            ({
                let s = shard_of(tick.asset_id, old(self)@.sent.len());
                &&& final(self)@.sent.len() == old(self)@.sent.len()
                &&& final(self)@.tick_count == old(self)@.tick_count + 1
                &&& r ==> final(self)@.sent[s] == old(self)@.sent[s].push(tick)
                &&& !r ==> final(self)@.sent[s] == old(self)@.sent[s]
                &&& forall|k: int|
                    0 <= k < old(self)@.sent.len() && k != s ==> #[trigger] final(self)@.sent[k] == old(
                        self,
                    )@.sent[k]
            }),
    {
        let shard = self.shard_for(tick.asset_id);
        let accepted = self.senders[shard].try_push(tick);
        self.tick_count = self.tick_count + 1;
        proof {
            assert(self@.sent =~= old(self)@.sent.update(shard as int, sent_ticks(self.senders@[shard as int])));
            assert(self@.capacities =~= old(self)@.capacities);
            assert(self@.rings =~= old(self)@.rings);
            if !accepted {
                assert(self@.sent =~= old(self)@.sent);
            }
        }
        accepted
    }

    /// Sends each tick of a batch, in order, to the shard of its asset and counts it.
    /// Returns, for each tick, whether its shard's ring accepted it: always while that
    /// shard had been sent fewer ticks than its ring's capacity. Each shard receives its
    /// accepted ticks in batch order.
    pub fn dispatch_batch(&mut self, ticks: &Vec<TickPayload>) -> (accepted: Vec<bool>)
        requires
            old(self)@.sent.len() > 0,
            old(self)@.tick_count + ticks@.len() <= u64::MAX,
        ensures
            accepted@.len() == ticks@.len(),
            final(self)@ == old(self)@.after_dispatches(ticks@, accepted@),
            forall|k: int|
                #![trigger accepted@[k]]
                0 <= k < ticks@.len() ==> {
                    let before = old(self)@.after_dispatches(ticks@.take(k), accepted@.take(k));
                    let s = shard_of(ticks@[k].asset_id, old(self)@.sent.len());
                    before.sent[s].len() < before.capacities[s] ==> accepted@[k]
                },
            final(self)@.sent.len() == old(self)@.sent.len(),
            final(self)@.tick_count == old(self)@.tick_count + ticks@.len(),
            forall|s: int|
                0 <= s < old(self)@.sent.len() ==> #[trigger] final(self)@.sent[s] == old(self)@.sent[s]
                    + accepted_for_shard(ticks@, accepted@, s, old(self)@.sent.len()),
    {
        let ghost start = self@;
        let mut accepted: Vec<bool> = Vec::new();
        let mut k: usize = 0;
        while k < ticks.len()
            invariant
                k <= ticks@.len(),
                accepted@.len() == k,
                start.sent.len() > 0,
                start.tick_count + ticks@.len() <= u64::MAX,
                self@ == start.after_dispatches(ticks@.take(k as int), accepted@),
                self@.sent.len() == start.sent.len(),
                self@.tick_count == start.tick_count + k,
                forall|j: int|
                    #![trigger accepted@[j]]
                    0 <= j < k ==> {
                        let before = start.after_dispatches(ticks@.take(j), accepted@.take(j));
                        let s = shard_of(ticks@[j].asset_id, start.sent.len());
                        before.sent[s].len() < before.capacities[s] ==> accepted@[j]
                    },
            decreases ticks@.len() - k,
        {
            let ghost before = self@;
            let ghost acc = accepted@;
            let a = self.dispatch(ticks[k]);
            accepted.push(a);
            proof {
                assert(ticks@.take(k + 1).drop_last() =~= ticks@.take(k as int));
                assert(accepted@.drop_last() =~= acc);
                assert(ticks@.take(k + 1).last() == ticks@[k as int]);
                assert forall|j: int| 0 <= j <= k implies #[trigger] accepted@.take(j) =~= acc.take(j) by {}
                assert(acc.take(k as int) =~= acc);
                assert(accepted@[k as int] == a);
                assert forall|j: int| 0 <= j < k implies accepted@[j] == acc[j] by {}
            }
            k = k + 1;
        }
        proof {
            assert(ticks@.take(ticks@.len() as int) =~= ticks@);
            lemma_batch_appends_in_order(start, ticks@, accepted@);
        }
        accepted
    }
}

impl RouterView {
    /// The state after dispatching `ticks` in order, the `k`-th accepted as
    /// `accepted[k]` says.
    pub open spec fn after_dispatches(self, ticks: Seq<TickPayload>, accepted: Seq<bool>) -> RouterView
        decreases ticks.len(),
    {
        if ticks.len() == 0 {
            self
        } else {
            self.after_dispatches(ticks.drop_last(), accepted.drop_last()).after_dispatch(
                ticks.last(),
                accepted.last(),
            )
        }
    }

    /// The state after dispatching `tick`: one more tick counted, and the tick appended
    /// to the sequence of its asset's shard when the ring `accepted` it.
    pub open spec fn after_dispatch(self, tick: TickPayload, accepted: bool) -> RouterView {
        let s = shard_of(tick.asset_id, self.sent.len());
        RouterView {
            sent: if accepted { self.sent.update(s, self.sent[s].push(tick)) } else { self.sent },
            capacities: self.capacities,
            rings: self.rings,
            tick_count: self.tick_count + 1,
        }
    }

    /// Every tick sent to a shard belongs to an asset of that shard.
    pub open spec fn partitioned(self) -> bool {
        forall|k: int, m: int|
            0 <= k < self.sent.len() && 0 <= m < self.sent[k].len() ==> shard_of(
                #[trigger] self.sent[k][m].asset_id,
                self.sent.len(),
            ) == k
    }
}

/// The shards own disjoint parts of the asset universe: a router starts with nothing
/// sent, and every dispatch keeps each shard's ticks within its own assets.
pub proof fn lemma_dispatch_keeps_partition(v: RouterView, tick: TickPayload, accepted: bool)
    requires
        v.sent.len() > 0,
        v.partitioned(),
    ensures
        v.after_dispatch(tick, accepted).partitioned(),
        v.after_dispatch(tick, accepted).sent.len() == v.sent.len(),
{
    let w = v.after_dispatch(tick, accepted);
    assert forall|k: int, m: int| 0 <= k < w.sent.len() && 0 <= m < w.sent[k].len() implies shard_of(
        #[trigger] w.sent[k][m].asset_id,
        w.sent.len(),
    ) == k by {
        if accepted && k == shard_of(tick.asset_id, v.sent.len()) && m == v.sent[k].len() {
        } else {
            assert(w.sent[k][m] == v.sent[k][m]);
        }
    }
}

/// A router with nothing sent is partitioned.
pub proof fn lemma_empty_router_partitioned(v: RouterView)
    requires
        forall|k: int| 0 <= k < v.sent.len() ==> (#[trigger] v.sent[k]).len() == 0,
    ensures
        v.partitioned(),
{
}

/// When a shard publishes its snapshot: after a drain of its ring that processed at least
/// one tick, once the ticks processed since the last publication reach one. A
/// publication that could not take the snapshot lock leaves them pending.
pub struct PublishSchedule {
    pending: u64,
}

impl View for PublishSchedule {
    type V = nat;

    /// The ticks processed since the last publication.
    closed spec fn view(&self) -> nat {
        self.pending as nat
    }
}

impl PublishSchedule {
    /// A schedule with no pending tick.
    pub fn new() -> (r: Self)
        ensures
            r@ == 0,
    {
        PublishSchedule { pending: 0 }
    }

    /// The ticks processed since the last publication.
    pub fn pending(&self) -> (r: u64)
        ensures
            r == self@,
    {
        self.pending
    }

    /// Records a drain that processed `processed` ticks; returns whether to publish now.
    pub fn after_drain(&mut self, processed: u64) -> (publish: bool)
        requires
            old(self)@ + processed <= u64::MAX,
        ensures
            processed == 0 ==> final(self)@ == old(self)@ && !publish,
            processed > 0 ==> final(self)@ == old(self)@ + processed && publish == (final(self)@ >= 1),
    {
        if processed > 0 {
            self.pending = self.pending + processed;
            self.pending >= 1
        } else {
            false
        }
    }

    /// Records a successful publication.
    pub fn published(&mut self)
        ensures
            final(self)@ == 0,
    {
        self.pending = 0;
    }
}

/// Whether shard `shard_id` of `num_shards` exports the variance of asset `asset_idx` in
/// its snapshot: exactly when the asset is one it owns, the shard its ticks are routed to.
pub fn shard_exports(shard_id: usize, num_shards: usize, asset_idx: usize) -> (r: bool)
    requires
        num_shards > 0,
    ensures
        r == (asset_idx % num_shards == shard_id),
        asset_idx <= u32::MAX ==> (r == (shard_of(asset_idx as u32, num_shards as nat) == shard_id)),
{
    asset_idx % num_shards == shard_id
}

/// The ticks of `ticks` accepted (as `accepted` says) and routed to shard `s` among
/// `n` shards, in batch order.
pub open spec fn accepted_for_shard(ticks: Seq<TickPayload>, accepted: Seq<bool>, s: int, n: nat) -> Seq<TickPayload>
    decreases ticks.len(),
{
    if ticks.len() == 0 {
        seq![]
    } else {
        let before = accepted_for_shard(ticks.drop_last(), accepted.drop_last(), s, n);
        if accepted.last() && shard_of(ticks.last().asset_id, n) == s {
            before.push(ticks.last())
        } else {
            before
        }
    }
}

/// A dispatch appends exactly the dispatched tick, field for field, to its shard when
/// accepted, leaves every other shard unchanged, and counts one tick.
pub proof fn lemma_dispatch_appends(v: RouterView, tick: TickPayload, accepted: bool)
    requires
        v.sent.len() > 0,
    ensures
        ({
            let w = v.after_dispatch(tick, accepted);
            let s = (tick.asset_id as int) % (v.sent.len() as int);
            &&& w.sent.len() == v.sent.len()
            &&& w.tick_count == v.tick_count + 1
            &&& accepted ==> w.sent[s] == v.sent[s].push(tick) && w.sent[s].last() == tick
            &&& !accepted ==> w.sent == v.sent
            &&& forall|k: int| 0 <= k < v.sent.len() && k != s ==> #[trigger] w.sent[k] == v.sent[k]
        }),
{
}

/// Dispatching a batch appends to each shard exactly the accepted ticks of its assets,
/// in batch order, and counts every tick of the batch.
pub proof fn lemma_batch_appends_in_order(v: RouterView, ticks: Seq<TickPayload>, accepted: Seq<bool>)
    requires
        v.sent.len() > 0,
        accepted.len() == ticks.len(),
    ensures
        v.after_dispatches(ticks, accepted).sent.len() == v.sent.len(),
        v.after_dispatches(ticks, accepted).tick_count == v.tick_count + ticks.len(),
        forall|s: int|
            0 <= s < v.sent.len() ==> #[trigger] v.after_dispatches(ticks, accepted).sent[s] == v.sent[s]
                + accepted_for_shard(ticks, accepted, s, v.sent.len()),
    decreases ticks.len(),
{
    if ticks.len() == 0 {
        assert forall|s: int| 0 <= s < v.sent.len() implies #[trigger] v.after_dispatches(ticks, accepted).sent[s]
            == v.sent[s] + accepted_for_shard(ticks, accepted, s, v.sent.len()) by {
            assert(v.sent[s] + Seq::<TickPayload>::empty() =~= v.sent[s]);
        }
    } else {
        let ts = ticks.drop_last();
        let acc = accepted.drop_last();
        lemma_batch_appends_in_order(v, ts, acc);
        let w = v.after_dispatches(ts, acc);
        let t = ticks.last();
        let a = accepted.last();
        lemma_dispatch_appends(w, t, a);
        assert forall|s: int| 0 <= s < v.sent.len() implies #[trigger] v.after_dispatches(ticks, accepted).sent[s]
            == v.sent[s] + accepted_for_shard(ticks, accepted, s, v.sent.len()) by {
            let prev = accepted_for_shard(ts, acc, s, v.sent.len());
            if a && shard_of(t.asset_id, v.sent.len()) == s {
                assert(v.sent[s] + prev.push(t) =~= (v.sent[s] + prev).push(t));
            }
        }
    }
}

} // verus!
