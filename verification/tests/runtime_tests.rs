use argus::risk_policy::{correlation_metric, factor_beta_metric, variance_metric};
use argus::runtime::{shard_exports, PublishSchedule, TickPayload, TickRouter};
use argus::types::AssetId;
use ringbuf::traits::Consumer;

fn payload(asset_id: u32, ts: i64) -> TickPayload {
    TickPayload { asset_id, timestamp_ns: ts, price_bits: (100.0f64 + ts as f64).to_bits(), volume_bits: None }
}

#[test]
fn router_sends_each_asset_to_its_shard() {
    let (mut router, mut receivers) = TickRouter::new(3, 8);
    assert_eq!(router.num_shards(), 3);
    assert_eq!(receivers.len(), 3);
    assert_eq!(router.shard_for(7), 1);
    assert_eq!(router.shard_for(9), 0);
    assert!(router.dispatch(payload(7, 1)));
    assert!(router.dispatch(payload(9, 2)));
    assert!(router.dispatch(payload(4, 3)));
    assert_eq!(router.tick_count(), 3);
    assert_eq!(receivers[1].inner.try_pop(), Some(payload(7, 1)));
    assert_eq!(receivers[1].inner.try_pop(), Some(payload(4, 3)));
    assert_eq!(receivers[1].inner.try_pop(), None);
    assert_eq!(receivers[0].inner.try_pop(), Some(payload(9, 2)));
    assert_eq!(receivers[2].inner.try_pop(), None);
    assert_eq!(f64::from_bits(payload(9, 2).price_bits), 102.0);
}

#[test]
fn full_ring_drops_but_counts() {
    let (mut router, mut receivers) = TickRouter::new(1, 2);
    assert!(router.dispatch(payload(5, 1)));
    assert!(router.dispatch(payload(5, 2)));
    assert!(!router.dispatch(payload(5, 3)));
    assert_eq!(router.tick_count(), 3);
    assert_eq!(receivers[0].inner.try_pop(), Some(payload(5, 1)));
    assert!(router.dispatch(payload(5, 4)));
    assert_eq!(receivers[0].inner.try_pop(), Some(payload(5, 2)));
    assert_eq!(receivers[0].inner.try_pop(), Some(payload(5, 4)));
    assert_eq!(receivers[0].inner.try_pop(), None);
}

#[test]
fn router_without_shards() {
    let (router, receivers) = TickRouter::new(0, 4);
    assert_eq!(router.num_shards(), 0);
    assert!(receivers.is_empty());
}

#[test]
fn publish_schedule_waits_for_ticks() {
    let mut sched = PublishSchedule::new();
    assert!(!sched.after_drain(0));
    assert!(sched.after_drain(3));
    // The snapshot lock was busy: the ticks stay pending and the next drain publishes.
    assert!(!sched.after_drain(0));
    assert!(sched.after_drain(1));
    sched.published();
    assert!(!sched.after_drain(0));
}

#[test]
fn shards_export_assets_by_index() {
    assert!(shard_exports(1, 4, 5));
    assert!(shard_exports(0, 4, 8));
    assert!(!shard_exports(2, 4, 5));
    // With two shards, asset 2 is routed to shard 0, which exports it.
    assert!(shard_exports(0, 2, 2));
    assert!(!shard_exports(1, 2, 2));
    let (router, _receivers) = TickRouter::new(2, 4);
    assert_eq!(router.shard_for(2), 0);
}

#[test]
fn metric_names() {
    assert_eq!(variance_metric(), "variance");
    assert_eq!(correlation_metric(AssetId(1), AssetId(2)), "correlation(Asset(1), Asset(2))");
    assert_eq!(factor_beta_metric(0), "factor_beta[0]");
    assert_eq!(factor_beta_metric(12), "factor_beta[12]");
}

#[test]
fn batch_rows_reach_their_shards_in_order() {
    let (mut router, mut receivers) = TickRouter::new(2, 2);
    let rows = vec![payload(1, 1), payload(2, 2), payload(3, 3), payload(5, 4), payload(4, 5)];
    // Shard 1 gets assets 1, 3, 5: its ring of two accepts the first two and drops the third.
    let accepted = router.dispatch_batch(&rows);
    assert_eq!(accepted, vec![true, true, true, false, true]);
    assert_eq!(router.tick_count(), 5);
    assert_eq!(receivers[1].inner.try_pop(), Some(payload(1, 1)));
    assert_eq!(receivers[1].inner.try_pop(), Some(payload(3, 3)));
    assert_eq!(receivers[1].inner.try_pop(), None);
    assert_eq!(receivers[0].inner.try_pop(), Some(payload(2, 2)));
    assert_eq!(receivers[0].inner.try_pop(), Some(payload(4, 5)));
    assert_eq!(receivers[0].inner.try_pop(), None);
}
