use argus::covariance::{CovarianceEntry, CovarianceManager, PairOverlap};
use argus::error::ArgusError;
use argus::math::{HayashiYoshida, Tick};
use argus::types::TimestampNs;

#[test]
fn new_creates_correct_pair_count() {
    let mgr: CovarianceManager<f64> = CovarianceManager::new(4);
    assert_eq!(mgr.n(), 4);
    assert_eq!(mgr.pair_count(), 6); // 4*3/2
}

#[test]
fn pair_index_formula() {
    let mgr: CovarianceManager<f64> = CovarianceManager::new(4);
    // (0,1)=0, (0,2)=1, (0,3)=2, (1,2)=3, (1,3)=4, (2,3)=5
    assert_eq!(mgr.pair_index(0, 1), 0);
    assert_eq!(mgr.pair_index(0, 2), 1);
    assert_eq!(mgr.pair_index(0, 3), 2);
    assert_eq!(mgr.pair_index(1, 2), 3);
    assert_eq!(mgr.pair_index(1, 3), 4);
    assert_eq!(mgr.pair_index(2, 3), 5);
}

#[test]
fn out_of_range_returns_error() {
    let mut mgr: CovarianceManager<f64> = CovarianceManager::new(2);
    let mut overlaps = Vec::new();
    assert!(mgr.update_tick(2, TimestampNs(0), 100.0, &mut overlaps).is_err());
    assert!(mgr.variance(5).is_err());
    assert!(mgr.covariance(0, 3).is_err());
}

#[test]
fn pair_index_is_a_bijection_on_slots() {
    for n in 0..9usize {
        let mgr: CovarianceManager<u8> = CovarianceManager::new(n);
        let mut seen = vec![false; mgr.pair_count()];
        for i in 0..n {
            for j in (i + 1)..n {
                let p = mgr.pair_index(i, j);
                assert!(p < mgr.pair_count());
                assert!(!seen[p]);
                seen[p] = true;
            }
        }
        assert!(seen.iter().all(|s| *s));
    }
}

#[test]
fn error_messages_name_the_index() {
    let mut mgr: CovarianceManager<f64> = CovarianceManager::new(3);
    let mut overlaps = Vec::new();
    match mgr.update_tick(7, TimestampNs(0), 1.0, &mut overlaps) {
        Err(ArgusError::InvalidParameter { name, reason }) => {
            assert_eq!(name, "asset_idx");
            assert_eq!(reason, "asset index 7 out of range for 3-asset universe");
        }
        other => panic!("unexpected result {other:?}"),
    }
    assert!(overlaps.is_empty());
    match mgr.covariance(2, 2) {
        Err(ArgusError::InvalidParameter { name, reason }) => {
            assert_eq!(name, "asset_index");
            assert_eq!(reason, "index (2, 2) is on the diagonal: it holds the variance");
        }
        other => panic!("unexpected result {other:?}"),
    }
    match mgr.covariance(1, 4) {
        Err(ArgusError::InvalidParameter { name, reason }) => {
            assert_eq!(name, "asset_index");
            assert_eq!(reason, "index (1, 4) out of range for 3-asset universe");
        }
        other => panic!("unexpected result {other:?}"),
    }
}

#[test]
fn ticks_reach_every_pair_of_their_asset() {
    let mut mgr: CovarianceManager<i64> = CovarianceManager::new(3);
    let mut overlaps: Vec<PairOverlap<i64>> = Vec::new();
    mgr.update_tick(0, TimestampNs(0), 10, &mut overlaps).unwrap();
    mgr.update_tick(1, TimestampNs(1), 20, &mut overlaps).unwrap();
    mgr.update_tick(2, TimestampNs(2), 30, &mut overlaps).unwrap();
    mgr.update_tick(0, TimestampNs(10), 11, &mut overlaps).unwrap();
    assert!(overlaps.is_empty());
    // Asset 1's second tick opens (1, 11], overlapping asset 0's (0, 10]: pair (0, 1).
    mgr.update_tick(1, TimestampNs(11), 22, &mut overlaps).unwrap();
    assert_eq!(overlaps.len(), 1);
    assert_eq!(overlaps[0].pair, mgr.pair_index(0, 1));
    assert_eq!(overlaps[0].overlap.x.end.price - overlaps[0].overlap.x.start.price, 1);
    assert_eq!(overlaps[0].overlap.y.end.price - overlaps[0].overlap.y.start.price, 2);
    // Asset 2's second tick overlaps both other assets, reported in order of the other asset.
    mgr.update_tick(2, TimestampNs(12), 33, &mut overlaps).unwrap();
    assert_eq!(overlaps.len(), 3);
    assert_eq!(overlaps[1].pair, mgr.pair_index(0, 2));
    assert_eq!(overlaps[2].pair, mgr.pair_index(1, 2));
}

#[test]
fn covariance_locates_entries() {
    let mut mgr: CovarianceManager<i64> = CovarianceManager::new(3);
    let mut overlaps = Vec::new();
    assert!(mgr.covariance(2, 2).is_err());
    match mgr.covariance(0, 1) {
        Err(ArgusError::InsufficientData { needed, have }) => {
            assert_eq!(needed, 1);
            assert_eq!(have, 0);
        }
        other => panic!("unexpected result {other:?}"),
    }
    mgr.update_tick(0, TimestampNs(0), 1, &mut overlaps).unwrap();
    mgr.update_tick(1, TimestampNs(1), 1, &mut overlaps).unwrap();
    mgr.update_tick(0, TimestampNs(10), 1, &mut overlaps).unwrap();
    mgr.update_tick(1, TimestampNs(11), 1, &mut overlaps).unwrap();
    let idx = mgr.pair_index(0, 1);
    assert_eq!(mgr.covariance(0, 1).unwrap(), CovarianceEntry::Pair(idx));
    assert_eq!(mgr.covariance(1, 0).unwrap(), CovarianceEntry::Pair(idx));
    assert!(mgr.covariance(0, 2).is_err());
    assert_eq!(mgr.variance(2).unwrap(), CovarianceEntry::Diagonal(2));
}

#[test]
fn pair_reports_match_a_single_estimator() {
    let ticks: [(usize, i64, i64); 12] = [
        (0, 0, 10), (2, 1, 5), (1, 2, 7), (0, 4, 12), (2, 5, 4), (1, 6, 9),
        (2, 8, 8), (0, 9, 11), (1, 10, 3), (2, 12, 6), (0, 15, 20), (2, 16, 1),
    ];
    let mut mgr: CovarianceManager<i64> = CovarianceManager::new(3);
    let mut overlaps: Vec<PairOverlap<i64>> = Vec::new();
    let mut hy: HayashiYoshida<i64> = HayashiYoshida::new();
    let mut expected = Vec::new();
    for &(a, ts, price) in ticks.iter() {
        mgr.update_tick(a, TimestampNs(ts), price, &mut overlaps).unwrap();
        let t = Tick { ts: TimestampNs(ts), price };
        if a == 0 {
            hy.update_x(t, &mut expected);
        } else if a == 2 {
            hy.update_y(t, &mut expected);
        }
    }
    let slot = mgr.pair_index(0, 2);
    let got: Vec<(i64, i64, i64, i64, i64)> = overlaps
        .iter()
        .filter(|p| p.pair == slot)
        .map(|p| {
            let o = p.overlap;
            (o.x.start.ts.0, o.x.end.ts.0, o.y.start.ts.0, o.y.end.ts.0, (o.x.end.price - o.x.start.price) * (o.y.end.price - o.y.start.price))
        })
        .collect();
    let want: Vec<(i64, i64, i64, i64, i64)> = expected
        .iter()
        .map(|o| (o.x.start.ts.0, o.x.end.ts.0, o.y.start.ts.0, o.y.end.ts.0, (o.x.end.price - o.x.start.price) * (o.y.end.price - o.y.start.price)))
        .collect();
    assert!(!want.is_empty());
    assert_eq!(got, want);
}
