use argus::error::ArgusError;
use argus::math::{HayashiYoshida, Overlap, Tick, PENDING_DEPTH};
use argus::types::TimestampNs;

fn tick(ts: i64, price: i64) -> Tick<i64> {
    Tick { ts: TimestampNs(ts), price }
}

fn product(o: &Overlap<i64>) -> i64 {
    (o.x.end.price - o.x.start.price) * (o.y.end.price - o.y.start.price)
}

fn sum(os: &[Overlap<i64>]) -> i64 {
    os.iter().map(product).sum()
}

/// Feeds an x tick and returns the overlaps it reports.
fn ux(hy: &mut HayashiYoshida<i64>, t: Tick<i64>) -> Vec<Overlap<i64>> {
    let mut out = Vec::new();
    let n = hy.update_x(t, &mut out);
    assert_eq!(n, out.len());
    out
}

/// Feeds a y tick and returns the overlaps it reports.
fn uy(hy: &mut HayashiYoshida<i64>, t: Tick<i64>) -> Vec<Overlap<i64>> {
    let mut out = Vec::new();
    let n = hy.update_y(t, &mut out);
    assert_eq!(n, out.len());
    out
}

#[test]
fn hy_needs_an_overlap_before_covariance() {
    let mut hy: HayashiYoshida<i64> = HayashiYoshida::new();
    assert_eq!(hy.count(), 0);
    match hy.covariance_ready() {
        Err(ArgusError::InsufficientData { needed, have }) => {
            assert_eq!(needed, 1);
            assert_eq!(have, 0);
        }
        other => panic!("unexpected result {other:?}"),
    }
    assert!(ux(&mut hy, tick(0, 100)).is_empty());
    assert!(ux(&mut hy, tick(10, 101)).is_empty());
    assert!(uy(&mut hy, tick(5, 50)).is_empty());
    assert!(hy.covariance_ready().is_err());
}

#[test]
fn hy_sums_over_every_overlapping_pair() {
    // X interval (0, 10] (dX = 1) overlaps both Y intervals (1, 3] (dY = 1) and (3, 5] (dY = 2).
    let mut hy: HayashiYoshida<i64> = HayashiYoshida::new();
    let mut all = Vec::new();
    all.extend(ux(&mut hy, tick(0, 0)));
    all.extend(uy(&mut hy, tick(1, 0)));
    all.extend(uy(&mut hy, tick(3, 1)));
    all.extend(uy(&mut hy, tick(5, 3)));
    let last = ux(&mut hy, tick(10, 1));
    assert_eq!(last.len(), 2);
    all.extend(last);
    assert_eq!(sum(&all), 3);
    assert_eq!(hy.count(), 2);
    assert!(hy.covariance_ready().is_ok());
}

#[test]
fn hy_reports_overlapping_intervals() {
    let mut hy: HayashiYoshida<i64> = HayashiYoshida::new();
    ux(&mut hy, tick(0, 100));
    ux(&mut hy, tick(10, 104));
    uy(&mut hy, tick(5, 50));
    let os = uy(&mut hy, tick(15, 47));
    assert_eq!(os.len(), 1);
    let o = os[0];
    assert_eq!(o.x.start.ts, TimestampNs(0));
    assert_eq!(o.x.end.ts, TimestampNs(10));
    assert_eq!(o.y.start.ts, TimestampNs(5));
    assert_eq!(o.y.end.ts, TimestampNs(15));
    assert_eq!(product(&o), -12);
    assert_eq!(hy.count(), 1);
    // (15, 20] meets no pending x interval: (0, 10] was purged by the tick at 15.
    assert!(uy(&mut hy, tick(20, 48)).is_empty());
    // The new x interval (10, 25] overlaps both pending y intervals (5, 15] and (15, 20].
    let os2 = ux(&mut hy, tick(25, 103));
    assert_eq!(os2.len(), 2);
    assert_eq!(os2[0].y.start.ts, TimestampNs(5));
    assert_eq!(os2[1].y.start.ts, TimestampNs(15));
    assert_eq!(hy.count(), 3);
}

#[test]
fn hy_disjoint_intervals_do_not_count() {
    let mut hy: HayashiYoshida<i64> = HayashiYoshida::new();
    ux(&mut hy, tick(0, 1));
    ux(&mut hy, tick(10, 2));
    uy(&mut hy, tick(10, 3));
    assert!(uy(&mut hy, tick(20, 4)).is_empty());
    assert_eq!(hy.count(), 0);
}

#[test]
fn hy_series_are_symmetric() {
    let events = [(true, 0), (false, 2), (false, 4), (true, 7), (false, 9), (true, 12), (false, 15), (true, 16)];
    let mut a: HayashiYoshida<i64> = HayashiYoshida::new();
    let mut b: HayashiYoshida<i64> = HayashiYoshida::new();
    let mut oa = Vec::new();
    let mut ob = Vec::new();
    for (k, &(is_x, ts)) in events.iter().enumerate() {
        let t = tick(ts, (k as i64) * (k as i64));
        if is_x {
            oa.extend(ux(&mut a, t));
            ob.extend(uy(&mut b, t));
        } else {
            oa.extend(uy(&mut a, t));
            ob.extend(ux(&mut b, t));
        }
    }
    assert_eq!(oa.len(), ob.len());
    for (p, q) in oa.iter().zip(ob.iter()) {
        assert_eq!(p.x.start.ts, q.y.start.ts);
        assert_eq!(p.x.end.ts, q.y.end.ts);
        assert_eq!(p.y.start.ts, q.x.start.ts);
        assert_eq!(p.y.end.ts, q.x.end.ts);
    }
    assert_eq!(sum(&oa), sum(&ob));
    assert_eq!(a.count(), b.count());
}

#[test]
fn hy_pending_queue_is_bounded() {
    // Y advances far ahead in many short intervals, then one long X interval covers them:
    // only the latest PENDING_DEPTH intervals are still pending.
    let mut hy: HayashiYoshida<i64> = HayashiYoshida::new();
    ux(&mut hy, tick(0, 0));
    for k in 0..(PENDING_DEPTH as i64 + 11) {
        uy(&mut hy, tick(k + 1, 0));
    }
    let os = ux(&mut hy, tick(1_000, 1));
    assert_eq!(os.len(), PENDING_DEPTH);
    assert_eq!(os[0].y.start.ts, TimestampNs(11));
}

#[test]
fn hy_appends_to_the_caller_buffer() {
    let mut hy: HayashiYoshida<i64> = HayashiYoshida::new();
    let mut out = Vec::new();
    assert_eq!(hy.update_x(tick(0, 0), &mut out), 0);
    assert_eq!(hy.update_y(tick(2, 0), &mut out), 0);
    assert_eq!(hy.update_y(tick(4, 5), &mut out), 0);
    assert_eq!(hy.update_x(tick(6, 2), &mut out), 1);
    assert_eq!(out.len(), 1);
    // A second report is appended after the first; earlier contents stay.
    assert_eq!(hy.update_y(tick(8, 6), &mut out), 1);
    assert_eq!(out.len(), 2);
    assert_eq!(out[0].y.end.ts, TimestampNs(4));
    assert_eq!(out[1].y.end.ts, TimestampNs(8));
    assert_eq!(product(&out[0]), 10);
    assert_eq!(product(&out[1]), 2);
}

#[test]
fn hy_run_reports_each_overlapping_pair_once() {
    // Interleaved ticks, each series moving forward in time.
    let events: [(bool, i64); 14] = [
        (true, 0), (false, 1), (false, 3), (true, 4), (false, 6), (false, 7), (true, 9),
        (true, 12), (false, 13), (true, 14), (false, 20), (true, 21), (true, 25), (false, 26),
    ];
    let mut hy: HayashiYoshida<i64> = HayashiYoshida::new();
    let mut out = Vec::new();
    for &(is_x, ts) in events.iter() {
        if is_x {
            hy.update_x(tick(ts, 0), &mut out);
        } else {
            hy.update_y(tick(ts, 0), &mut out);
        }
    }
    let intervals = |want_x: bool| -> Vec<(i64, i64)> {
        let ts: Vec<i64> = events.iter().filter(|e| e.0 == want_x).map(|e| e.1).collect();
        ts.windows(2).map(|w| (w[0], w[1])).collect()
    };
    let mut expected = Vec::new();
    for &(xs, xe) in intervals(true).iter() {
        for &(ys, ye) in intervals(false).iter() {
            if xe.min(ye) > xs.max(ys) {
                expected.push((xs, xe, ys, ye));
            }
        }
    }
    let mut reported: Vec<(i64, i64, i64, i64)> =
        out.iter().map(|o| (o.x.start.ts.0, o.x.end.ts.0, o.y.start.ts.0, o.y.end.ts.0)).collect();
    reported.sort();
    expected.sort();
    assert_eq!(reported, expected);
    assert_eq!(hy.count() as usize, expected.len());
}
