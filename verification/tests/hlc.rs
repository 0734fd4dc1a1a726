use std::cmp::Ordering;

use actant::runtime::state::hlc;
use actant::store::hlc::{HlcTimestamp, HybridLogicalClock};

#[test]
fn tick_is_monotonic() {
    let mut hlc = HybridLogicalClock::new();
    let t1 = hlc.tick();
    let t2 = hlc.tick();
    assert!(t2 > t1);
}

#[test]
fn merge_is_monotonic() {
    let mut hlc = HybridLogicalClock::new();
    let t1 = hlc.tick();
    let remote = HlcTimestamp::from_parts(t1.wall_time() + 1000, 5);
    let t2 = hlc.merge(&remote);
    assert!(t2.wall_time() >= remote.wall_time());
    let t3 = hlc.tick();
    assert!(t3 > t2);
}

#[test]
fn merge_caps_excessive_drift() {
    let mut hlc = HybridLogicalClock::new();
    let max_drift_nanos = 500_000_000;
    let t1 = hlc.tick();
    let far_future = HlcTimestamp::from_parts(t1.wall_time() + max_drift_nanos + 1_000_000_000, 0);
    let t2 = hlc.merge(&far_future);
    assert!(t2.wall_time() < far_future.wall_time());
    assert!(t2.wall_time() >= t1.wall_time());
    let t3 = hlc.tick();
    assert!(t3 > t2);
}

#[test]
fn zero_is_minimum() {
    let zero = HlcTimestamp::zero();
    assert_eq!(zero.wall_time(), 0);
    assert_eq!(zero.logical(), 0);
    let positive = HlcTimestamp::from_parts(1, 0);
    assert!(zero < positive);
    assert!(zero <= positive);
}

#[test]
fn ordering_wall_time_dominates() {
    let a = HlcTimestamp::from_parts(100, 99);
    let b = HlcTimestamp::from_parts(200, 0);
    assert!(a < b);
    assert!(b > a);
}

#[test]
fn ordering_logical_ties_wall_time() {
    let a = HlcTimestamp::from_parts(100, 1);
    let b = HlcTimestamp::from_parts(100, 2);
    assert!(a < b);
    assert_eq!(a.cmp(&a.clone()), Ordering::Equal);
}

#[test]
fn from_parts_round_trips() {
    let ts = HlcTimestamp::from_parts(1_700_000_000_000, 42);
    assert_eq!(ts.wall_time(), 1_700_000_000_000);
    assert_eq!(ts.logical(), 42);
    let rebuilt = HlcTimestamp::from_parts(ts.wall_time(), ts.logical());
    assert_eq!(ts, rebuilt);
}

#[test]
fn merge_older_remote_uses_local_physical() {
    let mut hlc = HybridLogicalClock::new();
    let local = hlc.tick();
    let older = HlcTimestamp::from_parts(local.wall_time().saturating_sub(1_000_000), 10);
    let merged = hlc.merge(&older);
    assert!(merged.wall_time() >= local.wall_time());
}

#[test]
fn merge_equal_wall_time_advances_logical() {
    let mut hlc = HybridLogicalClock::new();
    let local = hlc.tick();
    let remote_same_wall = HlcTimestamp::from_parts(local.wall_time(), local.logical() + 5);
    let merged = hlc.merge(&remote_same_wall);
    assert!(merged > local);
    assert!(merged > remote_same_wall);
}

#[test]
fn merge_preserves_monotonicity_across_many_ticks() {
    let mut hlc = HybridLogicalClock::new();
    let mut prev = hlc.tick();
    for _ in 0..50 {
        let remote = HlcTimestamp::from_parts(prev.wall_time() + 1_000, prev.logical());
        let merged = hlc.merge(&remote);
        assert!(merged > prev);
        let ticked = hlc.tick();
        assert!(ticked > merged);
        prev = ticked;
    }
}

#[test]
fn default_matches_new() {
    let mut a = HybridLogicalClock::default();
    let mut b = HybridLogicalClock::new();
    let ta = a.tick();
    let tb = b.tick();
    assert!(ta.wall_time() > 0);
    assert!(tb.wall_time() > 0);
}

#[test]
fn with_max_drift_ms_zero_caps_at_physical() {
    let mut hlc = HybridLogicalClock::with_max_drift_ms(0);
    let local = hlc.tick();
    let far_future = HlcTimestamp::from_parts(local.wall_time() + 10_000_000_000, 0);
    let merged = hlc.merge(&far_future);
    assert!(merged.wall_time() <= local.wall_time() + 1_000_000);
}

#[test]
fn rkyv_round_trip() {
    let ts = HlcTimestamp::from_parts(1_700_000_000_654_321, 99);
    let bytes = ts.to_archived().expect("rkyv serialize");
    let decoded = HlcTimestamp::from_archived(&bytes).expect("rkyv deserialize");
    assert_eq!(ts, decoded);
}

fn assert_advances(last: &mut Option<HlcTimestamp>, next: HlcTimestamp) {
    if let Some(prev) = *last {
        assert!(next > prev);
    }
    *last = Some(next);
}

#[test]
fn physical_dominant_resets_logical() {
    let mut clock = hlc::HybridLogicalClock::new();
    let stale = HlcTimestamp::from_parts(1, 999);
    let t = clock.merge(&stale);
    assert_eq!(t.logical(), 0);
    assert!(t.wall_time() > 1);
}

fn now() -> u64 {
    hlc::HybridLogicalClock::new().tick().wall_time()
}

#[test]
fn tie_with_remote_takes_max_plus_one() {
    let now = now();
    let mut clock = hlc::HybridLogicalClock::with_max_drift_ms(u64::MAX / 4_000_000);
    let future_wall = now + 1_000_000_000_000;
    let remote = HlcTimestamp::from_parts(future_wall, 7);
    let t1 = clock.merge(&remote);
    assert_eq!(t1.wall_time(), future_wall);
    assert_eq!(t1.logical(), 8);

    let t2 = clock.merge(&HlcTimestamp::from_parts(future_wall, 3));
    assert_eq!(t2.wall_time(), future_wall);
    assert_eq!(t2.logical(), 9);
}

#[test]
fn merge_after_drift_cap_is_monotonic() {
    let now = now();
    let mut clock = hlc::HybridLogicalClock::with_max_drift_ms(500);
    let future = HlcTimestamp::from_parts(now + 10_000_000_000, 0);
    let mut last = Some(clock.merge(&future));
    for i in 0..100u32 {
        let stale = HlcTimestamp::from_parts(now + i as u64, 0);
        let t = clock.merge(&stale);
        assert_advances(&mut last, t);
    }
}

#[test]
fn merge_stale_remotes_never_regress() {
    let now = now();
    let mut clock = hlc::HybridLogicalClock::with_max_drift_ms(500);
    let mut last = None;
    let inputs = [
        HlcTimestamp::from_parts(now + 100, 5),
        HlcTimestamp::from_parts(now, 0),
        HlcTimestamp::from_parts(now + 100, 50),
        HlcTimestamp::from_parts(now.saturating_sub(1_000_000), 3),
        HlcTimestamp::from_parts(now + 10_000_000_000, 1),
        HlcTimestamp::from_parts(now + 100, 1),
        HlcTimestamp::from_parts(now + 100, 200),
        HlcTimestamp::from_parts(now, 1),
    ];
    for remote in inputs {
        let t = clock.merge(&remote);
        assert_advances(&mut last, t);
    }
}

#[test]
fn tick_after_merge_is_monotonic() {
    let mut clock = hlc::HybridLogicalClock::new();
    let mut last = None;
    for i in 0..50u32 {
        let remote_wall = now() + (i % 3) as u64 * 1_000;
        let t = clock.merge(&HlcTimestamp::from_parts(remote_wall, i));
        assert_advances(&mut last, t);
        let t = clock.tick();
        assert_advances(&mut last, t);
    }
}

#[test]
fn clock_follows_given_times() {
    let mut clock = hlc::HybridLogicalClock::with_max_drift_ms(1);
    assert_eq!(clock.tick_at(10), HlcTimestamp::from_parts(10, 0));
    assert_eq!(clock.tick_at(10), HlcTimestamp::from_parts(10, 1));
    assert_eq!(clock.tick_at(9), HlcTimestamp::from_parts(10, 2));
    let far = HlcTimestamp::from_parts(5_000_000, 4);
    assert_eq!(clock.merge_at(&far, 20), HlcTimestamp::from_parts(1_000_020, 5));
    let same = HlcTimestamp::from_parts(1_000_020, 9);
    assert_eq!(clock.merge_at(&same, 30), HlcTimestamp::from_parts(1_000_020, 10));
    let old = HlcTimestamp::from_parts(1, 50);
    assert_eq!(clock.merge_at(&old, 40), HlcTimestamp::from_parts(1_000_020, 11));
    assert_eq!(clock.merge_at(&old, 2_000_000), HlcTimestamp::from_parts(2_000_000, 0));
}

#[test]
fn store_clock_follows_given_times() {
    let mut clock = HybridLogicalClock::with_max_drift_ms(1);
    assert_eq!(clock.tick_at(10), HlcTimestamp::from_parts(10, 0));
    let same = HlcTimestamp::from_parts(20, 3);
    assert_eq!(clock.merge_at(&same, 20), HlcTimestamp::from_parts(20, 4));
    let ahead = HlcTimestamp::from_parts(30, 7);
    assert_eq!(clock.merge_at(&ahead, 25), HlcTimestamp::from_parts(30, 8));
    let old = HlcTimestamp::from_parts(1, 7);
    assert_eq!(clock.merge_at(&old, 26), HlcTimestamp::from_parts(30, 9));
    let behind = HlcTimestamp::from_parts(30, 2);
    assert_eq!(clock.merge_at(&behind, 27), HlcTimestamp::from_parts(30, 10));
    assert_eq!(clock.merge_at(&old, 40), HlcTimestamp::from_parts(40, 11));
}

#[test]
fn archived_bytes_are_checked() {
    assert!(HlcTimestamp::from_archived(&vec![1, 2, 3]).is_none());
}

#[test]
fn physical_now_nanos_precision() {
    // A clock that has seen nothing yet shows the machine's time.
    let t1 = HybridLogicalClock::new().tick().wall_time();
    let t2 = HybridLogicalClock::new().tick().wall_time();
    assert!(t2 >= t1);
    assert!(t1 > 0);
}
