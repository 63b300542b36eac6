use vl53l5cx::ranging_flock::{FlockStep, Instant, RangingFlock};
use vl53l5cx::results_data::{RawResults, TempC};

/// A 4x4, one-target cycle whose first distance marks where it came from.
fn cycle(mark: i16, temp: i8) -> RawResults {
    RawResults {
        silicon_temp_degc: temp,
        ambient_per_spad: vec![0; 16],
        nb_target_detected: vec![1; 16],
        nb_spads_enabled: vec![0; 16],
        target_status: vec![5; 16],
        distance_mm: {
            let mut d = vec![0i16; 16];
            d[0] = mark;
            d
        },
        range_sigma_mm: vec![0; 16],
        reflectance: vec![0; 16],
        signal_per_spad: vec![0; 16],
    }
}

fn at(ticks: u64) -> Instant {
    Instant { ticks }
}

fn expect_check<const N: usize>(flock: &mut RangingFlock<N, 4, 1>, sensor: usize) {
    match flock.next_step() {
        FlockStep::Check(i) => assert_eq!(i, sensor),
        other => panic!("expected a check of sensor {}, got {:?}", sensor, other),
    }
}

fn expect_delivery<const N: usize>(flock: &mut RangingFlock<N, 4, 1>) -> (usize, u16, TempC, Instant) {
    match flock.next_step() {
        FlockStep::Deliver((i, data, temp, stamp)) => (i, data.distance_mm[0][0][0], temp, stamp),
        other => panic!("expected a delivery, got {:?}", other),
    }
}

fn expect_wait<const N: usize>(flock: &mut RangingFlock<N, 4, 1>) {
    assert!(matches!(flock.next_step(), FlockStep::Wait));
}

/// One call with nobody ready: every sensor is checked, highest first.
fn quiet_scan<const N: usize>(flock: &mut RangingFlock<N, 4, 1>) {
    flock.begin_scan();
    for i in (0..N).rev() {
        expect_check(flock, i);
        flock.record_not_ready();
    }
}

#[test]
fn scan_checks_every_sensor_highest_first() {
    let mut flock = RangingFlock::<3, 4, 1>::new();
    quiet_scan(&mut flock);
    expect_wait(&mut flock);
}

#[test]
fn later_pushed_is_delivered_first() {
    // Sensor 2 is ready, then sensor 0; no result is drained in between.
    let mut flock = RangingFlock::<3, 4, 1>::new();
    flock.begin_scan();
    expect_check(&mut flock, 2);
    assert!(flock.record_ready(&cycle(222, 20), at(100)));
    expect_check(&mut flock, 1);
    flock.record_not_ready();
    expect_check(&mut flock, 0);
    assert!(flock.record_ready(&cycle(0, 21), at(105)));
    assert_eq!(flock.pending_len(), 2);
    let first = expect_delivery(&mut flock);
    assert_eq!(first, (0, 0, TempC(21), at(105)));

    quiet_scan(&mut flock);
    let second = expect_delivery(&mut flock);
    assert_eq!(second, (2, 222, TempC(20), at(100)));

    quiet_scan(&mut flock);
    expect_wait(&mut flock);
}

#[test]
fn time_stamp_is_the_one_taken_at_readiness() {
    let mut flock = RangingFlock::<2, 4, 1>::new();
    flock.begin_scan();
    expect_check(&mut flock, 1);
    assert!(flock.record_ready(&cycle(7, 19), at(5_000)));
    expect_check(&mut flock, 0);
    flock.record_not_ready();
    let (sensor, mark, _, stamp) = expect_delivery(&mut flock);
    assert_eq!((sensor, mark), (1, 7));
    assert_eq!(stamp, at(5_000));
}

#[test]
fn all_ready_at_once() {
    const N: usize = 4;
    let mut flock = RangingFlock::<N, 4, 1>::new();
    flock.begin_scan();
    for i in (0..N).rev() {
        expect_check(&mut flock, i);
        assert!(flock.record_ready(&cycle(100 + i as i16, 25), at(10 * (N - i) as u64)));
    }
    assert_eq!(flock.pending_len(), N);
    let mut delivered = Vec::new();
    delivered.push(expect_delivery(&mut flock).0);
    for _ in 1..N {
        quiet_scan(&mut flock);
        delivered.push(expect_delivery(&mut flock).0);
    }
    assert_eq!(delivered, vec![0, 1, 2, 3]);
    quiet_scan(&mut flock);
    expect_wait(&mut flock);
}

#[test]
fn full_queue_leaves_result_out() {
    let mut flock = RangingFlock::<2, 4, 1>::new();
    flock.begin_scan();
    expect_check(&mut flock, 1);
    assert!(flock.record_ready(&cycle(1, 20), at(1)));
    expect_check(&mut flock, 0);
    assert!(flock.record_ready(&cycle(2, 20), at(2)));
    flock.begin_scan();
    expect_check(&mut flock, 1);
    assert!(!flock.record_ready(&cycle(3, 20), at(3)));
    assert_eq!(flock.pending_len(), 2);
    expect_check(&mut flock, 0);
}

#[test]
fn report_outside_a_scan_changes_nothing() {
    let mut flock = RangingFlock::<2, 4, 1>::new();
    assert!(!flock.record_ready(&cycle(1, 20), at(1)));
    flock.record_not_ready();
    assert_eq!(flock.pending_len(), 0);
    expect_wait(&mut flock);
}

#[test]
fn stop_returns_undelivered() {
    let mut flock = RangingFlock::<3, 4, 1>::new();
    flock.begin_scan();
    expect_check(&mut flock, 2);
    assert!(flock.record_ready(&cycle(2, 20), at(1)));
    expect_check(&mut flock, 1);
    assert!(flock.record_ready(&cycle(1, 20), at(2)));
    let left = flock.stop();
    assert_eq!(left.len(), 2);
    assert_eq!(left[0].0, 2);
    assert_eq!(left[1].0, 1);
}
