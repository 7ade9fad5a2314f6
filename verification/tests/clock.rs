use ltntstools::clock::{Clock, ClockState};
use ltntstools::Error;

fn basic_clocks_init(clk: &mut Clock, now_us: i64) {
    clk.initialize();
    clk.establish_timebase(90000).unwrap();
    clk.establish_wallclock(1500, now_us).unwrap();

    if !clk.is_established_timebase() {
        panic!("Clock has no established timebase");
    } else {
        println!("Clock has effective established timebase");
    }

    if !clk.is_established_wallclock() {
        panic!("Clock has no established wallclock");
    } else {
        println!("Clock has effective established wallclock");
    }
}

#[test]
fn test_basic_clocks() {
    let mut clk = Clock::new();
    let started_us: i64 = 1_700_000_000_000_000;

    basic_clocks_init(&mut clk, started_us);

    /* 32 ms later */
    let now_us = started_us + 32 * 1000;

    /* Update the ticks and check we drifted -15ms from normality. */
    clk.set_ticks(3000);
    let ms = clk.drift_ms(now_us).unwrap();

    assert_eq!(ms, -15, "Clock drifted by some value other than -15ms");
}

#[test]
fn drift_in_microseconds_is_exact() {
    let mut clk = Clock::new();
    clk.establish_timebase(90000).unwrap();
    clk.establish_wallclock(1500, 0).unwrap();
    clk.set_ticks(3000);
    assert_eq!(clk.drift_us(32_000), Ok(16_666 - 32_000));
    assert_eq!(clk.drift_us(0), Ok(16_666));
    assert_eq!(clk.drift_ms(0), Ok(16));
}

#[test]
fn ticks_that_keep_pace_do_not_drift() {
    let mut clk = Clock::new();
    clk.establish_timebase(90000).unwrap();
    clk.establish_wallclock(1500, 500).unwrap();
    clk.set_ticks(1500 + 90 * 40);
    assert_eq!(clk.drift_ms(500 + 40_000), Ok(0));
    assert_eq!(clk.drift_us(500 + 40_000), Ok(0));
}

#[test]
fn lagging_ticks_drift_by_the_lag() {
    for lag_ms in [0i64, 1, 7, 15, 250] {
        let mut clk = Clock::new();
        clk.establish_timebase(27_000_000).unwrap();
        clk.establish_wallclock(1_000, 10).unwrap();
        let passed_ms: i64 = 400;
        clk.set_ticks(1_000 + 27_000 * (passed_ms - lag_ms));
        assert_eq!(clk.drift_ms(10 + passed_ms * 1000), Ok(-lag_ms));
    }
}

#[test]
fn ticks_ahead_drift_forward_and_backward_ticks_round_to_zero() {
    let mut clk = Clock::new();
    clk.establish_timebase(1000).unwrap();
    clk.establish_wallclock(0, 0).unwrap();
    clk.set_ticks(100);
    assert_eq!(clk.drift_ms(0), Ok(100));
    clk.set_ticks(-1);
    assert_eq!(clk.drift_us(0), Ok(-1000));
    let mut slow = Clock::new();
    slow.establish_timebase(3).unwrap();
    slow.establish_wallclock(0, 0).unwrap();
    slow.set_ticks(-1);
    assert_eq!(slow.drift_us(0), Ok(-333_333));
    assert_eq!(slow.drift_ms(0), Ok(-333));
    assert_eq!(slow.drift_ms(999), Ok(-334));
}

#[test]
fn the_states_follow_the_calls() {
    let mut clk = Clock::new();
    assert_eq!(clk.state(), ClockState::Uninitialized);
    assert!(!clk.is_established_timebase());
    assert!(!clk.is_established_wallclock());
    clk.establish_timebase(90000).unwrap();
    assert_eq!(clk.state(), ClockState::TimebaseEstablished);
    assert!(clk.is_established_timebase());
    assert!(!clk.is_established_wallclock());
    clk.establish_wallclock(7, 9).unwrap();
    assert_eq!(clk.state(), ClockState::WallclockEstablished);
    assert_eq!(clk.ticks(), 7);
    clk.initialize();
    assert_eq!(clk.state(), ClockState::Uninitialized);
    assert_eq!(clk.ticks(), 0);
}

#[test]
fn usage_errors_are_reported_and_change_nothing() {
    let mut clk = Clock::new();
    assert_eq!(clk.drift_ms(0), Err(Error::NotEstablished));
    assert_eq!(clk.drift_us(0), Err(Error::NotEstablished));
    assert_eq!(clk.establish_wallclock(1, 2), Err(Error::NotEstablished));
    assert_eq!(clk.state(), ClockState::Uninitialized);
    assert_eq!(clk.establish_timebase(0), Err(Error::InvalidRate));
    assert_eq!(clk.establish_timebase(-5), Err(Error::InvalidRate));
    assert_eq!(clk.state(), ClockState::Uninitialized);
    clk.establish_timebase(90000).unwrap();
    assert_eq!(clk.drift_ms(0), Err(Error::NotEstablished));
    assert_eq!(clk.establish_timebase(0), Err(Error::InvalidRate));
    assert_eq!(clk.state(), ClockState::TimebaseEstablished);
}

#[test]
fn a_drift_beyond_the_result_is_refused() {
    let mut clk = Clock::new();
    clk.establish_timebase(1).unwrap();
    clk.establish_wallclock(i64::MIN, 0).unwrap();
    clk.set_ticks(i64::MAX);
    assert_eq!(clk.drift_us(0), Err(Error::OutOfRange));
    assert_eq!(clk.drift_ms(0), Err(Error::OutOfRange));
    let mut wide = Clock::new();
    wide.establish_timebase(1_000_000).unwrap();
    wide.establish_wallclock(0, i64::MIN).unwrap();
    assert_eq!(wide.drift_us(i64::MAX), Err(Error::OutOfRange));
    assert_eq!(wide.drift_ms(i64::MAX), Ok(-18_446_744_073_709_551));
}
