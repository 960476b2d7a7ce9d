use backtest::stream_data::timers::{DeltaTimer, Timer};

#[test]
fn test_delta_timer() {
    let mut timer = DeltaTimer::new(0, 10, 1);
    timer.cycle();
    assert!(timer.get_time() == Some(1u64));
}

#[test]
fn timer_runs_out_after_end() {
    let mut timer = DeltaTimer::new(5, 20, 5);
    let mut seen = Vec::new();
    while let Some(t) = timer.get_time() {
        seen.push(t);
        timer.cycle();
    }
    assert_eq!(seen, vec![5, 10, 15, 20]);
    assert_eq!(timer.get_time(), None);
}

#[test]
fn timer_that_starts_after_its_end_is_expired() {
    let timer = DeltaTimer::new(10, 5, 1);
    assert_eq!(timer.get_time(), None);
}

#[test]
fn k_cycles_add_k_steps() {
    for k in 0..8u64 {
        let mut timer = DeltaTimer::new(3, 20, 4);
        for _ in 0..k {
            timer.cycle();
        }
        let t = 3 + 4 * k;
        assert_eq!(timer.get_time(), if t <= 20 { Some(t) } else { None });
    }
}

#[test]
fn expired_timer_stays_expired() {
    let mut timer = DeltaTimer::new(0, 4, 5);
    timer.cycle();
    assert_eq!(timer.get_time(), None);
    for _ in 0..10 {
        timer.cycle();
        assert_eq!(timer.get_time(), None);
    }
    assert!(timer.cycle_in_range());
    let mut edge = DeltaTimer::new(u64::MAX - 1, u64::MAX, 1);
    edge.cycle();
    assert_eq!(edge.get_time(), Some(u64::MAX));
    assert!(!edge.cycle_in_range());
}
