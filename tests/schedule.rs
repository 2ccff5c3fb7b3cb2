use ssr_engine::schedule::{
    next_state, sleep_duration, tick_period, SchedulerState, TickRateMeter, NANOS_PER_SECOND, TICKS_PER_SECOND,
};

#[test]
fn tick_period_at_sixty_hertz() {
    assert_eq!(tick_period(TICKS_PER_SECOND), 16_666_666);
    assert_eq!(tick_period(1), NANOS_PER_SECOND);
}

#[test]
fn sleep_fills_the_rest_of_the_period() {
    assert_eq!(sleep_duration(16_666_666, 1_000_000), 15_666_666);
    assert_eq!(sleep_duration(16_666_666, 0), 16_666_666);
}

#[test]
fn overrun_skips_the_sleep() {
    assert_eq!(sleep_duration(16_666_666, 16_666_666), 0);
    assert_eq!(sleep_duration(16_666_666, 40_000_000), 0);
}

#[test]
fn sixty_quick_ticks_take_about_a_second() {
    let period = tick_period(60);
    let mut clock: u64 = 0;
    for _ in 0..60 {
        let work = 1_000;
        clock += work;
        clock += sleep_duration(period, work);
    }
    assert_eq!(clock, 999_999_960);
    let error = (clock as f64 - 1e9).abs() / 1e9;
    assert!(error <= 0.05);
}

#[test]
fn slow_ticks_are_not_caught_up() {
    let period = tick_period(60);
    let mut clock: u64 = 0;
    for _ in 0..10 {
        let work = 20_000_000;
        clock += work + sleep_duration(period, work);
    }
    assert_eq!(clock, 200_000_000);
}

#[test]
fn meter_reports_once_a_second() {
    let mut m = TickRateMeter::new(0);
    for i in 1..60u64 {
        assert_eq!(m.record(i * 16_666_666), None);
    }
    assert_eq!(m.ticks, 59);
    assert_eq!(m.record(NANOS_PER_SECOND), Some(60));
    assert_eq!(m.ticks, 0);
    assert_eq!(m.window_start, NANOS_PER_SECOND);
    assert_eq!(m.record(NANOS_PER_SECOND + 5), None);
    assert_eq!(m.ticks, 1);
}

#[test]
fn meter_ignores_a_clock_that_goes_back() {
    let mut m = TickRateMeter::new(5 * NANOS_PER_SECOND);
    assert_eq!(m.record(0), None);
    assert_eq!(m.ticks, 1);
}

#[test]
fn closure_stops_the_scheduler() {
    assert_eq!(next_state(SchedulerState::Running, false), SchedulerState::Running);
    assert_eq!(next_state(SchedulerState::Running, true), SchedulerState::Stopped);
    assert_eq!(next_state(SchedulerState::Stopped, false), SchedulerState::Stopped);
}
