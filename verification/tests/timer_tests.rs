use pomodoro::timer::{PomodoroMode, Timer, TimerStatus};

#[test]
fn new_timer_is_paused_and_full() {
    let t = Timer::new(1500, PomodoroMode::Pomodoro);
    assert_eq!(t.time_remaining, 1500);
    assert_eq!(t.total_time, 1500);
    assert_eq!(t.percentage, 0);
    assert!(t.status == TimerStatus::Paused);
    assert!(t.pomodoro_mode == PomodoroMode::Pomodoro);
}

#[test]
fn percentage_stays_in_range_and_grows() {
    let mut t = Timer::new(4, PomodoroMode::Pomodoro);
    let mut last = t.percentage;
    while t.time_remaining != 0 {
        t.tick();
        assert!(t.percentage <= 100);
        assert!(t.percentage >= last);
        last = t.percentage;
    }
    assert_eq!(t.percentage, 100);
}

#[test]
fn percentage_is_rounded_to_nearest() {
    let mut t = Timer::new(4, PomodoroMode::Pomodoro);
    t.tick();
    assert_eq!(t.percentage, 25);
    t.tick();
    assert_eq!(t.percentage, 50);
    t.tick();
    assert_eq!(t.percentage, 75);
}

#[test]
fn tick_at_one_reaches_zero() {
    let mut t = Timer::new(1, PomodoroMode::ShortBreak);
    t.tick();
    assert_eq!(t.time_remaining, 0);
    assert_eq!(t.percentage, 100);
}

#[test]
fn pause_and_unpause_set_status() {
    let mut t = Timer::new(60, PomodoroMode::LongBreak);
    t.unpause();
    assert!(t.status == TimerStatus::Playing);
    t.unpause();
    assert!(t.status == TimerStatus::Playing);
    t.pause();
    assert!(t.status == TimerStatus::Paused);
    t.pause();
    assert!(t.status == TimerStatus::Paused);
}

#[test]
fn mm_ss_pads_to_two_digits() {
    let t = Timer::new(1500, PomodoroMode::Pomodoro);
    assert_eq!(t.mm_ss(), "25:00");
}

#[test]
fn mm_ss_wraps_minutes_at_an_hour() {
    let t = Timer::new(3661, PomodoroMode::Pomodoro);
    assert_eq!(t.mm_ss(), "01:01");
}

#[test]
fn hh_mm_ss_splits_hours_and_pads() {
    let t = Timer::new(3661, PomodoroMode::Pomodoro);
    assert_eq!(t.hh_mm_ss(), "1:01:01");
}

#[test]
fn hh_mm_ss_counts_whole_hours() {
    let t = Timer::new(24 * 60 * 60, PomodoroMode::Pomodoro);
    assert_eq!(t.hh_mm_ss(), "24:00:00");
}

#[test]
fn mm_ss_just_under_an_hour() {
    let t = Timer::new(3599, PomodoroMode::Pomodoro);
    assert_eq!(t.mm_ss(), "59:59");
}

#[test]
fn hh_mm_ss_of_zero() {
    let t = Timer::new(0, PomodoroMode::Pomodoro);
    assert_eq!(t.hh_mm_ss(), "0:00:00");
    assert_eq!(t.mm_ss(), "00:00");
}

#[test]
fn mode_labels() {
    assert_eq!(PomodoroMode::Pomodoro.label(), "Pomodoro");
    assert_eq!(PomodoroMode::ShortBreak.label(), "Short Break");
    assert_eq!(PomodoroMode::LongBreak.label(), "Long Break");
}
