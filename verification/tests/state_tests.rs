use pomodoro::state::{action_for_key, Action, AppState, Args, Control, KeyInput, StudyMode};
use pomodoro::task::Task;
use pomodoro::timer::{PomodoroMode, TimerStatus};

fn args() -> Args {
    Args {
        pomodoro_time: 25,
        short_break_time: 5,
        long_break_time: 15,
        task_file_path: String::from("tasks"),
        focus_mode: String::from("false"),
    }
}

fn task(title: &str, expected: u16, completed_count: u16, done: bool) -> Task {
    Task {
        title: String::from(title),
        pomodoros_expected: expected,
        pomodoros_completed: completed_count,
        completed: done,
    }
}

#[test]
fn new_state_starts_paused_pomodoro() {
    let s = AppState::new(&args(), vec![]);
    assert_eq!(s.timer.total_time, 25 * 60);
    assert_eq!(s.timer.time_remaining, 25 * 60);
    assert_eq!(s.timer.percentage, 0);
    assert!(s.timer.status == TimerStatus::Paused);
    assert!(s.timer.pomodoro_mode == PomodoroMode::Pomodoro);
    assert!(s.study_mode == StudyMode::Normal);
    assert_eq!(s.tasks.selected(), None);
    assert!(!s.show_help_menu);
}

#[test]
fn focus_mode_flag_starts_zen() {
    let mut a = args();
    a.focus_mode = String::from("true");
    assert!(AppState::new(&a, vec![]).study_mode == StudyMode::Zen);
    a.focus_mode = String::from("TRUE");
    assert!(AppState::new(&a, vec![]).study_mode == StudyMode::Zen);
    a.focus_mode = String::from("yes");
    assert!(AppState::new(&a, vec![]).study_mode == StudyMode::Normal);
}

#[test]
fn key_bindings_match_the_table() {
    assert!(action_for_key(KeyInput::Char(' ')) == Action::TogglePause);
    assert!(action_for_key(KeyInput::Char('r')) == Action::ResetTimer);
    assert!(action_for_key(KeyInput::Char('f')) == Action::ToggleStudyMode);
    assert!(action_for_key(KeyInput::Char('k')) == Action::ListPrevious);
    assert!(action_for_key(KeyInput::Up) == Action::ListPrevious);
    assert!(action_for_key(KeyInput::Char('j')) == Action::ListNext);
    assert!(action_for_key(KeyInput::Down) == Action::ListNext);
    assert!(action_for_key(KeyInput::Enter) == Action::ToggleTaskComplete);
    assert!(action_for_key(KeyInput::Char('+')) == Action::IncrementPomodoro);
    assert!(action_for_key(KeyInput::Char('-')) == Action::DecrementPomodoro);
    assert!(action_for_key(KeyInput::Char('S')) == Action::SaveTasks);
    assert!(action_for_key(KeyInput::Char('p')) == Action::SwitchMode(PomodoroMode::Pomodoro));
    assert!(action_for_key(KeyInput::Char('s')) == Action::SwitchMode(PomodoroMode::ShortBreak));
    assert!(action_for_key(KeyInput::Char('l')) == Action::SwitchMode(PomodoroMode::LongBreak));
    assert!(action_for_key(KeyInput::Char('?')) == Action::ToggleHelp);
    assert!(action_for_key(KeyInput::Char('q')) == Action::Quit);
    assert!(action_for_key(KeyInput::Char('x')) == Action::NoOp);
    assert!(action_for_key(KeyInput::Other) == Action::NoOp);
}

#[test]
fn switch_mode_discards_progress() {
    let a = args();
    let mut s = AppState::new(&a, vec![]);
    assert_eq!(s.timer.total_time, 1500);
    s.dispatch(Action::TogglePause, &a);
    s.on_tick();
    s.on_tick();
    assert_eq!(s.timer.time_remaining, 1498);
    let c = s.dispatch(Action::SwitchMode(PomodoroMode::ShortBreak), &a);
    assert!(c == Control::Continue);
    assert_eq!(s.timer.total_time, 300);
    assert_eq!(s.timer.time_remaining, 300);
    assert_eq!(s.timer.percentage, 0);
    assert!(s.timer.status == TimerStatus::Paused);
    assert!(s.timer.pomodoro_mode == PomodoroMode::ShortBreak);
}

#[test]
fn reset_uses_the_current_mode() {
    let a = args();
    let mut s = AppState::new(&a, vec![]);
    s.dispatch(Action::SwitchMode(PomodoroMode::LongBreak), &a);
    s.dispatch(Action::TogglePause, &a);
    s.on_tick();
    assert_eq!(s.timer.time_remaining, 15 * 60 - 1);
    s.dispatch(Action::ResetTimer, &a);
    assert_eq!(s.timer.time_remaining, 15 * 60);
    assert!(s.timer.pomodoro_mode == PomodoroMode::LongBreak);
    assert!(s.timer.status == TimerStatus::Paused);
}

#[test]
fn toggle_pause_flips_both_ways() {
    let a = args();
    let mut s = AppState::new(&a, vec![]);
    s.dispatch(Action::TogglePause, &a);
    assert!(s.timer.status == TimerStatus::Playing);
    s.dispatch(Action::TogglePause, &a);
    assert!(s.timer.status == TimerStatus::Paused);
}

#[test]
fn paused_timer_ignores_ticks() {
    let a = args();
    let mut s = AppState::new(&a, vec![]);
    s.on_tick();
    assert_eq!(s.timer.time_remaining, 1500);
}

#[test]
fn expired_timer_is_never_ticked_again() {
    let a = Args { pomodoro_time: 0, ..args() };
    let mut s = AppState::new(&a, vec![]);
    s.dispatch(Action::TogglePause, &a);
    assert_eq!(s.timer.time_remaining, 0);
    s.on_tick();
    s.on_tick();
    assert_eq!(s.timer.time_remaining, 0);
}

#[test]
fn task_keys_touch_only_the_selected_task() {
    let a = args();
    let mut s = AppState::new(&a, vec![task("one", 1, 0, false), task("two", 2, 0, false)]);
    s.dispatch(Action::ToggleTaskComplete, &a);
    assert!(!s.tasks.items[0].completed && !s.tasks.items[1].completed);
    s.dispatch(Action::ListNext, &a);
    s.dispatch(Action::ListNext, &a);
    assert_eq!(s.tasks.selected(), Some(1));
    s.dispatch(Action::ToggleTaskComplete, &a);
    assert!(!s.tasks.items[0].completed && s.tasks.items[1].completed);
    s.dispatch(Action::IncrementPomodoro, &a);
    assert_eq!(s.tasks.items[0].pomodoros_completed, 0);
    assert_eq!(s.tasks.items[1].pomodoros_completed, 1);
    s.dispatch(Action::DecrementPomodoro, &a);
    s.dispatch(Action::DecrementPomodoro, &a);
    assert_eq!(s.tasks.items[1].pomodoros_completed, 0);
}

#[test]
fn increment_at_full_counter_is_noop() {
    let a = args();
    let mut s = AppState::new(&a, vec![task("full", 1, u16::MAX, false)]);
    s.dispatch(Action::ListNext, &a);
    s.dispatch(Action::IncrementPomodoro, &a);
    assert_eq!(s.tasks.items[0].pomodoros_completed, u16::MAX);
}

#[test]
fn save_and_quit_signal_the_loop() {
    let a = args();
    let mut s = AppState::new(&a, vec![]);
    assert!(s.dispatch(Action::SaveTasks, &a) == Control::Save);
    assert!(s.dispatch(Action::Quit, &a) == Control::Quit);
    assert!(s.dispatch(Action::NoOp, &a) == Control::Continue);
}

#[test]
fn study_mode_and_help_toggles() {
    let a = args();
    let mut s = AppState::new(&a, vec![]);
    s.dispatch(Action::ToggleStudyMode, &a);
    assert!(s.study_mode == StudyMode::Zen);
    s.dispatch(Action::ToggleStudyMode, &a);
    assert!(s.study_mode == StudyMode::Normal);
    s.dispatch(Action::ToggleHelp, &a);
    assert!(s.show_help_menu);
    s.dispatch(Action::ToggleHelp, &a);
    assert!(!s.show_help_menu);
}

#[test]
fn poll_timeout_never_exceeds_tick_interval() {
    let tick = 1000u64;
    for elapsed in [0u64, 1, 500, 999, 1000, 1001, 50_000, u64::MAX] {
        let t = pomodoro::state::poll_timeout_ms(tick, elapsed);
        assert!(t <= tick);
        if elapsed >= tick {
            assert_eq!(t, 0);
        } else {
            assert_eq!(t, tick - elapsed);
        }
    }
}
