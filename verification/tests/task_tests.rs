use pomodoro::task::Task;

fn sample_task() -> Task {
    Task {
        title: String::from("Write the report"),
        pomodoros_expected: 4,
        pomodoros_completed: 2,
        completed: false,
    }
}

#[test]
fn list_print_open_task() {
    let t = sample_task();
    assert_eq!(t.list_print(), "[ ] | 2/4 - Write the report");
}

#[test]
fn list_print_done_task() {
    let mut t = sample_task();
    t.complete_task();
    assert_eq!(t.list_print(), "[x] | 2/4 - Write the report");
}

#[test]
fn complete_task_toggles() {
    let mut t = sample_task();
    t.complete_task();
    assert!(t.completed);
    t.complete_task();
    assert!(!t.completed);
}

#[test]
fn complete_pomodoro_counts_up() {
    let mut t = sample_task();
    t.complete_pomodoro();
    assert_eq!(t.pomodoros_completed, 3);
}

#[test]
fn negate_pomodoro_counts_down() {
    let mut t = sample_task();
    t.negate_pomodoro();
    assert_eq!(t.pomodoros_completed, 1);
}

#[test]
fn negate_pomodoro_at_zero_is_noop() {
    let mut t = sample_task();
    t.pomodoros_completed = 0;
    t.negate_pomodoro();
    assert_eq!(t.pomodoros_completed, 0);
    t.negate_pomodoro();
    assert_eq!(t.pomodoros_completed, 0);
}
