use pomodoro::task::Task;
use pomodoro::taskfile::{parse_tasks, serialize_tasks};

fn task(title: &str, expected: u16, completed_count: u16, done: bool) -> Task {
    Task {
        title: String::from(title),
        pomodoros_expected: expected,
        pomodoros_completed: completed_count,
        completed: done,
    }
}

fn assert_same_tasks(a: &[Task], b: &[Task]) {
    assert_eq!(a.len(), b.len());
    for (x, y) in a.iter().zip(b.iter()) {
        assert_eq!(x.title, y.title);
        assert_eq!(x.pomodoros_expected, y.pomodoros_expected);
        assert_eq!(x.pomodoros_completed, y.pomodoros_completed);
        assert_eq!(x.completed, y.completed);
    }
}

#[test]
fn serialize_one_task_exact_text() {
    let tasks = vec![task("X", 1, 2, false)];
    assert_eq!(
        serialize_tasks(&tasks),
        "---\ntitle: X\npomodoros_expected: 1\npomodoros_completed: 2\ncompleted: false\n---"
    );
}

#[test]
fn serialize_empty_list_is_bare_delimiter() {
    let tasks: Vec<Task> = vec![];
    assert_eq!(serialize_tasks(&tasks), "---");
}

#[test]
fn empty_list_round_trips() {
    let tasks: Vec<Task> = vec![];
    let text = serialize_tasks(&tasks);
    let back = parse_tasks(&text);
    assert!(back.is_empty());
}

#[test]
fn tasks_round_trip() {
    let tasks = vec![
        task("Write the report", 4, 2, false),
        task("Review: chapter 3", 1, 0, true),
        task("", 0, 0, false),
        task("Largest counters", u16::MAX, u16::MAX, true),
    ];
    let text = serialize_tasks(&tasks);
    let back = parse_tasks(&text);
    assert_same_tasks(&tasks, &back);
}

#[test]
fn title_keeps_inner_colons_and_dashes() {
    let tasks = vec![task("a:b --- c", 7, 7, true)];
    let text = serialize_tasks(&tasks);
    let back = parse_tasks(&text);
    assert_same_tasks(&tasks, &back);
}

#[test]
fn unparsable_expected_field_defaults_to_zero() {
    let text = "---\ntitle: A\npomodoros_expected: abc\npomodoros_completed: 3\ncompleted: true\n---";
    let back = parse_tasks(text);
    assert_eq!(back.len(), 1);
    assert_eq!(back[0].title, "A");
    assert_eq!(back[0].pomodoros_expected, 0);
    assert_eq!(back[0].pomodoros_completed, 3);
    assert!(back[0].completed);
}

#[test]
fn missing_middle_field_leaves_the_others_in_place() {
    let text = "---\ntitle: a\npomodoros_completed: 2\ncompleted: true\n---";
    let back = parse_tasks(text);
    assert_eq!(back.len(), 1);
    assert_eq!(back[0].title, "a");
    assert_eq!(back[0].pomodoros_expected, 0);
    assert_eq!(back[0].pomodoros_completed, 2);
    assert!(back[0].completed);
}

#[test]
fn fields_are_matched_by_key_not_position() {
    let text = "---\ncompleted: true\npomodoros_expected: 4\ntitle: scrambled\npomodoros_completed: 1\n---";
    let back = parse_tasks(text);
    assert_eq!(back.len(), 1);
    assert_eq!(back[0].title, "scrambled");
    assert_eq!(back[0].pomodoros_expected, 4);
    assert_eq!(back[0].pomodoros_completed, 1);
    assert!(back[0].completed);
}

#[test]
fn unknown_keys_are_ignored_and_first_key_wins() {
    let text = "---\nnote: not a field\ntitle: first\ntitle: second\npomodoros_expected: 3\n---";
    let back = parse_tasks(text);
    assert_eq!(back.len(), 1);
    assert_eq!(back[0].title, "first");
    assert_eq!(back[0].pomodoros_expected, 3);
}

#[test]
fn missing_fields_default_to_zero_values() {
    let text = "---\ntitle: B\n---";
    let back = parse_tasks(text);
    assert_eq!(back.len(), 1);
    assert_eq!(back[0].title, "B");
    assert_eq!(back[0].pomodoros_expected, 0);
    assert_eq!(back[0].pomodoros_completed, 0);
    assert!(!back[0].completed);
}

#[test]
fn numeric_overflow_defaults_to_zero() {
    let text = "---\ntitle: C\npomodoros_expected: 65536\npomodoros_completed: 65535\ncompleted: maybe\n---";
    let back = parse_tasks(text);
    assert_eq!(back.len(), 1);
    assert_eq!(back[0].pomodoros_expected, 0);
    assert_eq!(back[0].pomodoros_completed, 65535);
    assert!(!back[0].completed);
}

#[test]
fn values_are_trimmed() {
    let text = "---\ntitle:   spaced out  \npomodoros_expected:  2 \npomodoros_completed: 1\ncompleted:  true \n---";
    let back = parse_tasks(text);
    assert_eq!(back.len(), 1);
    assert_eq!(back[0].title, "spaced out");
    assert_eq!(back[0].pomodoros_expected, 2);
    assert!(back[0].completed);
}

#[test]
fn empty_text_parses_to_no_tasks() {
    assert!(parse_tasks("").is_empty());
    assert!(parse_tasks("---").is_empty());
    assert!(parse_tasks("\n \n---\n  \n").is_empty());
}

#[test]
fn lines_without_colon_carry_no_value() {
    let text = "---\njust some text\ntitle: D\npomodoros_expected: 5\n---";
    let back = parse_tasks(text);
    assert_eq!(back.len(), 1);
    assert_eq!(back[0].title, "D");
    assert_eq!(back[0].pomodoros_expected, 5);
}
