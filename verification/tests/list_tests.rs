use pomodoro::stateful_list::StatefulList;

#[test]
fn first_next_selects_first_item() {
    let mut l = StatefulList::with_items(vec![10u32, 20, 30]);
    assert_eq!(l.selected(), None);
    l.next();
    assert_eq!(l.selected(), Some(0));
}

#[test]
fn next_wraps_around_after_len_steps() {
    let mut l = StatefulList::with_items(vec![1u32, 2, 3, 4]);
    l.next();
    let first = l.selected();
    for _ in 0..4 {
        l.next();
    }
    assert_eq!(l.selected(), first);
}

#[test]
fn previous_from_front_wraps_to_back() {
    let mut l = StatefulList::with_items(vec![1u32, 2, 3]);
    l.next();
    assert_eq!(l.selected(), Some(0));
    l.previous();
    assert_eq!(l.selected(), Some(2));
}

#[test]
fn empty_list_never_selects() {
    let mut l: StatefulList<u32> = StatefulList::with_items(vec![]);
    assert_eq!(l.selected(), None);
    l.next();
    assert_eq!(l.selected(), None);
    l.previous();
    assert_eq!(l.selected(), None);
}

#[test]
fn navigation_steps_through_all_items() {
    let mut l = StatefulList::with_items(vec!["a", "b", "c"]);
    l.next();
    l.next();
    assert_eq!(l.selected(), Some(1));
    l.next();
    assert_eq!(l.selected(), Some(2));
    l.next();
    assert_eq!(l.selected(), Some(0));
    l.previous();
    assert_eq!(l.selected(), Some(2));
}
