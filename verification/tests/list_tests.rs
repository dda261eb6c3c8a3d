use shellbooks::list::ListSelector;

#[test]
fn new_starts_at_zero() {
    let s: ListSelector<i32> = ListSelector::new(vec![10, 20, 30]);
    assert_eq!(s.selected, 0);
    assert_eq!(s.selected_item(), Some(&10));
}

#[test]
fn move_down_advances_until_end() {
    let mut s = ListSelector::new(vec![1, 2, 3]);
    s.move_down();
    assert_eq!(s.selected, 1);
    s.move_down();
    s.move_down();
    s.move_down(); // past the end is a no-op
    assert_eq!(s.selected, 2);
    assert_eq!(s.selected_item(), Some(&3));
}

#[test]
fn move_up_stops_at_zero() {
    let mut s = ListSelector::new(vec![1, 2, 3]);
    s.move_down();
    s.move_up();
    s.move_up();
    s.move_up();
    assert_eq!(s.selected, 0);
}

#[test]
fn go_to_top_and_bottom() {
    let mut s = ListSelector::new(vec!['a', 'b', 'c', 'd']);
    s.go_to_bottom();
    assert_eq!(s.selected_item(), Some(&'d'));
    s.go_to_top();
    assert_eq!(s.selected_item(), Some(&'a'));
}

#[test]
fn set_entries_resets_selection() {
    let mut s = ListSelector::new(vec![1, 2, 3]);
    s.go_to_bottom();
    s.set_entries(vec![9, 8]);
    assert_eq!(s.selected, 0);
    assert_eq!(s.selected_item(), Some(&9));
}

#[test]
fn empty_list_handles_navigation_safely() {
    let mut s: ListSelector<i32> = ListSelector::new(vec![]);
    s.move_down();
    s.move_up();
    s.go_to_bottom();
    s.go_to_top();
    assert_eq!(s.selected_item(), None);
}

#[test]
fn selection_stays_on_an_entry_through_any_moves() {
    let mut s = ListSelector::new(vec![1, 2]);
    for step in 0..20 {
        match step % 4 {
            0 => s.move_down(),
            1 => s.go_to_bottom(),
            2 => s.move_down(),
            _ => s.move_up(),
        }
        assert!(s.selected < s.entries.len());
        assert!(s.selected_item().is_some());
    }
}
