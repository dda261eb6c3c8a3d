use shellbooks::browser::{browser_items, dir_contains_audio, BrowserItem, BrowserState, OpenAction};

fn names(items: &[BrowserItem]) -> Vec<String> {
    items
        .iter()
        .filter_map(|i| match i {
            BrowserItem::Entry(p) => Some(p.rsplit('/').next().unwrap().to_string()),
            _ => None,
        })
        .collect()
}

#[test]
fn read_dir_items_filters_dotfiles() {
    let items = browser_items(vec!["/d/visible.txt".into(), "/d/.hidden".into()]);
    assert!(matches!(items[0], BrowserItem::UpDirectory));
    assert_eq!(names(&items), vec!["visible.txt"]);
}

#[test]
fn browser_items_are_sorted_after_the_up_row() {
    let items = browser_items(vec!["/d/b".into(), "/d/a.mp3".into(), "/d/B".into(), "/d/a".into()]);
    assert_eq!(items.len(), 5);
    assert!(matches!(items[0], BrowserItem::UpDirectory));
    assert_eq!(names(&items), vec!["B", "a", "a.mp3", "b"]);
    assert_eq!(browser_items(vec![]).len(), 1);
}

#[test]
fn dir_contains_audio_detects_one_audio_file() {
    let mut entries = vec![("/d/readme.txt".to_string(), true)];
    assert!(!dir_contains_audio(&entries));
    entries.push(("/d/01.mp3".to_string(), true));
    assert!(dir_contains_audio(&entries));
}

#[test]
fn dir_contains_audio_does_not_recurse() {
    // The only entry is a directory (not a regular file), even if named like audio.
    let entries = vec![("/d/inner".to_string(), false), ("/d/inner.mp3".to_string(), false)];
    assert!(!dir_contains_audio(&entries));
}

#[test]
fn open_selected_descends_into_directory_of_directories() {
    let mut state = BrowserState::at("/d".into(), vec!["/d/sub".into()]);
    state.move_down();
    match state.open_action(true) {
        OpenAction::Descend(p) => {
            assert_eq!(p, "/d/sub");
            state.descend(p, vec![]);
        }
        other => panic!("expected to descend, got {other:?}"),
    }
    assert_eq!(state.current_dir, "/d/sub");
    assert_eq!(state.list.entries.len(), 1);
}

#[test]
fn open_selected_descends_into_directory_with_audio() {
    let mut state = BrowserState::at("/d".into(), vec!["/d/Book".into()]);
    state.move_down();
    let action = state.open_action(true);
    assert!(matches!(action, OpenAction::Descend(_)), "open_selected should not return a path for a directory");
    if let OpenAction::Descend(p) = action {
        state.descend(p, vec!["/d/Book/01.mp3".into()]);
    }
    assert_eq!(state.current_dir, "/d/Book");
}

#[test]
fn selected_path_returns_highlighted_directory() {
    let mut state = BrowserState::at("/d".into(), vec!["/d/Book".into()]);
    state.move_down();
    assert_eq!(state.selected_path().as_deref(), Some("/d/Book"));
}

#[test]
fn selected_path_returns_none_on_up_directory() {
    let state = BrowserState::at("/d".into(), vec![]);
    assert!(state.selected_path().is_none());
}

#[test]
fn open_selected_returns_path_for_single_audio_file() {
    let mut state = BrowserState::at("/d".into(), vec!["/d/solo.m4b".into()]);
    state.move_down();
    match state.open_action(false) {
        OpenAction::Audio(p) => assert_eq!(p, "/d/solo.m4b"),
        other => panic!("expected the audio file, got {other:?}"),
    }
}

#[test]
fn open_selected_ignores_other_files_and_goes_up_from_the_up_row() {
    let mut state = BrowserState::at("/d".into(), vec!["/d/notes.txt".into()]);
    assert!(matches!(state.open_action(false), OpenAction::GoUp));
    state.move_down();
    assert!(matches!(state.open_action(false), OpenAction::Stay));
}

#[test]
fn go_up_moves_to_parent() {
    let mut state = BrowserState::at("/d/sub".into(), vec![]);
    assert_eq!(state.parent_dir().as_deref(), Some("/d"));
    state.go_up(vec!["/d/sub".into()]);
    assert_eq!(state.current_dir, "/d");
    assert_eq!(state.list.entries.len(), 2);
    let mut root = BrowserState::at("/".into(), vec![]);
    root.go_up(vec!["/x".into()]);
    assert_eq!(root.current_dir, "/");
    assert_eq!(root.list.entries.len(), 1);
}
