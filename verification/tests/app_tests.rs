use shellbooks::app::{
    book_queue, chapter_skip_target, current_chapter_index, queue_holds_book, record_progress,
    resume_point, Action, Key, LibraryFocus, UiState,
};
use shellbooks::audio::{
    seek_target, should_autosave, start_index, toggle_pause, ClockChange, PlayerState, SinkCommand,
};
use shellbooks::library::{Book, BookKind, Chapter, Library, Progress};
use shellbooks::screen::View;
use shellbooks::ui::{fmt_duration, title_with_focus};

/// A length in nanoseconds from milliseconds.
fn ms(n: u128) -> u128 {
    n * 1_000_000
}

fn chapter(title: &str, file_index: usize, start: u128) -> Chapter {
    Chapter { title: title.into(), file_index, start, duration: 0 }
}

fn book(id: &str, title: &str, kind: BookKind, chapters: Vec<Chapter>) -> Book {
    Book {
        id: id.into(),
        root: "/r".into(),
        kind,
        title: title.into(),
        author: None,
        narrator: None,
        series: None,
        series_index: None,
        year: None,
        cover_path: None,
        total_duration: 0,
        chapters,
        progress: Progress::default(),
        bookmarks: vec![],
    }
}

fn single(id: &str, chapters: Vec<Chapter>) -> Book {
    book(id, id, BookKind::SingleFile { path: "/r/b.m4b".into() }, chapters)
}

fn multi(id: &str, n: usize) -> Book {
    let files: Vec<String> = (0..n).map(|i| format!("/r/{i:02}.mp3")).collect();
    let chapters = (0..n).map(|i| chapter(&format!("c{i}"), i, 0)).collect();
    book(id, id, BookKind::MultiFile { files }, chapters)
}

#[test]
fn current_chapter_index_walks_starts_in_single_file_books() {
    let b = single("s", vec![chapter("a", 0, 0), chapter("b", 0, ms(60_000)), chapter("c", 0, ms(120_000))]);
    assert_eq!(current_chapter_index(&b, 0, 0), 0);
    assert_eq!(current_chapter_index(&b, 0, ms(60_000) - 1), 0);
    assert_eq!(current_chapter_index(&b, 0, ms(60_000)), 1);
    assert_eq!(current_chapter_index(&b, 0, ms(500_000)), 2);
    let late = single("l", vec![chapter("a", 0, ms(10_000))]);
    assert_eq!(current_chapter_index(&late, 0, ms(5_000)), 0);
}

#[test]
fn current_chapter_index_follows_the_queue_in_multi_file_books() {
    let b = multi("m", 3);
    assert_eq!(current_chapter_index(&b, 2, 0), 2);
    assert_eq!(current_chapter_index(&b, 7, 0), 0);
}

#[test]
fn chapter_skip_target_moves_one_chapter() {
    let b = multi("m", 3);
    assert_eq!(chapter_skip_target(&b, 1, 0, true), Some(2));
    assert_eq!(chapter_skip_target(&b, 2, 0, true), None);
    assert_eq!(chapter_skip_target(&b, 0, 0, false), Some(0));
    assert_eq!(chapter_skip_target(&b, 2, 0, false), Some(1));
    assert_eq!(chapter_skip_target(&single("e", vec![]), 0, 0, true), None);
}

#[test]
fn resume_point_uses_saved_chapter_and_position() {
    let mut b = multi("m", 3);
    b.progress.current_chapter = 2;
    b.progress.position = ms(4_200);
    assert_eq!(resume_point(&b), (2, ms(4_200)));
    b.progress.current_chapter = 9;
    assert_eq!(resume_point(&b), (0, ms(4_200)));
    assert_eq!(book_queue(&b).len(), 3);
    assert_eq!(book_queue(&single("s", vec![])), vec!["/r/b.m4b".to_string()]);
}

#[test]
fn record_progress_updates_the_playing_book_only() {
    let mut lib = Library::default();
    lib.books.push(multi("a", 2));
    lib.books.push(multi("b", 3));
    record_progress(&mut lib, "b", 2, ms(9_000));
    assert_eq!(lib.books[1].progress.position, ms(9_000));
    assert_eq!(lib.books[1].progress.current_chapter, 2);
    assert_eq!(lib.books[0].progress.position, 0);
    record_progress(&mut lib, "zzz", 1, 1);
    assert_eq!(lib.books[0].progress.position, 0);
}

#[test]
fn queue_holds_book_compares_paths() {
    let b = multi("m", 2);
    assert!(queue_holds_book(&b.kind, &vec!["/x".into(), "/r/01.mp3".into()]));
    assert!(!queue_holds_book(&b.kind, &vec!["/x".into()]));
    assert!(!queue_holds_book(&b.kind, &vec![]));
    // Paths are compared by component, as `Path`s are.
    assert!(queue_holds_book(&b.kind, &vec!["/r//01.mp3".into()]));
    assert!(queue_holds_book(&b.kind, &vec!["/r/./01.mp3".into()]));
    assert!(!queue_holds_book(&b.kind, &vec!["r/01.mp3".into()]));
}

fn library_of(n: usize) -> Library {
    let mut lib = Library::default();
    for i in 0..n {
        lib.books.push(multi(&format!("b{i}"), i + 1));
    }
    lib
}

#[test]
fn keys_switch_views_and_quit() {
    let lib = library_of(0);
    let mut s = UiState::new();
    assert_eq!(s.handle_key(Key::Char('3'), &lib), Action::NoAction);
    assert_eq!(s.view, View::Browser);
    assert_eq!(s.handle_key(Key::Esc, &lib), Action::NoAction);
    assert_eq!(s.view, View::Library);
    s.handle_key(Key::Char('2'), &lib);
    assert_eq!(s.view, View::Bookmarks);
    s.handle_key(Key::Char('q'), &lib);
    assert!(s.should_quit);
}

#[test]
fn info_modal_swallows_keys() {
    let lib = library_of(2);
    let mut s = UiState::new();
    s.handle_key(Key::Char('i'), &lib);
    assert!(s.show_info);
    assert_eq!(s.handle_key(Key::Char('j'), &lib), Action::NoAction);
    assert_eq!(s.selected_book, 0);
    assert_eq!(s.handle_key(Key::Char(' '), &lib), Action::NoAction);
    s.handle_key(Key::Esc, &lib);
    assert!(!s.show_info);
    assert_eq!(s.handle_key(Key::Char(' '), &lib), Action::TogglePause);
}

#[test]
fn playback_keys_ask_for_actions() {
    let lib = library_of(1);
    let mut s = UiState::new();
    assert_eq!(s.handle_key(Key::Char('+'), &lib), Action::SpeedUp);
    assert_eq!(s.handle_key(Key::Char('-'), &lib), Action::SpeedDown);
    assert_eq!(s.handle_key(Key::Char(','), &lib), Action::Seek { seconds: 10, forward: false });
    assert_eq!(s.handle_key(Key::Char(']'), &lib), Action::Seek { seconds: 60, forward: true });
    assert_eq!(s.handle_key(Key::Char('b'), &lib), Action::SkipChapter { forward: true });
    assert_eq!(s.handle_key(Key::Enter, &lib), Action::PlaySelectedBook);
    assert_eq!(s.handle_key(Key::Char('d'), &lib), Action::DeleteSelectedBook);
    s.handle_key(Key::Tab, &lib);
    assert_eq!(s.library_focus, LibraryFocus::Chapters);
    assert_eq!(s.handle_key(Key::Enter, &lib), Action::PlaySelectedChapter);
    assert_eq!(s.handle_key(Key::Char('d'), &lib), Action::NoAction);
    s.handle_key(Key::Char('3'), &lib);
    assert_eq!(s.handle_key(Key::Char(','), &lib), Action::NoAction);
    assert_eq!(s.handle_key(Key::Char('j'), &lib), Action::BrowserDown);
    assert_eq!(s.handle_key(Key::Backspace, &lib), Action::BrowserParent);
    assert_eq!(s.handle_key(Key::Char('l'), &lib), Action::BrowserOpen);
    assert_eq!(s.handle_key(Key::Char('a'), &lib), Action::BrowserImport);
    assert_eq!(s.handle_key(Key::Char('G'), &lib), Action::BrowserBottom);
}

#[test]
fn library_navigation_stays_in_bounds() {
    let lib = library_of(3);
    let mut s = UiState::new();
    for _ in 0..5 {
        s.handle_key(Key::Down, &lib);
    }
    assert_eq!(s.selected_book, 2);
    s.handle_key(Key::Tab, &lib);
    for _ in 0..5 {
        s.handle_key(Key::Char('j'), &lib);
    }
    assert_eq!(s.selected_chapter, 2);
    s.handle_key(Key::Tab, &lib);
    s.handle_key(Key::Up, &lib);
    assert_eq!(s.selected_book, 1);
    assert_eq!(s.selected_chapter, 0);
    for _ in 0..5 {
        s.handle_key(Key::Char('k'), &lib);
    }
    assert_eq!(s.selected_book, 0);
}

#[test]
fn deleting_the_last_book_selects_the_previous_one() {
    let mut lib = library_of(3);
    let mut s = UiState::new();
    s.handle_key(Key::Down, &lib);
    s.handle_key(Key::Down, &lib);
    let removed = s.delete_selected_book(&mut lib).unwrap();
    assert_eq!(removed.id, "b2");
    assert_eq!(s.selected_book, 1);
    assert_eq!(lib.books.len(), 2);
    let mut empty = Library::default();
    let mut t = UiState::new();
    assert!(t.delete_selected_book(&mut empty).is_none());
}

#[test]
fn player_bookkeeping() {
    assert_eq!(start_index(5, 3), 2);
    assert_eq!(start_index(1, 3), 1);
    assert_eq!(start_index(4, 0), 0);
    assert_eq!(seek_target(ms(5_000), ms(10_000), false), 0);
    assert_eq!(seek_target(ms(25_000), ms(10_000), false), ms(15_000));
    assert_eq!(seek_target(ms(25_000), ms(60_000), true), ms(85_000));
    assert!(should_autosave(PlayerState::Playing, ms(10_000)));
    assert!(!should_autosave(PlayerState::Playing, ms(10_000) - 1));
    assert!(!should_autosave(PlayerState::Paused, ms(60_000)));
}

#[test]
fn fmt_duration_formats_hours_minutes_seconds() {
    assert_eq!(fmt_duration(0), "0:00");
    assert_eq!(fmt_duration(ms(65_999)), "1:05");
    assert_eq!(fmt_duration(ms(3_600_000)), "1:00:00");
    assert_eq!(fmt_duration(ms(37_230_000)), "10:20:30");
    assert_eq!(fmt_duration(ms(599_000)), "9:59");
    assert_eq!(fmt_duration(999_999_999), "0:00");
    assert_eq!(fmt_duration(1_000_000_000), "0:01");
}

#[test]
fn title_with_focus_marks_the_active_pane() {
    assert_eq!(title_with_focus(" Books ", true, 3), " Books (3) [active] ");
    assert_eq!(title_with_focus(" Chapters ", false, 12), " Chapters (12) ");
}

#[test]
fn toggling_pause_moves_between_playing_and_paused() {
    let p = toggle_pause(PlayerState::Playing, ms(1_000), ms(1_200), Some(ms(500)));
    assert_eq!(p.state, PlayerState::Paused);
    assert_eq!(p.paused_offset, ms(1_500));
    assert_eq!(p.position, ms(1_500));
    assert_eq!(p.sink, SinkCommand::Pause);
    assert_eq!(p.clock, ClockChange::Stop);
    let q = toggle_pause(PlayerState::Paused, ms(1_500), ms(1_500), None);
    assert_eq!(q.state, PlayerState::Playing);
    assert_eq!(q.paused_offset, ms(1_500));
    assert_eq!(q.sink, SinkCommand::Play);
    assert_eq!(q.clock, ClockChange::Restart);
    let idle = toggle_pause(PlayerState::Idle, 0, 0, None);
    assert_eq!(idle.state, PlayerState::Idle);
    assert_eq!(idle.sink, SinkCommand::Nothing);
    assert_eq!(idle.clock, ClockChange::Keep);
    let unclocked = toggle_pause(PlayerState::Playing, 3, 4, None);
    assert_eq!((unclocked.paused_offset, unclocked.position), (3, 4));
}
