use shellbooks::library::{Book, BookKind, Chapter, Progress};
use shellbooks::ui::{chapter_row, chapter_selection, footer_chapter, info_fields};

/// A length in nanoseconds from milliseconds.
fn ms(n: u128) -> u128 {
    n * 1_000_000
}

fn chapter(title: &str, file_index: usize) -> Chapter {
    Chapter { title: title.into(), file_index, start: 0, duration: 0 }
}

fn sample_book() -> Book {
    Book {
        id: "0123456789abcdef".into(),
        root: "/lib/Dune".into(),
        kind: BookKind::MultiFile { files: vec!["/lib/Dune/01.mp3".into(), "/lib/Dune/02.mp3".into()] },
        title: "Dune".into(),
        author: Some("Frank Herbert".into()),
        narrator: None,
        series: Some("Dune".into()),
        series_index: Some(1),
        year: Some(1965),
        cover_path: None,
        total_duration: ms(3_723_000),
        chapters: vec![chapter("One", 0), chapter("One b", 0), chapter("Two", 1)],
        progress: Progress::default(),
        bookmarks: vec![],
    }
}

#[test]
fn footer_names_the_first_chapter_of_the_playing_file() {
    let b = sample_book();
    assert_eq!(footer_chapter(&b, 0), Some(0));
    assert_eq!(footer_chapter(&b, 1), Some(2));
    assert_eq!(footer_chapter(&b, 5), None);
}

#[test]
fn chapter_rows_mark_the_current_chapter() {
    assert_eq!(chapter_row("Intro", true), "● Intro");
    assert_eq!(chapter_row("Intro", false), "  Intro");
}

#[test]
fn chapter_selection_is_held_to_the_list() {
    assert_eq!(chapter_selection(3, 0), None);
    assert_eq!(chapter_selection(1, 3), Some(1));
    assert_eq!(chapter_selection(7, 3), Some(2));
}

#[test]
fn info_fields_list_the_known_metadata() {
    let fields: Vec<(String, String)> = info_fields(&sample_book());
    let expected: Vec<(&str, &str)> = vec![
        ("Author:    ", "Frank Herbert"),
        ("Series:    ", "Dune #1"),
        ("Year:      ", "1965"),
        ("Duration:  ", "1:02:03"),
        ("Chapters:  ", "3"),
        ("Path:      ", "/lib/Dune"),
        ("ID:        ", "0123456789abcdef"),
    ];
    let got: Vec<(&str, &str)> = fields.iter().map(|(l, v)| (l.as_str(), v.as_str())).collect();
    assert_eq!(got, expected);
}

#[test]
fn info_fields_show_a_series_without_index_and_a_negative_year() {
    let mut b = sample_book();
    b.series_index = None;
    b.year = Some(-44);
    b.author = None;
    b.narrator = Some("N".into());
    b.cover_path = Some("/c.jpg".into());
    let fields = info_fields(&b);
    assert_eq!(fields[0], ("Narrator:  ".to_string(), "N".to_string()));
    assert_eq!(fields[1], ("Series:    ".to_string(), "Dune".to_string()));
    assert_eq!(fields[2], ("Year:      ".to_string(), "-44".to_string()));
    assert_eq!(fields[5], ("Cover:     ".to_string(), "/c.jpg".to_string()));
    assert_eq!(fields.len(), 8);
}
