use shellbooks::library::{Book, BookKind, Progress};
use shellbooks::metadata::{
    apply_import_tags, apply_to_book, parse_index, parse_year, sidecar_candidates, sidecar_cover,
    tag_format, tags_from_id3, tags_from_mp4, TagFormat, Tags,
};

fn make_book(title: &str) -> Book {
    Book {
        id: "abc123".into(),
        root: "/tmp/x".into(),
        kind: BookKind::SingleFile { path: "/tmp/x/book.m4b".into() },
        title: title.into(),
        author: None,
        narrator: None,
        series: None,
        series_index: None,
        year: None,
        cover_path: None,
        total_duration: 0,
        chapters: vec![],
        progress: Progress::default(),
        bookmarks: vec![],
    }
}

#[test]
fn parse_index_handles_bare_number() {
    assert_eq!(parse_index("3"), Some(3));
}

#[test]
fn parse_index_handles_slash_form() {
    assert_eq!(parse_index("3/12"), Some(3));
    assert_eq!(parse_index("  7 / 99  "), Some(7));
}

#[test]
fn parse_index_rejects_garbage() {
    assert_eq!(parse_index(""), None);
    assert_eq!(parse_index("nope"), None);
}

#[test]
fn parse_index_follows_u32_parsing() {
    assert_eq!(parse_index("+4"), Some(4));
    assert_eq!(parse_index("-4"), None);
    assert_eq!(parse_index("4294967295"), Some(u32::MAX));
    assert_eq!(parse_index("4294967296"), None);
    assert_eq!(parse_index("0012/3"), Some(12));
    assert_eq!(parse_index("1 2"), None);
}

#[test]
fn parse_year_follows_i32_parsing() {
    assert_eq!(parse_year("2010"), Some(2010));
    assert_eq!(parse_year("-44"), Some(-44));
    assert_eq!(parse_year("+7"), Some(7));
    assert_eq!(parse_year("2147483647"), Some(i32::MAX));
    assert_eq!(parse_year("-2147483648"), Some(i32::MIN));
    assert_eq!(parse_year("2147483648"), None);
    assert_eq!(parse_year("2010-05-01"), None);
    assert_eq!(parse_year(" 2010"), None);
    assert_eq!(parse_year("-"), None);
}

#[test]
fn apply_to_book_overrides_title() {
    let mut book = make_book("DirName");
    let tags = Tags { title: Some("The Way of Kings".into()), ..Default::default() };
    apply_to_book(&mut book, &tags);
    assert_eq!(book.title, "The Way of Kings");
}

#[test]
fn apply_to_book_keeps_existing_title_for_blank_tag() {
    let mut book = make_book("DirName");
    let tags = Tags { title: Some("   ".into()), ..Default::default() };
    apply_to_book(&mut book, &tags);
    assert_eq!(book.title, "DirName");
}

#[test]
fn apply_to_book_sets_author_narrator_series() {
    let mut book = make_book("Book");
    let tags = Tags {
        author: Some("Brandon Sanderson".into()),
        narrator: Some("Michael Kramer".into()),
        series: Some("The Stormlight Archive".into()),
        series_index: Some(1),
        year: Some(2010),
        ..Default::default()
    };
    apply_to_book(&mut book, &tags);
    assert_eq!(book.author.as_deref(), Some("Brandon Sanderson"));
    assert_eq!(book.narrator.as_deref(), Some("Michael Kramer"));
    assert_eq!(book.series.as_deref(), Some("The Stormlight Archive"));
    assert_eq!(book.series_index, Some(1));
    assert_eq!(book.year, Some(2010));
}

#[test]
fn apply_to_book_does_not_clobber_existing_with_none() {
    let mut book = make_book("Book");
    book.author = Some("Existing".into());
    let tags = Tags::default();
    apply_to_book(&mut book, &tags);
    assert_eq!(book.author.as_deref(), Some("Existing"));
}

#[test]
fn apply_import_tags_uses_album_as_title_for_multi_file_books() {
    let tags = Tags {
        title: Some("Track 001".into()),
        series: Some("The Hobbit".into()),
        ..Default::default()
    };
    let mut multi = make_book("DirName");
    apply_import_tags(&mut multi, &tags, true);
    assert_eq!(multi.title, "The Hobbit");
    let mut single = make_book("DirName");
    apply_import_tags(&mut single, &tags, false);
    assert_eq!(single.title, "Track 001");
}

#[test]
fn tag_format_dispatches_by_extension() {
    assert_eq!(tag_format("/a/b.mp3"), TagFormat::Id3);
    assert_eq!(tag_format("/a/b.MP3"), TagFormat::Id3);
    assert_eq!(tag_format("/a/b.m4b"), TagFormat::Mp4);
    assert_eq!(tag_format("/a/b.m4a"), TagFormat::Mp4);
    assert_eq!(tag_format("/a/b.mp4"), TagFormat::Mp4);
    assert_eq!(tag_format("/tmp/x/notes.txt"), TagFormat::Unsupported);
    assert_eq!(tag_format("/a/flac"), TagFormat::Unsupported);
}

#[test]
fn sidecar_cover_finds_cover_jpg() {
    let result = sidecar_cover("/books/b", &vec![true, false, false, false, false]);
    assert_eq!(result.as_deref(), Some("/books/b/cover.jpg"));
}

#[test]
fn sidecar_cover_prefers_jpg_over_png() {
    let result = sidecar_cover("/books/b", &vec![true, false, true, false, false]).unwrap();
    assert!(result.ends_with("cover.jpg"));
}

#[test]
fn sidecar_cover_returns_none_when_missing() {
    assert!(sidecar_cover("/books/b", &vec![false; 5]).is_none());
}

#[test]
fn sidecar_candidates_are_in_preference_order() {
    let c = sidecar_candidates("/books/b/");
    assert_eq!(
        c,
        vec![
            "/books/b/cover.jpg",
            "/books/b/cover.jpeg",
            "/books/b/cover.png",
            "/books/b/folder.jpg",
            "/books/b/folder.png"
        ]
    );
    assert_eq!(sidecar_cover("/x", &vec![false, false, false, true, true]).as_deref(), Some("/x/folder.jpg"));
}

#[test]
fn id3_frames_fill_the_tags() {
    let t = tags_from_id3(
        None,
        Some("Dune".into()),
        Some("Frank Herbert".into()),
        None,
        Some("Scott Brick".into()),
        Some("Dune Chronicles".into()),
        Some(" 2/6".into()),
        Some(1965),
        None,
        Some(1_500),
    );
    assert_eq!(t.title.as_deref(), Some("Dune"));
    assert_eq!(t.author.as_deref(), Some("Frank Herbert"));
    assert_eq!(t.narrator.as_deref(), Some("Scott Brick"));
    assert_eq!(t.series.as_deref(), Some("Dune Chronicles"));
    assert_eq!(t.series_index, Some(2));
    assert_eq!(t.year, Some(1965));
    assert_eq!(t.duration, Some(1_500_000_000));
    let first = tags_from_id3(
        Some("A".into()),
        Some("B".into()),
        None,
        Some("TCOM".into()),
        Some("COM".into()),
        None,
        Some("x".into()),
        None,
        None,
        None,
    );
    assert_eq!(first.title.as_deref(), Some("A"));
    assert_eq!(first.narrator.as_deref(), Some("TCOM"));
    assert_eq!(first.series_index, None);
    assert_eq!(first.duration, None);
}

#[test]
fn mp4_atoms_fill_the_tags() {
    let t = tags_from_mp4(
        Some("Title".into()),
        Some("Author".into()),
        Some("Narrator".into()),
        Some("Series".into()),
        Some("2001".into()),
        Some(vec![1, 2]),
        42,
    );
    assert_eq!(t.title.as_deref(), Some("Title"));
    assert_eq!(t.narrator.as_deref(), Some("Narrator"));
    assert_eq!(t.series_index, None);
    assert_eq!(t.year, Some(2001));
    assert_eq!(t.embedded_cover, Some(vec![1, 2]));
    assert_eq!(t.duration, Some(42));
    let bad = tags_from_mp4(None, None, None, None, Some("2001-05".into()), None, 0);
    assert_eq!(bad.year, None);
}
