use shellbooks::chapters::ChapterMark;
use shellbooks::library::{
    book_id_for, build_book, cover_cache_path, first_audio_file, group_audio_files, hex16,
    in_macos_metadata, is_audio_file, plan_import, populate_chapters, resolve_cover, resolve_cover_in, sniff_image_ext,
    Book, BookKind, Bookmark, Chapter, CoverChoice, ImportError, Library, Progress,
};
use shellbooks::metadata::Tags;

/// A length in nanoseconds from milliseconds.
fn ms(n: u128) -> u128 {
    n * 1_000_000
}

fn make_book(id: &str, title: &str, root: &str) -> Book {
    Book {
        id: id.into(),
        root: root.into(),
        kind: BookKind::SingleFile { path: format!("{root}/book.m4b") },
        title: title.into(),
        author: None,
        narrator: None,
        series: None,
        series_index: None,
        year: None,
        cover_path: None,
        total_duration: 0,
        chapters: vec![],
        progress: Progress::default(),
        bookmarks: vec![],
    }
}

/// Imports `path` the way the application does, with the directory listing
/// given instead of read from disk.
fn import(lib: &mut Library, path: &str, is_dir: bool, listing: Vec<&str>) -> Result<usize, ImportError> {
    let plan = plan_import(path, is_dir, listing.into_iter().map(String::from).collect())?;
    let book = build_book(&plan.root, &plan.root, plan.files);
    Ok(lib.import_book(book))
}

// ---- is_audio_file ----

#[test]
fn is_audio_file_recognizes_common_extensions() {
    for ext in ["m4b", "M4B", "mp3", "mp4a", "flac", "ogg", "opus", "wav"]
        .iter()
        .filter(|e| **e != "mp4a")
    {
        let p = format!("foo.{ext}");
        assert!(is_audio_file(&p), "{ext} should match");
    }
}

#[test]
fn is_audio_file_rejects_non_audio() {
    for name in ["foo.txt", "foo", "cover.jpg", "foo.MP4"] {
        assert!(!is_audio_file(name), "{name} should not match");
    }
}

#[test]
fn is_audio_file_looks_at_the_file_name_only() {
    assert!(is_audio_file("/a.mp3/b.m4a"));
    assert!(!is_audio_file("/music.mp3/notes"));
    assert!(!is_audio_file(".mp3"));
    assert!(is_audio_file("x/.hidden.mp3"));
    assert!(!is_audio_file("/"));
}

// ---- book ids ----

#[test]
fn book_id_is_stable_for_same_path() {
    let a = book_id_for("/tmp/library/book");
    let b = book_id_for("/tmp/library/book");
    assert_eq!(a, b);
    assert_eq!(a.len(), 16);
    assert!(a.chars().all(|c| c.is_ascii_digit() || ('a'..='f').contains(&c)));
}

#[test]
fn book_id_differs_for_different_paths() {
    assert_ne!(book_id_for("/tmp/library/one"), book_id_for("/tmp/library/two"));
}

#[test]
fn book_id_is_the_sha256_prefix() {
    assert_eq!(book_id_for(""), "e3b0c44298fc1c14");
    assert_eq!(book_id_for("abc"), "ba7816bf8f01cfea");
}

#[test]
fn hex16_takes_at_most_eight_bytes() {
    assert_eq!(hex16(&[0x00, 0x0f, 0xa0, 0xff]), "000fa0ff");
    assert_eq!(hex16(&[1, 2, 3, 4, 5, 6, 7, 8, 9, 10]), "0102030405060708");
    assert_eq!(hex16(&[]), "");
}

// ---- importing ----

#[test]
fn import_path_imports_a_directory_of_audio_files() {
    let mut lib = Library::default();
    let idx = import(
        &mut lib,
        "/lib/Some Book",
        true,
        vec!["/lib/Some Book/02.mp3", "/lib/Some Book/01.mp3"],
    )
    .unwrap();
    assert_eq!(lib.books.len(), 1);
    assert_eq!(lib.books[idx].title, "Some Book");
    match &lib.books[idx].kind {
        BookKind::MultiFile { files } => {
            assert_eq!(files.len(), 2);
            assert_eq!(files[0], "/lib/Some Book/01.mp3");
        }
        _ => panic!("expected MultiFile"),
    }
}

#[test]
fn import_path_imports_a_single_audio_file() {
    let mut lib = Library::default();
    let file = "/lib/Solo Book/book.m4b";
    let idx = import(&mut lib, file, false, vec![]).unwrap();
    match &lib.books[idx].kind {
        BookKind::SingleFile { path } => assert_eq!(path, file),
        _ => panic!("expected SingleFile"),
    }
    assert_eq!(lib.books[idx].root, "/lib/Solo Book");
    assert_eq!(lib.books[idx].title, "Solo Book");
}

#[test]
fn import_path_is_idempotent() {
    let mut lib = Library::default();
    let first = import(&mut lib, "/lib/Same Book", true, vec!["/lib/Same Book/01.mp3"]).unwrap();
    let second = import(&mut lib, "/lib/Same Book", true, vec!["/lib/Same Book/01.mp3"]).unwrap();
    assert_eq!(lib.books.len(), 1);
    assert_eq!(first, second);
}

#[test]
fn import_returns_the_imported_book_not_a_book_at_its_parent() {
    let mut lib = Library::default();
    let outer = import(&mut lib, "/a/Zen", true, vec!["/a/Zen/intro.mp3"]).unwrap();
    assert_eq!(outer, 0);
    let first = import(&mut lib, "/a/Zen/Zen", true, vec!["/a/Zen/Zen/01.mp3"]).unwrap();
    assert_eq!(lib.books.len(), 2);
    assert_eq!(first, 1);
    assert_eq!(lib.books[first].root, "/a/Zen/Zen");
    let second = import(&mut lib, "/a/Zen/Zen", true, vec!["/a/Zen/Zen/01.mp3"]).unwrap();
    assert_eq!(second, first);
    assert_eq!(lib.books.len(), 2);
}

#[test]
fn import_path_errors_on_empty_dir() {
    let mut lib = Library::default();
    assert!(import(&mut lib, "/lib/Empty", true, vec![]).is_err());
    assert_eq!(
        import(&mut lib, "/lib/Empty", true, vec!["/lib/Empty/notes.txt"]).unwrap_err(),
        ImportError::NoAudioFiles
    );
}

#[test]
fn import_path_errors_on_non_audio_file() {
    let mut lib = Library::default();
    assert_eq!(import(&mut lib, "/lib/notes.txt", false, vec![]).unwrap_err(), ImportError::NotAudio);
}

#[test]
fn import_path_skips_macos_metadata_files() {
    let mut lib = Library::default();
    let idx = import(
        &mut lib,
        "/lib/Book",
        true,
        vec!["/lib/Book/01.mp3", "/lib/Book/._01.mp3", "/lib/Book/.DS_Store"],
    )
    .unwrap();
    match &lib.books[idx].kind {
        BookKind::MultiFile { files } => {
            assert!(files.iter().any(|p| p.ends_with("01.mp3")));
        }
        BookKind::SingleFile { .. } => {}
    }
}

#[test]
fn import_keeps_books_sorted_by_lowercase_title() {
    let mut lib = Library::default();
    import(&mut lib, "/lib/beta", true, vec!["/lib/beta/1.mp3"]).unwrap();
    import(&mut lib, "/lib/Gamma", true, vec!["/lib/Gamma/1.mp3"]).unwrap();
    let idx = import(&mut lib, "/lib/Alpha", true, vec!["/lib/Alpha/1.mp3"]).unwrap();
    let titles: Vec<&str> = lib.books.iter().map(|b| b.title.as_str()).collect();
    assert_eq!(titles, vec!["Alpha", "beta", "Gamma"]);
    assert_eq!(idx, 0);
    assert_eq!(lib.find_book(&book_id_for("/lib/Gamma")), Some(2));
}

// ---- rescanning ----

fn scan_found(paths: Vec<&str>) -> Vec<Book> {
    let paths: Vec<String> = paths.into_iter().map(String::from).collect();
    group_audio_files(&paths)
        .into_iter()
        .map(|g| build_book(&g.dir, &g.dir, g.files))
        .collect()
}

#[test]
fn scan_preserves_progress_and_bookmarks_for_known_books() {
    let mut lib = Library::default();
    let id = book_id_for("/lib/Existing");
    let mut existing = make_book(&id, "Existing", "/lib/Existing");
    existing.progress = Progress {
        current_chapter: 3,
        position: ms(742_000),
        finished: false,
        last_played_at: Some("2026-04-29T12:00:00Z".into()),
    };
    existing.bookmarks.push(Bookmark {
        chapter: 1,
        position: ms(120_000),
        note: Some("important".into()),
        created_at: "2026-04-29T12:00:00Z".into(),
    });
    lib.books.push(existing);

    lib.scan(scan_found(vec!["/lib/Existing/01.mp3"]));

    assert_eq!(lib.books.len(), 1);
    let after = &lib.books[0];
    assert_eq!(after.id, id);
    assert_eq!(after.progress.current_chapter, 3);
    assert_eq!(after.progress.position, ms(742_000));
    assert_eq!(after.bookmarks.len(), 1);
    assert_eq!(after.bookmarks[0].note.as_deref(), Some("important"));
}

#[test]
fn scan_drops_books_no_longer_on_disk() {
    let mut lib = Library::default();
    lib.books.push(make_book("deadbeef00000000", "Gone", "/tmp/does-not-exist"));
    lib.scan(scan_found(vec!["/lib/Still Here/01.mp3"]));
    assert_eq!(lib.books.len(), 1);
    assert_eq!(lib.books[0].title, "Still Here");
}

#[test]
fn scan_carries_progress_once_per_id() {
    let mut lib = Library::default();
    let mut first = make_book("same", "Old A", "/a");
    first.progress.position = 1;
    let mut last = make_book("same", "Old B", "/b");
    last.progress.position = 2;
    lib.books.push(first);
    lib.books.push(last);
    let found = vec![make_book("same", "New 2", "/n2"), make_book("same", "New 1", "/n1")];
    lib.scan(found);
    // Sorted by title: "New 1" (found second) then "New 2" (found first).
    assert_eq!(lib.books[0].title, "New 1");
    assert_eq!(lib.books[0].progress.position, 0);
    assert_eq!(lib.books[1].title, "New 2");
    assert_eq!(lib.books[1].progress.position, 2);
}

#[test]
fn group_audio_files_groups_by_directory() {
    let paths: Vec<String> = vec![
        "/r/B/02.mp3",
        "/r/A/only.m4b",
        "/r/B/01.mp3",
        "/r/B/._01.mp3",
        "/r/B/.DS_Store",
        "/r/B/Thumbs.db",
        "/r/B/cover.jpg",
    ]
    .into_iter()
    .map(String::from)
    .collect();
    let groups = group_audio_files(&paths);
    assert_eq!(groups.len(), 2);
    assert_eq!(groups[0].dir, "/r/B");
    assert_eq!(groups[0].files, vec!["/r/B/01.mp3", "/r/B/02.mp3"]);
    assert_eq!(groups[1].dir, "/r/A");
    assert_eq!(groups[1].files, vec!["/r/A/only.m4b"]);
}

// ---- covers ----

#[test]
fn sniff_image_ext_detects_jpeg() {
    assert_eq!(sniff_image_ext(&[0xFF, 0xD8, 0xFF, 0xE0]), Some("jpg"));
}

#[test]
fn sniff_image_ext_detects_png() {
    assert_eq!(sniff_image_ext(&[0x89, b'P', b'N', b'G', 0x0D, 0x0A]), Some("png"));
}

#[test]
fn sniff_image_ext_returns_none_for_unknown() {
    assert_eq!(sniff_image_ext(b"just some random bytes"), None);
    assert_eq!(sniff_image_ext(&[]), None);
}

#[test]
fn resolve_cover_prefers_sidecar_over_embedded() {
    let tags = Tags { embedded_cover: Some(vec![0xFF, 0xD8, 0xFF, 0xE0]), ..Default::default() };
    match resolve_cover("test_id_1", Some("/books/b/cover.jpg".to_string()), &tags) {
        CoverChoice::Sidecar(p) => assert!(p.ends_with("cover.jpg")),
        other => panic!("expected the sidecar, got {other:?}"),
    }
}

#[test]
fn resolve_cover_returns_none_when_neither_present() {
    let tags = Tags::default();
    assert!(matches!(resolve_cover("test_id_2", None, &tags), CoverChoice::Missing));
}

#[test]
fn resolve_cover_caches_embedded_art_by_sniffed_type() {
    let jpg = Tags { embedded_cover: Some(vec![0xFF, 0xD8, 0xFF]), ..Default::default() };
    match resolve_cover_in(Some("/home/u/.cache".to_string()), "abc", None, &jpg) {
        CoverChoice::CacheFile(p) => assert_eq!(p, "/home/u/.cache/shellbooks/covers/abc.jpg"),
        other => panic!("expected a cache file, got {other:?}"),
    }
    let unknown = Tags { embedded_cover: Some(vec![1, 2, 3]), ..Default::default() };
    assert_eq!(cover_cache_path("/c/", "id", &[1, 2, 3]), "/c/shellbooks/covers/id.bin");
    assert!(matches!(resolve_cover_in(None, "abc", None, &unknown), CoverChoice::Missing));
}

// ---- first_audio_file ----

#[test]
fn first_audio_file_returns_path_for_single() {
    let kind = BookKind::SingleFile { path: "/tmp/x/book.m4b".into() };
    assert_eq!(first_audio_file(&kind), Some("/tmp/x/book.m4b".to_string()));
}

#[test]
fn first_audio_file_returns_first_for_multi() {
    let kind = BookKind::MultiFile { files: vec!["/tmp/01.mp3".into(), "/tmp/02.mp3".into()] };
    assert_eq!(first_audio_file(&kind), Some("/tmp/01.mp3".to_string()));
}

#[test]
fn first_audio_file_returns_none_for_empty_multi() {
    let kind = BookKind::MultiFile { files: vec![] };
    assert_eq!(first_audio_file(&kind), None);
}

// ---- chapters ----

#[test]
fn populate_chapters_single_file_without_marks_spans_the_file() {
    let mut book = make_book("id", "Whole", "/b");
    populate_chapters(&mut book, &vec![ms(3_600_000)], vec![]);
    assert_eq!(book.total_duration, ms(3_600_000));
    assert_eq!(book.chapters.len(), 1);
    assert_eq!(book.chapters[0].title, "Whole");
    assert_eq!(book.chapters[0].duration, ms(3_600_000));
}

#[test]
fn populate_chapters_single_file_keeps_its_chapter_list() {
    let mut book = make_book("id", "Whole", "/b");
    let marks = shellbooks::chapters::chapters_from_marks(
        &vec![ChapterMark { start: 0, title: "One".into() }, ChapterMark { start: 10, title: "Two".into() }],
        30,
    );
    populate_chapters(&mut book, &vec![30], marks);
    assert_eq!(book.chapters.len(), 2);
    assert_eq!(book.chapters[1].title, "Two");
    assert_eq!(book.chapters[1].duration, 20);
}

#[test]
fn populate_chapters_multi_file_sums_lengths() {
    let mut book = build_book("/b", "/b", vec!["/b/01 - One.mp3".into(), "/b/02_Two.mp3".into()]);
    populate_chapters(&mut book, &vec![ms(1_000), ms(2_500)], Vec::<Chapter>::new());
    assert_eq!(book.total_duration, ms(3_500));
    assert_eq!(book.chapters[0].title, "One");
    assert_eq!(book.chapters[1].title, "Two");
    assert_eq!(book.chapters[1].file_index, 1);
}

// ---- delete_at ----

#[test]
fn delete_at_removes_and_returns_the_book() {
    let mut lib = Library::default();
    lib.books.push(make_book("a", "First", "/tmp/a"));
    lib.books.push(make_book("b", "Second", "/tmp/b"));

    let removed = lib.delete_at(0).unwrap();
    assert_eq!(removed.title, "First");
    assert_eq!(lib.books.len(), 1);
    assert_eq!(lib.books[0].title, "Second");
}

#[test]
fn delete_at_returns_none_for_out_of_bounds() {
    let mut lib = Library::default();
    assert!(lib.delete_at(0).is_none());
    lib.books.push(make_book("a", "First", "/tmp/a"));
    assert!(lib.delete_at(5).is_none());
}

#[test]
fn macos_metadata_folders_are_recognised_by_component() {
    assert!(in_macos_metadata("/lib/__MACOSX/Book/._01.mp3"));
    assert!(in_macos_metadata("__MACOSX"));
    assert!(!in_macos_metadata("/lib/__MACOSX_old/01.mp3"));
    assert!(!in_macos_metadata("/lib/Book/01.mp3"));
}

#[test]
fn populate_chapters_sums_lengths_past_u64_nanoseconds() {
    let mut book = build_book("/b", "/b", vec!["/b/01.mp3".into(), "/b/02.mp3".into()]);
    let long = u64::MAX as u128;
    populate_chapters(&mut book, &vec![long, long + 7], Vec::<Chapter>::new());
    assert_eq!(book.total_duration, 2 * long + 7);
}
