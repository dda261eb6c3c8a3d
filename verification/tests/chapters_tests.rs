use shellbooks::chapters::{chapters_from_marks, clean_filename_title, synthesize_multi_file, ChapterMark};

/// A length in nanoseconds from milliseconds.
fn ms(n: u128) -> u128 {
    n * 1_000_000
}

#[test]
fn synthesize_uses_filename_titles() {
    let files = vec![
        ("01 - Prologue.mp3".to_string(), ms(120_000)),
        ("02 - Chapter One.mp3".to_string(), ms(300_000)),
    ];
    let chapters = synthesize_multi_file(&files);
    assert_eq!(chapters.len(), 2);
    assert_eq!(chapters[0].title, "Prologue");
    assert_eq!(chapters[1].title, "Chapter One");
    assert_eq!(chapters[0].file_index, 0);
    assert_eq!(chapters[1].file_index, 1);
    assert_eq!(chapters[1].duration, ms(300_000));
}

#[test]
fn clean_filename_title_strips_track_number() {
    assert_eq!(clean_filename_title("01 - Foo.mp3"), "Foo");
    assert_eq!(clean_filename_title("12_Bar.flac"), "Bar");
    assert_eq!(clean_filename_title("003. Baz Quux.m4a"), "Baz Quux");
    assert_eq!(clean_filename_title("07 The Title.mp3"), "The Title");
}

#[test]
fn clean_filename_title_leaves_non_numeric_alone() {
    assert_eq!(clean_filename_title("Chapter 03.mp3"), "Chapter 03");
    assert_eq!(clean_filename_title("Prologue.mp3"), "Prologue");
}

#[test]
fn clean_filename_title_keeps_pure_digit_stems() {
    assert_eq!(clean_filename_title("001.mp3"), "001");
}

#[test]
fn clean_filename_title_handles_edge_cases() {
    // No extension, leading whitespace, only one separator removed.
    assert_eq!(clean_filename_title("  05 -- Twice"), "- Twice");
    assert_eq!(clean_filename_title("Intro"), "Intro");
    assert_eq!(clean_filename_title("12 - .mp3"), "12 - ");
    assert_eq!(clean_filename_title(".hidden"), "");
    assert_eq!(clean_filename_title("archive.tar.gz"), "archive.tar");
}

#[test]
fn chapters_from_marks_derives_durations_from_gaps() {
    let marks = vec![
        ChapterMark { start: 0, title: "Opening".to_string() },
        ChapterMark { start: ms(60_000), title: String::new() },
        ChapterMark { start: ms(150_000), title: "Finale".to_string() },
    ];
    let chapters = chapters_from_marks(&marks, ms(200_000));
    assert_eq!(chapters.len(), 3);
    assert_eq!(chapters[0].duration, ms(60_000));
    assert_eq!(chapters[1].title, "Chapter 2");
    assert_eq!(chapters[1].duration, ms(90_000));
    assert_eq!(chapters[2].start, ms(150_000));
    assert_eq!(chapters[2].duration, ms(50_000));
    assert!(chapters.iter().all(|c| c.file_index == 0));
}

#[test]
fn chapters_from_marks_never_gives_negative_lengths() {
    let marks = vec![
        ChapterMark { start: ms(10_000), title: "A".to_string() },
        ChapterMark { start: ms(5_000), title: "B".to_string() },
    ];
    let chapters = chapters_from_marks(&marks, ms(1_000));
    assert_eq!(chapters[0].duration, 0);
    assert_eq!(chapters[1].duration, 0);
    assert!(chapters_from_marks(&vec![], ms(1_000)).is_empty());
}

#[test]
fn chapters_from_marks_numbers_untitled_chapters_from_one() {
    let marks: Vec<ChapterMark> = (0..12)
        .map(|i| ChapterMark { start: ms(i * 1000), title: String::new() })
        .collect();
    let chapters = chapters_from_marks(&marks, ms(12_000));
    assert_eq!(chapters[0].title, "Chapter 1");
    assert_eq!(chapters[11].title, "Chapter 12");
}

#[test]
fn chapters_from_marks_keeps_sub_millisecond_starts() {
    let marks = vec![
        ChapterMark { start: 0, title: "A".to_string() },
        ChapterMark { start: 1_500_250, title: "B".to_string() },
    ];
    let chapters = chapters_from_marks(&marks, 3_000_001);
    assert_eq!(chapters[0].duration, 1_500_250);
    assert_eq!(chapters[1].start, 1_500_250);
    assert_eq!(chapters[1].duration, 1_499_751);
}
