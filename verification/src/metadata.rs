//! Tags read from audio files and how they apply to a book.
use vstd::prelude::*;
use crate::library::Book;
use crate::paths::{extension, join, opt_view, path_extension, path_join};
use crate::text::{
    ascii_lower_seq, chars_eq, chars_of, find_first, parse_i32, parse_i32_spec, parse_u32,
    parse_u32_spec, take_until, to_ascii_lower, trim, trim_bounds,
};

verus! {

/// Tags read out of an audio file (id3 for mp3, mp4 atoms for m4b/m4a).
/// All fields are best-effort: missing tags are `None`.
#[derive(Debug, Clone, PartialEq)]
pub struct Tags {
    pub title: Option<String>,
    pub author: Option<String>,
    pub narrator: Option<String>,
    pub series: Option<String>,
    pub series_index: Option<u32>,
    pub year: Option<i32>,
    /// Cover art bytes (jpeg/png) embedded in the tags, if any.
    pub embedded_cover: Option<Vec<u8>>,
    /// File length in nanoseconds, if the format reports it.
    pub duration: Option<u128>,
}

impl Default for Tags {
    fn default() -> (r: Self)
        ensures
            r.title is None,
            r.author is None,
            r.narrator is None,
            r.series is None,
            r.series_index is None,
            r.year is None,
            r.embedded_cover is None,
            r.duration is None,
    {
        Tags {
            title: None,
            author: None,
            narrator: None,
            series: None,
            series_index: None,
            year: None,
            embedded_cover: None,
            duration: None,
        }
    }
}

/// The first of two values that is present.
pub open spec fn first_present<T>(a: Option<T>, b: Option<T>) -> Option<T> {
    match a {
        Some(x) => Some(x),
        None => b,
    }
}

/// A series index parsed from an optional part-of-set text.
pub open spec fn index_of_text(raw: Option<String>) -> Option<u32> {
    match raw {
        Some(t) => parse_index_spec(t@),
        None => None,
    }
}

/// A year parsed from an optional text.
pub open spec fn year_of_text(raw: Option<String>) -> Option<i32> {
    match raw {
        Some(t) => parse_i32_spec(t@),
        None => None,
    }
}

fn first_of(a: Option<String>, b: Option<String>) -> (r: Option<String>)
    ensures
        r == first_present(a, b),
{
    match a {
        Some(x) => Some(x),
        None => b,
    }
}

/// The tags an mp3 gives, from its id3 frames. Audiobook publishers keep
/// their values in the music frames: the title (`TIT2`, read a second time
/// as a plain text frame when the first read finds none), artist as author,
/// composer (`TCOM`, else `COM`) as narrator, album as series and the
/// part-of-set text (`TPOS`, `3` or `3/12`) as the series index. id3 gives
/// the length in milliseconds.
pub fn tags_from_id3(
    title: Option<String>,
    tit2: Option<String>,
    artist: Option<String>,
    tcom: Option<String>,
    com: Option<String>,
    album: Option<String>,
    tpos: Option<String>,
    year: Option<i32>,
    cover: Option<Vec<u8>>,
    length_ms: Option<u32>,
) -> (r: Tags)
    ensures
        r.title == first_present(title, tit2),
        r.author == artist,
        r.narrator == first_present(tcom, com),
        r.series == album,
        r.series_index == index_of_text(tpos),
        r.year == year,
        r.embedded_cover == cover,
        r.duration == (match length_ms {
            Some(ms) => Some((ms * 1_000_000) as u128),
            None => None::<u128>,
        }),
{
    let series_index = match &tpos {
        Some(t) => parse_index(t.as_str()),
        None => None,
    };
    let duration = match length_ms {
        Some(ms) => Some((ms as u128) * 1_000_000),
        None => None,
    };
    Tags {
        title: first_of(title, tit2),
        author: artist,
        narrator: first_of(tcom, com),
        series: album,
        series_index,
        year,
        embedded_cover: cover,
        duration,
    }
}

/// The tags an m4b/m4a gives, from its mp4 atoms: artist as author,
/// composer as narrator, album as series, the year atom's text as a year,
/// and the file's length (nanoseconds). mp4 atoms carry no series index.
pub fn tags_from_mp4(
    title: Option<String>,
    artist: Option<String>,
    composer: Option<String>,
    album: Option<String>,
    year: Option<String>,
    artwork: Option<Vec<u8>>,
    length: u128,
) -> (r: Tags)
    ensures
        r.title == title,
        r.author == artist,
        r.narrator == composer,
        r.series == album,
        r.series_index is None,
        r.year == year_of_text(year),
        r.embedded_cover == artwork,
        r.duration == Some(length),
{
    let parsed = match &year {
        Some(t) => parse_year(t.as_str()),
        None => None,
    };
    Tags {
        title,
        author: artist,
        narrator: composer,
        series: album,
        series_index: None,
        year: parsed,
        embedded_cover: artwork,
        duration: Some(length),
    }
}

/// Which tag reader a file needs, by its extension.
#[derive(Debug, Clone, Copy, PartialEq, Eq)]
pub enum TagFormat {
    /// id3 tags (mp3).
    Id3,
    /// mp4 atoms (m4b, m4a, mp4).
    Mp4,
    /// No reader: the file's tags are taken to be empty.
    Unsupported,
}

/// The reader for a path, from its ASCII-lower-cased extension.
pub open spec fn tag_format_spec(p: Seq<char>) -> TagFormat {
    match path_extension(p) {
        Some(e) => {
            let l = ascii_lower_seq(e);
            if l == "mp3"@ {
                TagFormat::Id3
            } else if l == "m4b"@ || l == "m4a"@ || l == "mp4"@ {
                TagFormat::Mp4
            } else {
                TagFormat::Unsupported
            }
        },
        None => TagFormat::Unsupported,
    }
}

/// Chooses the tag reader for `path`: unknown extensions read as empty tags
/// rather than failing.
pub fn tag_format(path: &str) -> (r: TagFormat)
    ensures
        r == tag_format_spec(path@),
{
    match extension(path) {
        Some(e) => {
            let l = to_ascii_lower(&chars_of(e.as_str()));
            if chars_eq(&l, &chars_of("mp3")) {
                TagFormat::Id3
            } else if chars_eq(&l, &chars_of("m4b")) || chars_eq(&l, &chars_of("m4a")) || chars_eq(
                &l,
                &chars_of("mp4"),
            ) {
                TagFormat::Mp4
            } else {
                TagFormat::Unsupported
            }
        },
        None => TagFormat::Unsupported,
    }
}

/// Parses a part-of-set value such as `3` or `3/12` (id3 `TPOS`) into the
/// series index: the text before the first `/`, trimmed, as a `u32`.
pub open spec fn parse_index_spec(raw: Seq<char>) -> Option<u32> {
    parse_u32_spec(trim(take_until(raw, '/')))
}

/// Parses `3` or `3/12` into a series index.
pub fn parse_index(raw: &str) -> (r: Option<u32>)
    ensures
        r == parse_index_spec(raw@),
{
    let cs = chars_of(raw);
    let end = find_first(&cs, '/');
    assert(cs@.subrange(0, end as int) =~= cs@.take(end as int));
    let (a, b) = trim_bounds(&cs, 0, end);
    parse_u32(&cs, a, b)
}

/// Parses a year tag the way `str::parse::<i32>` does.
pub fn parse_year(raw: &str) -> (r: Option<i32>)
    ensures
        r == parse_i32_spec(raw@),
{
    let cs = chars_of(raw);
    assert(cs@.subrange(0, cs@.len() as int) =~= cs@);
    parse_i32(&cs, 0, cs.len())
}

/// The sidecar cover file names, in order of preference.
pub open spec fn sidecar_name(k: int) -> Seq<char> {
    if k == 0 {
        "cover.jpg"@
    } else if k == 1 {
        "cover.jpeg"@
    } else if k == 2 {
        "cover.png"@
    } else if k == 3 {
        "folder.jpg"@
    } else {
        "folder.png"@
    }
}

/// The paths where a sidecar cover of the book rooted at `book_root` may be,
/// in order of preference.
pub fn sidecar_candidates(book_root: &str) -> (r: Vec<String>)
    ensures
        r@.len() == 5,
        forall|k: int| 0 <= k < 5 ==> (#[trigger] r@[k])@ == path_join(book_root@, sidecar_name(k)),
{
    let mut r: Vec<String> = Vec::new();
    r.push(join(book_root, "cover.jpg"));
    r.push(join(book_root, "cover.jpeg"));
    r.push(join(book_root, "cover.png"));
    r.push(join(book_root, "folder.jpg"));
    r.push(join(book_root, "folder.png"));
    r
}

/// The sidecar cover next to a book: the first candidate (see
/// `sidecar_candidates`) that is a file; `is_file[k]` tells whether the
/// `k`-th candidate is one.
pub fn sidecar_cover(book_root: &str, is_file: &Vec<bool>) -> (r: Option<String>)
    requires
        is_file@.len() == 5,
    ensures
        match r {
            Some(p) => exists|k: int|
                0 <= k < 5 && #[trigger] is_file@[k] && (forall|m: int| 0 <= m < k ==> !is_file@[m])
                    && p@ == path_join(book_root@, sidecar_name(k)),
            None => forall|k: int| 0 <= k < 5 ==> !is_file@[k],
        },
{
    let candidates = sidecar_candidates(book_root);
    let mut k: usize = 0;
    while k < 5
        invariant
            k <= 5,
            is_file@.len() == 5,
            candidates@.len() == 5,
            forall|j: int| 0 <= j < 5 ==> (#[trigger] candidates@[j])@ == path_join(
                book_root@,
                sidecar_name(j),
            ),
            forall|m: int| 0 <= m < k ==> !is_file@[m],
        decreases 5 - k,
    {
        if is_file[k] {
            let p = candidates[k].clone();
            assert(is_file@[k as int]);
            return Some(p);
        }
        k = k + 1;
    }
    None
}

/// The value an optional tag gives a book field: the tag when present,
/// otherwise the field unchanged.
pub open spec fn override_with(tag: Option<String>, field: Option<String>) -> Option<Seq<char>> {
    if tag is Some {
        opt_view(tag)
    } else {
        opt_view(field)
    }
}

/// The title a title tag gives a book: the tag when it holds more than
/// whitespace, otherwise the title unchanged.
pub open spec fn title_with(tag: Option<String>, title: Seq<char>) -> Seq<char> {
    match tag {
        Some(t) => if trim(t@).len() > 0 {
            t@
        } else {
            title
        },
        None => title,
    }
}

/// What applying tags (with `title_tag` as the title source) does to a book:
/// present tags override, absent ones leave the field alone, and nothing
/// outside the tagged fields changes.
pub open spec fn tags_applied(old_book: Book, new_book: Book, title_tag: Option<String>, tags: Tags) -> bool {
    &&& new_book.title@ == title_with(title_tag, old_book.title@)
    &&& opt_view(new_book.author) == override_with(tags.author, old_book.author)
    &&& opt_view(new_book.narrator) == override_with(tags.narrator, old_book.narrator)
    &&& opt_view(new_book.series) == override_with(tags.series, old_book.series)
    &&& new_book.series_index == (if tags.series_index is Some {
        tags.series_index
    } else {
        old_book.series_index
    })
    &&& new_book.year == (if tags.year is Some {
        tags.year
    } else {
        old_book.year
    })
    &&& new_book.id == old_book.id
    &&& new_book.root == old_book.root
    &&& new_book.kind == old_book.kind
    &&& new_book.cover_path == old_book.cover_path
    &&& new_book.total_duration == old_book.total_duration
    &&& new_book.chapters == old_book.chapters
    &&& new_book.progress == old_book.progress
    &&& new_book.bookmarks == old_book.bookmarks
}

fn copy_opt(o: &Option<String>) -> (r: Option<String>)
    ensures
        opt_view(r) == opt_view(*o),
{
    match o {
        Some(s) => Some(s.clone()),
        None => None,
    }
}

fn apply_tags_with_title(book: &mut Book, title_tag: &Option<String>, tags: &Tags)
    ensures
        tags_applied(*old(book), *final(book), *title_tag, *tags),
{
    if let Some(t) = title_tag {
        let cs = chars_of(t.as_str());
        assert(cs@.subrange(0, cs@.len() as int) =~= cs@);
        let (a, b) = trim_bounds(&cs, 0, cs.len());
        if a < b {
            book.title = t.clone();
        }
    }
    if tags.author.is_some() {
        book.author = copy_opt(&tags.author);
    }
    if tags.narrator.is_some() {
        book.narrator = copy_opt(&tags.narrator);
    }
    if tags.series.is_some() {
        book.series = copy_opt(&tags.series);
    }
    if tags.series_index.is_some() {
        book.series_index = tags.series_index;
    }
    if tags.year.is_some() {
        book.year = tags.year;
    }
}

/// Applies tags to a book, preferring tag values over directory-derived
/// defaults. The cover is resolved separately.
pub fn apply_to_book(book: &mut Book, tags: &Tags)
    ensures
        tags_applied(*old(book), *final(book), tags.title, *tags),
{
    apply_tags_with_title(book, &tags.title, tags);
}

/// Applies the tags of a book's first file on import. For a multi-file book
/// the album tag (held in `series`) names the book, since each file's own
/// title names its chapter.
pub fn apply_import_tags(book: &mut Book, tags: &Tags, multi_file: bool)
    ensures
        tags_applied(
            *old(book),
            *final(book),
            if multi_file {
                tags.series
            } else {
                tags.title
            },
            *tags,
        ),
{
    if multi_file {
        apply_tags_with_title(book, &tags.series, tags);
    } else {
        apply_tags_with_title(book, &tags.title, tags);
    }
}

} // verus!
