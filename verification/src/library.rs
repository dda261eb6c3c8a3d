//! The audiobook catalogue: books, their chapters and progress, and the
//! rules that add, merge, order and remove them.
//!
//! Paths are `String`s; times are nanoseconds (`u128`), which hold every
//! `std::time::Duration` exactly.
use vstd::prelude::*;
use sha2::Digest;
use vstd::utf8::encode_utf8;
use crate::text::{has_prefix, chars_of, chars_eq, push_char, str_eq, to_ascii_lower, ascii_lower_seq, lowercase, to_lowercase};
use crate::sort::{is_stable_sort, key_seqs, stable_sort_by_keys, stable_sort_witness};
use crate::config::{app_dir, cache_dir};
use crate::metadata::Tags;
use crate::paths::{components, join, path_join, opt_view, parent, path_components, path_extension, path_parent, extension, file_name, path_file_name};

verus! {

// ---------------------------------------------------------------------
// Data model
// ---------------------------------------------------------------------

/// A single audiobook: a directory of audio files (one chapter per file) or
/// a single file with internal chapters.
#[derive(Debug, Clone)]
pub struct Book {
    /// Stable hash of the book's canonical root path (16 hex characters).
    pub id: String,
    pub root: String,
    pub kind: BookKind,
    pub title: String,
    pub author: Option<String>,
    pub narrator: Option<String>,
    pub series: Option<String>,
    pub series_index: Option<u32>,
    pub year: Option<i32>,
    pub cover_path: Option<String>,
    /// Total length in nanoseconds.
    pub total_duration: u128,
    pub chapters: Vec<Chapter>,
    pub progress: Progress,
    pub bookmarks: Vec<Bookmark>,
}

#[derive(Debug, Clone)]
pub enum BookKind {
    /// Single-file book (typically .m4b with internal chapters).
    SingleFile { path: String },
    /// Multi-file book (directory of mp3/m4a, one per chapter).
    MultiFile { files: Vec<String> },
}

#[derive(Debug, Clone)]
pub struct Chapter {
    pub title: String,
    /// Index into `BookKind::MultiFile::files`, or 0 for single-file books.
    pub file_index: usize,
    /// Offset within the chapter's source file, in nanoseconds.
    pub start: u128,
    /// Length in nanoseconds.
    pub duration: u128,
}

#[derive(Debug, Clone)]
pub struct Progress {
    pub current_chapter: usize,
    /// Position within the current file, in nanoseconds.
    pub position: u128,
    pub finished: bool,
    /// ISO-8601 time stamp.
    pub last_played_at: Option<String>,
}

impl Default for Progress {
    fn default() -> (r: Self)
        ensures
            r.current_chapter == 0,
            r.position == 0,
            !r.finished,
            r.last_played_at is None,
    {
        Progress { current_chapter: 0, position: 0, finished: false, last_played_at: None }
    }
}

#[derive(Debug, Clone)]
pub struct Bookmark {
    pub chapter: usize,
    /// Position in nanoseconds.
    pub position: u128,
    pub note: Option<String>,
    pub created_at: String,
}

/// The catalogue, as stored in `library.json`.
#[derive(Debug, Clone)]
pub struct Library {
    pub books: Vec<Book>,
}

impl Default for Library {
    fn default() -> (r: Self)
        ensures
            r.books@.len() == 0,
    {
        Library { books: Vec::new() }
    }
}

// ---------------------------------------------------------------------
// Audio files
// ---------------------------------------------------------------------

/// The recognised audio extensions (lower case): m4b is the audiobook
/// native, m4a its cousin, the rest common encodings.
pub open spec fn is_audio_ext(e: Seq<char>) -> bool {
    ||| e == "m4b"@
    ||| e == "m4a"@
    ||| e == "mp3"@
    ||| e == "flac"@
    ||| e == "ogg"@
    ||| e == "opus"@
    ||| e == "wav"@
}

/// A path names an audio file: its extension, ASCII-lower-cased, is one of
/// the recognised ones.
pub open spec fn is_audio_path(p: Seq<char>) -> bool {
    match path_extension(p) {
        Some(e) => is_audio_ext(ascii_lower_seq(e)),
        None => false,
    }
}

/// Whether the (lower-cased) extension `e` is a recognised audio extension.
fn is_audio_extension(e: &Vec<char>) -> (r: bool)
    ensures
        r == is_audio_ext(e@),
{
    chars_eq(e, &chars_of("m4b")) || chars_eq(e, &chars_of("m4a")) || chars_eq(e, &chars_of("mp3"))
        || chars_eq(e, &chars_of("flac")) || chars_eq(e, &chars_of("ogg")) || chars_eq(
        e,
        &chars_of("opus"),
    ) || chars_eq(e, &chars_of("wav"))
}

/// Whether `path` has an audio extension (case-insensitive).
pub fn is_audio_file(path: &str) -> (r: bool)
    ensures
        r == is_audio_path(path@),
{
    match extension(path) {
        Some(e) => {
            let lower = to_ascii_lower(&chars_of(e.as_str()));
            is_audio_extension(&lower)
        },
        None => false,
    }
}

// ---------------------------------------------------------------------
// Book ids
// ---------------------------------------------------------------------

/// The SHA-256 digest of these bytes.
pub uninterp spec fn sha256(data: Seq<u8>) -> Seq<u8>;

/// sha2's `Sha256::digest`. Trusted: the result is `sha256` of the input
/// bytes, a function of them alone, and is 32 bytes long (the digest's
/// output type is a fixed 32-byte array).
#[verifier::external_body]
fn sha256_digest(data: &[u8]) -> (r: Vec<u8>)
    ensures
        r@ == sha256(data@),
        r@.len() == 32,
{
    sha2::Sha256::digest(data).to_vec()
}

/// Lower-case hexadecimal digit of a value below 16.
pub open spec fn hex_digit(n: nat) -> char {
    if n < 10 {
        (n + 48) as char
    } else {
        (n + 87) as char
    }
}

/// Lower-case hexadecimal of bytes, two digits per byte (`{:02x}`).
pub open spec fn hex_lower(bs: Seq<u8>) -> Seq<char>
    decreases bs.len(),
{
    if bs.len() == 0 {
        Seq::empty()
    } else {
        hex_lower(bs.drop_last()) + seq![hex_digit(bs.last() as nat / 16), hex_digit(bs.last() as nat % 16)]
    }
}

/// The hex of the first eight bytes (or all bytes, when fewer).
pub open spec fn hex16_spec(bs: Seq<u8>) -> Seq<char> {
    hex_lower(if bs.len() < 8 { bs } else { bs.take(8) })
}

/// A lower-case hexadecimal digit: `0`-`9` or `a`-`f`.
pub open spec fn is_lower_hex_digit(c: char) -> bool {
    (48 <= c as u32 <= 57) || (97 <= c as u32 <= 102)
}

/// Law: the hex of bytes is two lower-case hex digits per byte.
pub proof fn law_hex_lower_digits(bs: Seq<u8>)
    ensures
        hex_lower(bs).len() == 2 * bs.len(),
        forall|i: int| 0 <= i < hex_lower(bs).len() ==> is_lower_hex_digit(#[trigger] hex_lower(bs)[i]),
    decreases bs.len(),
{
    if bs.len() > 0 {
        law_hex_lower_digits(bs.drop_last());
        let hi = bs.last() as nat / 16;
        let lo = bs.last() as nat % 16;
        assert(is_lower_hex_digit(hex_digit(hi)));
        assert(is_lower_hex_digit(hex_digit(lo)));
    }
}

fn hex_char(n: u8) -> (c: char)
    requires
        n < 16,
    ensures
        c == hex_digit(n as nat),
{
    if n < 10 {
        (n + 48) as char
    } else {
        (n + 87) as char
    }
}

/// Lower-case hex of the first eight bytes of `bytes`.
pub fn hex16(bytes: &[u8]) -> (r: String)
    ensures
        r@ == hex16_spec(bytes@),
{
    let n = if bytes.len() < 8 { bytes.len() } else { 8 };
    let mut out = String::new();
    let mut i: usize = 0;
    while i < n
        invariant
            n <= bytes@.len(),
            n == (if bytes@.len() < 8 { bytes@.len() } else { 8 }),
            i <= n,
            out@ == hex_lower(bytes@.take(i as int)),
        decreases n - i,
    {
        let b = bytes[i];
        push_char(&mut out, hex_char(b / 16));
        push_char(&mut out, hex_char(b % 16));
        proof {
            assert(bytes@.take(i + 1).drop_last() =~= bytes@.take(i as int));
        }
        i = i + 1;
        assert(out@ =~= hex_lower(bytes@.take(i as int)));
    }
    proof {
        if bytes@.len() < 8 {
            assert(bytes@.take(n as int) =~= bytes@);
        }
    }
    out
}

/// The id of a book whose root path canonicalises to `canonical_root`.
pub open spec fn book_id_spec(canonical_root: Seq<char>) -> Seq<char> {
    hex16_spec(sha256(encode_utf8(canonical_root)))
}

/// Stable book id: the first 16 hex characters of the SHA-256 of the
/// canonical root path. (Canonicalising the path touches the file system and
/// is the caller's part; it passes the root itself when that fails.)
pub fn book_id_for(canonical_root: &str) -> (r: String)
    ensures
        r@ == book_id_spec(canonical_root@),
        r@.len() == 16,
        forall|i: int| 0 <= i < r@.len() ==> is_lower_hex_digit(#[trigger] r@[i]),
{
    let digest = sha256_digest(canonical_root.as_bytes());
    let r = hex16(digest.as_slice());
    proof {
        law_hex_lower_digits(digest@.take(8));
    }
    r
}

/// Law: every character of a book id is a lower-case hex digit, and an id
/// is at most 16 characters (exactly 16 for a SHA-256 digest, see
/// `book_id_for`).
pub proof fn law_book_id_is_hex(canonical_root: Seq<char>)
    ensures
        book_id_spec(canonical_root).len() <= 16,
        forall|i: int|
            0 <= i < book_id_spec(canonical_root).len() ==> is_lower_hex_digit(
                #[trigger] book_id_spec(canonical_root)[i],
            ),
{
    let d = sha256(encode_utf8(canonical_root));
    law_hex_lower_digits(if d.len() < 8 { d } else { d.take(8) });
}

// ---------------------------------------------------------------------
// Building books
// ---------------------------------------------------------------------

/// The title a book rooted at `root` starts with: the root's file name, or
/// `Unknown`.
pub open spec fn root_title(root: Seq<char>) -> Seq<char> {
    match path_file_name(root) {
        Some(n) => n,
        None => "Unknown"@,
    }
}

/// A fresh book rooted at `book_root` holding `files` (already sorted),
/// with no tags, chapters or progress yet.
pub fn build_book(book_root: &str, canonical_root: &str, files: Vec<String>) -> (b: Book)
    ensures
        b.id@ == book_id_spec(canonical_root@),
        b.root@ == book_root@,
        b.title@ == root_title(book_root@),
        files@.len() == 1 ==> b.kind == (BookKind::SingleFile { path: files@[0] }),
        files@.len() != 1 ==> b.kind == (BookKind::MultiFile { files }),
        b.author is None,
        b.narrator is None,
        b.series is None,
        b.series_index is None,
        b.year is None,
        b.cover_path is None,
        b.total_duration == 0,
        b.chapters@.len() == 0,
        b.progress.current_chapter == 0,
        b.progress.position == 0,
        !b.progress.finished,
        b.progress.last_played_at is None,
        b.bookmarks@.len() == 0,
{
    let id = book_id_for(canonical_root);
    let title = match file_name(book_root) {
        Some(n) => n,
        None => "Unknown".to_owned(),
    };
    let kind = if files.len() == 1 {
        let mut files = files;
        let path = files.remove(0);
        BookKind::SingleFile { path }
    } else {
        BookKind::MultiFile { files }
    };
    Book {
        id,
        root: book_root.to_owned(),
        kind,
        title,
        author: None,
        narrator: None,
        series: None,
        series_index: None,
        year: None,
        cover_path: None,
        total_duration: 0,
        chapters: Vec::new(),
        progress: Progress::default(),
        bookmarks: Vec::new(),
    }
}

/// The first audio file of a book, the one its tags are read from.
pub open spec fn first_audio_file_spec(kind: BookKind) -> Option<String> {
    match kind {
        BookKind::SingleFile { path } => Some(path),
        BookKind::MultiFile { files } => if files@.len() > 0 {
            Some(files@[0])
        } else {
            None
        },
    }
}

/// The first audio file of a book, used to source tag data on import.
pub fn first_audio_file(kind: &BookKind) -> (r: Option<String>)
    ensures
        opt_view(r) == opt_view(first_audio_file_spec(*kind)),
{
    match kind {
        BookKind::SingleFile { path } => Some(path.clone()),
        BookKind::MultiFile { files } => {
            if files.len() > 0 {
                Some(files[0].clone())
            } else {
                None
            }
        },
    }
}

// ---------------------------------------------------------------------
// Cover art
// ---------------------------------------------------------------------

/// The image type that leading magic bytes announce.
pub open spec fn sniff_spec(bytes: Seq<u8>) -> Option<Seq<char>> {
    if bytes.len() >= 3 && bytes[0] == 0xFF && bytes[1] == 0xD8 && bytes[2] == 0xFF {
        Some("jpg"@)
    } else if bytes.len() >= 4 && bytes[0] == 0x89 && bytes[1] == 0x50 && bytes[2] == 0x4E
        && bytes[3] == 0x47 {
        Some("png"@)
    } else {
        None
    }
}

/// Sniffs jpeg/png from magic bytes.
pub fn sniff_image_ext(bytes: &[u8]) -> (r: Option<&'static str>)
    ensures
        match r {
            Some(e) => sniff_spec(bytes@) == Some(e@),
            None => sniff_spec(bytes@) is None,
        },
{
    if bytes.len() >= 3 && bytes[0] == 0xFF && bytes[1] == 0xD8 && bytes[2] == 0xFF {
        Some("jpg")
    } else if bytes.len() >= 4 && bytes[0] == 0x89 && bytes[1] == 0x50 && bytes[2] == 0x4E
        && bytes[3] == 0x47 {
        Some("png")
    } else {
        None
    }
}

/// Where a book's cover comes from.
#[derive(Debug, Clone)]
pub enum CoverChoice {
    /// A sidecar image next to the book.
    Sidecar(String),
    /// Embedded artwork, to be written to this cache file.
    CacheFile(String),
    /// No cover.
    Missing,
}

/// The cache file name for a book's embedded cover: `<id>.<ext>`, with the
/// extension sniffed from the bytes (`bin` when unknown).
pub open spec fn cover_file_name(book_id: Seq<char>, bytes: Seq<u8>) -> Seq<char> {
    book_id + "."@ + match sniff_spec(bytes) {
        Some(e) => e,
        None => "bin"@,
    }
}

/// The cache path of a book's embedded cover under a cache directory:
/// `<cache>/shellbooks/covers/<id>.<ext>`.
pub open spec fn cover_cache_spec(cache: Seq<char>, book_id: Seq<char>, bytes: Seq<u8>) -> Seq<char> {
    path_join(path_join(app_dir(cache), "covers"@), cover_file_name(book_id, bytes))
}

/// Where the embedded cover bytes of a book are cached.
pub fn cover_cache_path(cache: &str, book_id: &str, bytes: &[u8]) -> (r: String)
    ensures
        r@ == cover_cache_spec(cache@, book_id@, bytes@),
{
    let ext = match sniff_image_ext(bytes) {
        Some(e) => e,
        None => "bin",
    };
    let mut name = book_id.to_owned();
    name.append(".");
    name.append(ext);
    let dir = join(join(cache, "shellbooks").as_str(), "covers");
    join(dir.as_str(), name.as_str())
}

/// The cover a book gets, given the cache directory: a sidecar image first,
/// then embedded artwork (to be cached), else none.
pub open spec fn cover_choice_ok(
    r: CoverChoice,
    cache: Option<Seq<char>>,
    book_id: Seq<char>,
    sidecar: Option<Seq<char>>,
    embedded: Option<Vec<u8>>,
) -> bool {
    match sidecar {
        Some(s) => r matches CoverChoice::Sidecar(p) && p@ == s,
        None => match embedded {
            None => r is Missing,
            Some(bytes) => match cache {
                None => r is Missing,
                Some(c) => r matches CoverChoice::CacheFile(p) && p@ == cover_cache_spec(c, book_id, bytes@),
            },
        },
    }
}

/// Resolves a book's cover under the given cache directory.
pub fn resolve_cover_in(cache: Option<String>, book_id: &str, sidecar: Option<String>, tags: &Tags) -> (r: CoverChoice)
    ensures
        cover_choice_ok(r, opt_view(cache), book_id@, opt_view(sidecar), tags.embedded_cover),
{
    if let Some(s) = sidecar {
        return CoverChoice::Sidecar(s);
    }
    match &tags.embedded_cover {
        None => CoverChoice::Missing,
        Some(bytes) => match cache {
            None => CoverChoice::Missing,
            Some(c) => CoverChoice::CacheFile(cover_cache_path(c.as_str(), book_id, bytes.as_slice())),
        },
    }
}

/// Resolves a book's cover: the sidecar image found next to the book if any,
/// otherwise the embedded artwork, cached under the user's cache directory
/// (which comes from the environment); none when neither is available.
pub fn resolve_cover(book_id: &str, sidecar: Option<String>, tags: &Tags) -> (r: CoverChoice)
    ensures
        exists|cache: Option<Seq<char>>| cover_choice_ok(r, cache, book_id@, opt_view(sidecar), tags.embedded_cover),
{
    let cache = cache_dir();
    let ghost cv = opt_view(cache);
    let ghost sv = opt_view(sidecar);
    let r = resolve_cover_in(cache, book_id, sidecar, tags);
    assert(cover_choice_ok(r, cv, book_id@, sv, tags.embedded_cover));
    r
}

// ---------------------------------------------------------------------
// Chapters and length
// ---------------------------------------------------------------------

/// The files of a book, in queue order.
pub open spec fn book_files(kind: BookKind) -> Seq<String> {
    match kind {
        BookKind::SingleFile { path } => seq![path],
        BookKind::MultiFile { files } => files@,
    }
}

/// The longest `std::time::Duration`, in nanoseconds.
pub open spec fn max_duration_ns() -> nat {
    18_446_744_073_709_551_615_999_999_999
}

/// The sum of lengths.
pub open spec fn sum_lengths(s: Seq<u128>) -> nat
    decreases s.len(),
{
    if s.len() == 0 {
        0
    } else {
        sum_lengths(s.drop_last()) + s.last() as nat
    }
}

proof fn lemma_sum_prefix_mono(s: Seq<u128>, i: int, j: int)
    requires
        0 <= i <= j <= s.len(),
    ensures
        sum_lengths(s.take(i)) <= sum_lengths(s.take(j)),
    decreases j - i,
{
    if i < j {
        lemma_sum_prefix_mono(s, i, j - 1);
        assert(s.take(j).drop_last() =~= s.take(j - 1));
    }
}

/// The label a file gives its chapter: its file name (empty if none).
pub open spec fn file_label(p: Seq<char>) -> Seq<char> {
    match path_file_name(p) {
        Some(n) => n,
        None => Seq::empty(),
    }
}

/// What filling in a book's chapters does, given each file's length and the
/// chapters read from a single file's own chapter list.
pub open spec fn chapters_populated(old_book: Book, new_book: Book, durations: Seq<u128>, embedded: Seq<Chapter>) -> bool {
    &&& match old_book.kind {
        BookKind::SingleFile { .. } => {
            &&& new_book.total_duration == durations[0]
            &&& if embedded.len() == 0 {
                &&& new_book.chapters@.len() == 1
                &&& new_book.chapters@[0].title@ == old_book.title@
                &&& new_book.chapters@[0].file_index == 0
                &&& new_book.chapters@[0].start == 0
                &&& new_book.chapters@[0].duration == durations[0]
            } else {
                new_book.chapters@ == embedded
            }
        },
        BookKind::MultiFile { files } => {
            &&& new_book.total_duration == sum_lengths(durations)
            &&& new_book.chapters@.len() == files@.len()
            &&& forall|i: int|
                0 <= i < files@.len() ==> {
                    let c = #[trigger] new_book.chapters@[i];
                    &&& c.title@ == crate::chapters::clean_title_spec(file_label(files@[i]@))
                    &&& c.file_index == i
                    &&& c.start == 0
                    &&& c.duration == durations[i]
                }
        },
    }
    &&& new_book.id == old_book.id
    &&& new_book.root == old_book.root
    &&& new_book.kind == old_book.kind
    &&& new_book.title == old_book.title
    &&& new_book.author == old_book.author
    &&& new_book.narrator == old_book.narrator
    &&& new_book.series == old_book.series
    &&& new_book.series_index == old_book.series_index
    &&& new_book.year == old_book.year
    &&& new_book.cover_path == old_book.cover_path
    &&& new_book.progress == old_book.progress
    &&& new_book.bookmarks == old_book.bookmarks
}

/// Fills in a book's chapters and total length. `durations[k]` is the length
/// of the book's `k`-th file (0 when unknown); `embedded` holds the chapters
/// of a single-file book's own chapter list (empty when it has none). A
/// single file without chapters becomes one chapter spanning the file; a
/// multi-file book gets one chapter per file.
pub fn populate_chapters(book: &mut Book, durations: &Vec<u128>, embedded: Vec<Chapter>)
    requires
        durations@.len() == book_files(old(book).kind).len(),
        sum_lengths(durations@) <= max_duration_ns(),
    ensures
        chapters_populated(*old(book), *final(book), durations@, embedded@),
{
    let ghost ek = embedded@;
    let (total, chapters) = match &book.kind {
        BookKind::SingleFile { .. } => {
            let total = durations[0];
            let chapters = if embedded.len() == 0 {
                let mut v: Vec<Chapter> = Vec::new();
                v.push(Chapter { title: book.title.clone(), file_index: 0, start: 0, duration: total });
                v
            } else {
                embedded
            };
            (total, chapters)
        },
        BookKind::MultiFile { files } => {
            let mut total: u128 = 0;
            let mut entries: Vec<(String, u128)> = Vec::new();
            let mut i: usize = 0;
            while i < files.len()
                invariant
                    i <= files@.len(),
                    durations@.len() == files@.len(),
                    sum_lengths(durations@) <= max_duration_ns(),
                    total == sum_lengths(durations@.take(i as int)),
                    entries@.len() == i,
                    forall|k: int| 0 <= k < i ==> (#[trigger] entries@[k]).0@ == file_label(files@[k]@)
                        && entries@[k].1 == durations@[k],
                decreases files.len() - i,
            {
                proof {
                    assert(durations@.take(i + 1).drop_last() =~= durations@.take(i as int));
                    lemma_sum_prefix_mono(durations@, i + 1, durations@.len() as int);
                    assert(durations@.take(durations@.len() as int) =~= durations@);
                }
                total = total + durations[i];
                let name = match file_name(files[i].as_str()) {
                    Some(n) => n,
                    None => String::new(),
                };
                entries.push((name, durations[i]));
                i = i + 1;
            }
            assert(durations@.take(durations@.len() as int) =~= durations@);
            let chapters = crate::chapters::synthesize_multi_file(&entries);
            (total, chapters)
        },
    };
    book.total_duration = total;
    book.chapters = chapters;
}

// ---------------------------------------------------------------------
// Ordering
// ---------------------------------------------------------------------

/// The key books are ordered by: the Unicode lower case of the title.
pub open spec fn title_key(b: Book) -> Seq<char> {
    lowercase(b.title@)
}

/// The title keys of a sequence of books.
pub open spec fn title_keys(bs: Seq<Book>) -> Seq<Seq<char>> {
    bs.map_values(|b: Book| title_key(b))
}

/// `out` is `inp` stably sorted by lower-cased title (what
/// `sort_by(|a, b| a.title.to_lowercase().cmp(&b.title.to_lowercase()))` gives).
pub open spec fn is_title_sort(out: Seq<Book>, inp: Seq<Book>) -> bool {
    is_stable_sort(out, title_keys(out), inp, title_keys(inp))
}

/// The characters of each path.
pub open spec fn path_keys(s: Seq<String>) -> Seq<Seq<char>> {
    s.map_values(|f: String| f@)
}

/// `out` is `inp` stably sorted by path (the order of `Vec<PathBuf>::sort`
/// for the entries of one directory).
pub open spec fn is_path_sort(out: Seq<String>, inp: Seq<String>) -> bool {
    is_stable_sort(out, path_keys(out), inp, path_keys(inp))
}

/// Sorts books by lower-cased title, keeping equal titles in their order.
pub fn sort_by_title(books: &mut Vec<Book>)
    ensures
        is_title_sort(final(books)@, old(books)@),
{
    let mut keys: Vec<Vec<char>> = Vec::new();
    let mut i: usize = 0;
    while i < books.len()
        invariant
            i <= books@.len(),
            books@ == old(books)@,
            keys@.len() == i,
            key_seqs(keys@) == title_keys(books@).take(i as int),
        decreases books.len() - i,
    {
        let k = chars_of(to_lowercase(books[i].title.as_str()).as_str());
        let ghost kv = keys@;
        keys.push(k);
        proof {
            assert forall|m: int| 0 <= m < i + 1 implies #[trigger] key_seqs(keys@)[m] == title_keys(
                books@,
            ).take(i + 1)[m] by {
                if m < i {
                    assert(keys@[m] == kv[m]);
                    assert(key_seqs(kv)[m] == title_keys(books@).take(i as int)[m]);
                }
            }
        }
        i = i + 1;
        assert(key_seqs(keys@) =~= title_keys(books@).take(i as int));
    }
    assert(key_seqs(keys@) =~= title_keys(books@));
    let ghost inp = books@;
    let perm = stable_sort_by_keys(books, &mut keys);
    proof {
        let out = books@;
        assert(key_seqs(keys@) =~= title_keys(out)) by {
            assert forall|k: int| 0 <= k < out.len() implies key_seqs(keys@)[k] == title_keys(out)[k] by {
                assert(key_seqs(keys@)[k] == title_keys(inp)[perm@[k]]);
                assert(out[k] == inp[perm@[k]]);
            }
        }
        assert(stable_sort_witness(perm@, out, title_keys(out), inp, title_keys(inp)));
    }
}

/// Sorts paths character by character, keeping equal ones in their order.
pub fn sort_paths(files: &mut Vec<String>)
    ensures
        is_path_sort(final(files)@, old(files)@),
{
    let mut keys: Vec<Vec<char>> = Vec::new();
    let mut i: usize = 0;
    while i < files.len()
        invariant
            i <= files@.len(),
            files@ == old(files)@,
            keys@.len() == i,
            key_seqs(keys@) == path_keys(files@).take(i as int),
        decreases files.len() - i,
    {
        let k = chars_of(files[i].as_str());
        let ghost kv = keys@;
        keys.push(k);
        proof {
            assert forall|m: int| 0 <= m < i + 1 implies #[trigger] key_seqs(keys@)[m] == path_keys(
                files@,
            ).take(i + 1)[m] by {
                if m < i {
                    assert(keys@[m] == kv[m]);
                    assert(key_seqs(kv)[m] == path_keys(files@).take(i as int)[m]);
                }
            }
        }
        i = i + 1;
        assert(key_seqs(keys@) =~= path_keys(files@).take(i as int));
    }
    assert(key_seqs(keys@) =~= path_keys(files@));
    let ghost inp = files@;
    let perm = stable_sort_by_keys(files, &mut keys);
    proof {
        let out = files@;
        assert(key_seqs(keys@) =~= path_keys(out)) by {
            assert forall|k: int| 0 <= k < out.len() implies key_seqs(keys@)[k] == path_keys(out)[k] by {
                assert(key_seqs(keys@)[k] == path_keys(inp)[perm@[k]]);
                assert(out[k] == inp[perm@[k]]);
            }
        }
        assert(stable_sort_witness(perm@, out, path_keys(out), inp, path_keys(inp)));
    }
}

// ---------------------------------------------------------------------
// Importing
// ---------------------------------------------------------------------

/// Why a path cannot be imported.
#[derive(Debug, Clone, Copy, PartialEq, Eq)]
pub enum ImportError {
    /// A directory with no audio file directly inside it.
    NoAudioFiles,
    /// Neither a directory nor an audio file.
    NotAudio,
}

/// What importing a path will add: the book's root and its audio files.
#[derive(Debug, Clone)]
pub struct ImportPlan {
    pub root: String,
    pub files: Vec<String>,
}

/// The audio files among `s`, in order.
pub open spec fn audio_only(s: Seq<String>) -> Seq<String>
    decreases s.len(),
{
    if s.len() == 0 {
        s
    } else if is_audio_path(s.last()@) {
        audio_only(s.drop_last()).push(s.last())
    } else {
        audio_only(s.drop_last())
    }
}

/// The root a single file is imported under: its parent directory (so that
/// importing the file and importing its directory give the same book id),
/// or the path itself when it has no parent.
pub open spec fn import_root(path: Seq<char>) -> Seq<char> {
    match path_parent(path) {
        Some(p) => p,
        None => path,
    }
}

/// Decides what importing `path` adds. For a directory (`is_dir`), `dir_files`
/// are the regular files directly inside it: the book is the directory with
/// its audio files sorted by path, and an error when there are none. For a
/// file, the book is that single audio file under its parent directory.
pub fn plan_import(path: &str, is_dir: bool, dir_files: Vec<String>) -> (r: Result<ImportPlan, ImportError>)
    ensures
        is_dir && audio_only(dir_files@).len() == 0 ==> r == Err::<ImportPlan, ImportError>(
            ImportError::NoAudioFiles,
        ),
        is_dir && audio_only(dir_files@).len() > 0 ==> (r matches Ok(plan) && plan.root@ == path@
            && is_path_sort(plan.files@, audio_only(dir_files@))),
        !is_dir && is_audio_path(path@) ==> (r matches Ok(plan) && plan.root@ == import_root(path@)
            && plan.files@.len() == 1 && plan.files@[0]@ == path@),
        !is_dir && !is_audio_path(path@) ==> r == Err::<ImportPlan, ImportError>(
            ImportError::NotAudio,
        ),
{
    if is_dir {
        let mut files: Vec<String> = Vec::new();
        let mut i: usize = 0;
        while i < dir_files.len()
            invariant
                i <= dir_files@.len(),
                files@ == audio_only(dir_files@.take(i as int)),
            decreases dir_files.len() - i,
        {
            proof {
                assert(dir_files@.take(i + 1).drop_last() =~= dir_files@.take(i as int));
            }
            if is_audio_file(dir_files[i].as_str()) {
                files.push(dir_files[i].clone());
                assert(files@ =~= audio_only(dir_files@.take(i + 1)));
            }
            i = i + 1;
        }
        assert(dir_files@.take(dir_files@.len() as int) =~= dir_files@);
        if files.len() == 0 {
            return Err(ImportError::NoAudioFiles);
        }
        sort_paths(&mut files);
        Ok(ImportPlan { root: path.to_owned(), files })
    } else if is_audio_file(path) {
        let root = match parent(path) {
            Some(p) => p,
            None => path.to_owned(),
        };
        let mut files: Vec<String> = Vec::new();
        files.push(path.to_owned());
        Ok(ImportPlan { root, files })
    } else {
        Err(ImportError::NotAudio)
    }
}

/// Some book has this id.
pub open spec fn has_id(bs: Seq<Book>, id: Seq<char>) -> bool {
    exists|i: int| 0 <= i < bs.len() && (#[trigger] bs[i]).id@ == id
}

/// `i` is the first position of a book with this id.
pub open spec fn is_first_id(bs: Seq<Book>, id: Seq<char>, i: int) -> bool {
    &&& 0 <= i < bs.len()
    &&& bs[i].id@ == id
    &&& forall|j: int| 0 <= j < i ==> (#[trigger] bs[j]).id@ != id
}

/// The outcome of importing `book` into `old`, giving `new` and the index
/// `r`: a book already in the library (same id) leaves it as it is and gives
/// that book's index; otherwise the book joins, the library is re-sorted by
/// title, and the index is the new book's position.
pub open spec fn import_outcome(old: Seq<Book>, book: Book, new: Seq<Book>, r: int) -> bool {
    if has_id(old, book.id@) {
        new == old && is_first_id(old, book.id@, r)
    } else {
        &&& is_title_sort(new, old.push(book))
        &&& 0 <= r < new.len()
        &&& new[r] == book
    }
}

/// In a title sort of `old.push(b)`, `b` sits at position `q`, and every
/// other position `j` holds the book `old[p[j]]`.
proof fn lemma_title_sort_push(new: Seq<Book>, old: Seq<Book>, b: Book) -> (r: (int, Seq<int>))
    requires
        is_title_sort(new, old.push(b)),
    ensures
        0 <= r.0 < new.len(),
        new[r.0] == b,
        new.len() == old.len() + 1,
        forall|j: int|
            0 <= j < new.len() && j != r.0 ==> 0 <= #[trigger] r.1[j] < old.len() && new[j]
                == old[r.1[j]],
{
    let s = old.push(b);
    let p = choose|p: Seq<int>| stable_sort_witness(p, new, title_keys(new), s, title_keys(s));
    let n = old.len() as int;
    assert(crate::sort::perm_hits(p, n));
    let q = choose|k: int| 0 <= k < p.len() && #[trigger] p[k] == n;
    assert(new[q] == s[n]);
    assert forall|j: int| 0 <= j < new.len() && j != q implies 0 <= #[trigger] p[j] < old.len()
        && new[j] == old[p[j]] by {
        assert(p[j] != p[q]) by {
            if j < q {
                assert(p[j] != p[q]);
            } else {
                assert(p[q] != p[j]);
            }
        }
        assert(new[j] == s[p[j]]);
    }
    (q, p)
}

/// Law: importing a book twice (the second time a book with the same id)
/// gives the same index both times and leaves the library as the first
/// import left it.
pub proof fn law_import_idempotent(
    lib0: Seq<Book>,
    book: Book,
    again: Book,
    lib1: Seq<Book>,
    r1: int,
    lib2: Seq<Book>,
    r2: int,
)
    requires
        again.id@ == book.id@,
        import_outcome(lib0, book, lib1, r1),
        import_outcome(lib1, again, lib2, r2),
    ensures
        lib2 == lib1,
        r2 == r1,
        0 <= r1 < lib1.len(),
        lib1[r1].id@ == book.id@,
{
    if has_id(lib0, book.id@) {
        assert(lib1 == lib0);
        assert(r2 == r1);
    } else {
        let (q, p) = lemma_title_sort_push(lib1, lib0, book);
        assert forall|j: int| 0 <= j < lib1.len() && j != q implies (#[trigger] lib1[j]).id@
            != book.id@ by {
            let k = p[j];
            if lib0[k].id@ == book.id@ {
                assert(has_id(lib0, book.id@));
            }
        }
        assert(r1 == q) by {
            if r1 != q {
                assert(lib1[r1].id@ != book.id@);
            }
        }
        assert(has_id(lib1, book.id@)) by {
            assert(lib1[q].id@ == book.id@);
        }
        assert(r2 == q);
    }
}

impl Library {
    /// The index of the first book with this id.
    pub fn find_book(&self, id: &str) -> (r: Option<usize>)
        ensures
            match r {
                Some(i) => is_first_id(self.books@, id@, i as int),
                None => !has_id(self.books@, id@),
            },
    {
        let mut i: usize = 0;
        while i < self.books.len()
            invariant
                i <= self.books@.len(),
                forall|j: int| 0 <= j < i ==> (#[trigger] self.books@[j]).id@ != id@,
            decreases self.books.len() - i,
        {
            if str_eq(self.books[i].id.as_str(), id) {
                return Some(i);
            }
            i = i + 1;
        }
        None
    }

    /// Adds an imported book (see `import_outcome`): a book whose id is
    /// already present is not added twice, and the index returned is that of
    /// the imported book.
    pub fn import_book(&mut self, book: Book) -> (r: usize)
        ensures
            import_outcome(old(self).books@, book, final(self).books@, r as int),
    {
        if let Some(i) = self.find_book(book.id.as_str()) {
            return i;
        }
        let ghost old_books = self.books@;
        let ghost gb = book;
        let id = book.id.clone();
        self.books.push(book);
        sort_by_title(&mut self.books);
        proof {
            let (q, p) = lemma_title_sort_push(self.books@, old_books, gb);
            assert forall|j: int| 0 <= j < self.books@.len() && j != q implies (
            #[trigger] self.books@[j]).id@ != gb.id@ by {
                let k = p[j];
                if old_books[k].id@ == gb.id@ {
                    assert(has_id(old_books, gb.id@));
                }
            }
            assert(has_id(self.books@, id@)) by {
                assert(self.books@[q].id@ == id@);
            }
        }
        match self.find_book(id.as_str()) {
            Some(i) => {
                proof {
                    let (q, p) = lemma_title_sort_push(self.books@, old_books, gb);
                    if i as int != q {
                        let k = p[i as int];
                        assert(old_books[k].id@ == gb.id@);
                        assert(has_id(old_books, gb.id@));
                    }
                }
                i
            },
            None => {
                // Not reached: the book was just added.
                proof {
                    let (q, p) = lemma_title_sort_push(self.books@, old_books, gb);
                    assert(self.books@[q].id@ == id@);
                }
                0
            },
        }
    }
}

// ---------------------------------------------------------------------
// Rescanning
// ---------------------------------------------------------------------

/// `k` is the last position of a book with this id.
pub open spec fn is_last_id(bs: Seq<Book>, id: Seq<char>, k: int) -> bool {
    &&& 0 <= k < bs.len()
    &&& bs[k].id@ == id
    &&& forall|j: int| k < j < bs.len() ==> (#[trigger] bs[j]).id@ != id
}

/// No book before position `i` of `found` has the id of `found[i]`.
pub open spec fn first_occurrence(found: Seq<Book>, i: int) -> bool {
    forall|j: int| 0 <= j < i ==> (#[trigger] found[j]).id@ != found[i].id@
}

/// A found book after merging: the first found book with an id takes the
/// progress and bookmarks of the last known book with that id; any other
/// found book is kept as found.
pub open spec fn merged_book(old: Seq<Book>, found: Seq<Book>, i: int) -> Book {
    let b = found[i];
    if first_occurrence(found, i) && has_id(old, b.id@) {
        let k = choose|k: int| is_last_id(old, b.id@, k);
        carry_over(b, old[k])
    } else {
        b
    }
}

/// `b` with the progress and bookmarks of `from`.
pub open spec fn carry_over(b: Book, from: Book) -> Book {
    Book { progress: from.progress, bookmarks: from.bookmarks, ..b }
}

/// All found books after merging with the known ones.
pub open spec fn merged_books(old: Seq<Book>, found: Seq<Book>) -> Seq<Book> {
    Seq::new(found.len(), |i: int| merged_book(old, found, i))
}

proof fn lemma_last_id_unique(bs: Seq<Book>, id: Seq<char>, k1: int, k2: int)
    requires
        is_last_id(bs, id, k1),
        is_last_id(bs, id, k2),
    ensures
        k1 == k2,
{
    if k1 < k2 {
        assert(bs[k2].id@ != id);
    } else if k2 < k1 {
        assert(bs[k1].id@ != id);
    }
}

fn slot_has_id(slot: &Option<Book>, id: &str) -> (r: bool)
    ensures
        r == (slot matches Some(b) && b.id@ == id@),
{
    match slot {
        Some(b) => str_eq(b.id.as_str(), id),
        None => false,
    }
}

impl Library {
    /// Replaces the books with those a rescan found (see `merged_books`):
    /// books already known keep their progress and bookmarks, books no longer
    /// found are dropped, and the result is sorted by title.
    pub fn scan(&mut self, found: Vec<Book>)
        ensures
            is_title_sort(final(self).books@, merged_books(old(self).books@, found@)),
    {
        let mut olds: Vec<Book> = Vec::new();
        std::mem::swap(&mut olds, &mut self.books);
        let ghost ob = olds@;
        let n = olds.len();
        let mut slots: Vec<Option<Book>> = Vec::new();
        while olds.len() > 0
            invariant
                olds@.len() + slots@.len() == n,
                ob.len() == n,
                olds@ == ob.take(olds@.len() as int),
                forall|k: int| 0 <= k < slots@.len() ==> #[trigger] slots@[k] == Some(ob[k + olds@.len()]),
            decreases olds.len(),
        {
            let ghost before = slots@;
            let b = olds.pop().unwrap();
            slots.insert(0, Some(b));
            proof {
                assert(olds@ =~= ob.take(olds@.len() as int));
                assert forall|k: int| 0 <= k < slots@.len() implies #[trigger] slots@[k] == Some(
                    ob[k + olds@.len()],
                ) by {
                    if k > 0 {
                        assert(slots@[k] == before[k - 1]);
                    }
                }
            }
        }
        let ghost fs = found@;
        let mut found = found;
        let mut out: Vec<Book> = Vec::new();
        let mut seen: Vec<String> = Vec::new();
        while found.len() > 0
            invariant
                slots@.len() == n,
                ob.len() == n,
                out@.len() + found@.len() == fs.len(),
                found@ == fs.skip(out@.len() as int),
                seen@.len() == out@.len(),
                forall|m: int| 0 <= m < seen@.len() ==> (#[trigger] seen@[m])@ == fs[m].id@,
                forall|m: int| 0 <= m < out@.len() ==> #[trigger] out@[m] == merged_book(ob, fs, m),
                forall|k: int| 0 <= k < n && (#[trigger] slots@[k]) is Some ==> slots@[k] == Some(ob[k]),
                forall|k: int| 0 <= k < n && (#[trigger] slots@[k]) is None ==> exists|m: int|
                    0 <= m < seen@.len() && (#[trigger] seen@[m])@ == ob[k].id@,
            decreases found.len(),
        {
            let ghost i = out@.len() as int;
            let mut b = found.remove(0);
            assert(b == fs[i]);
            proof {
                assert(found@ =~= fs.skip(i + 1));
            }
            let mut first = true;
            let mut m: usize = 0;
            while m < seen.len()
                invariant
                    m <= seen@.len(),
                    first ==> forall|j: int| 0 <= j < m ==> (#[trigger] seen@[j])@ != b.id@,
                    !first ==> exists|j: int| 0 <= j < seen@.len() && (#[trigger] seen@[j])@ == b.id@,
                decreases seen.len() - m,
            {
                if str_eq(seen[m].as_str(), b.id.as_str()) {
                    first = false;
                }
                m = m + 1;
            }
            proof {
                if first {
                    assert forall|j: int| 0 <= j < i implies (#[trigger] fs[j]).id@ != fs[i].id@ by {
                        assert(seen@[j]@ == fs[j].id@);
                    }
                } else {
                    let j = choose|j: int| 0 <= j < seen@.len() && (#[trigger] seen@[j])@ == b.id@;
                    assert(fs[j].id@ == fs[i].id@);
                    assert(!first_occurrence(fs, i));
                }
            }
            if first {
                let mut k: usize = n;
                while k > 0 && !slot_has_id(&slots[k - 1], b.id.as_str())
                    invariant
                        k <= n,
                        slots@.len() == n,
                        ob.len() == n,
                        first_occurrence(fs, i),
                        b == fs[i],
                        seen@.len() == i,
                        forall|m: int| 0 <= m < seen@.len() ==> (#[trigger] seen@[m])@ == fs[m].id@,
                        forall|k: int| 0 <= k < n && (#[trigger] slots@[k]) is Some ==> slots@[k] == Some(ob[k]),
                        forall|k: int| 0 <= k < n && (#[trigger] slots@[k]) is None ==> exists|m: int|
                            0 <= m < seen@.len() && (#[trigger] seen@[m])@ == ob[k].id@,
                        forall|j: int| k <= j < n ==> (#[trigger] ob[j]).id@ != b.id@,
                    decreases k,
                {
                    proof {
                        let j = k - 1;
                        if slots@[j] is None {
                            let mm = choose|mm: int| 0 <= mm < seen@.len() && (#[trigger] seen@[mm])@ == ob[j].id@;
                            assert(fs[mm].id@ != fs[i].id@);
                        }
                    }
                    k = k - 1;
                }
                if k > 0 {
                    let ghost before = slots@;
                    let taken = slots.remove(k - 1);
                    slots.insert(k - 1, None);
                    proof {
                        assert(slots@ =~= before.update(k - 1, None));
                        assert(is_last_id(ob, b.id@, k - 1));
                        assert(has_id(ob, b.id@));
                        let kk = choose|kk: int| is_last_id(ob, b.id@, kk);
                        lemma_last_id_unique(ob, b.id@, kk, k - 1);
                        assert forall|k2: int| 0 <= k2 < n && (#[trigger] slots@[k2]) is None implies exists|m: int|
                            0 <= m < seen@.len() + 1 && (#[trigger] seen@.push(b.id)[m])@ == ob[k2].id@ by {
                            if k2 == k - 1 {
                                assert(seen@.push(b.id)[i] == b.id);
                            } else {
                                let mm = choose|mm: int| 0 <= mm < seen@.len() && (#[trigger] seen@[mm])@ == ob[k2].id@;
                                assert(seen@.push(b.id)[mm] == seen@[mm]);
                            }
                        }
                    }
                    if let Some(old_book) = taken {
                        b.progress = old_book.progress;
                        b.bookmarks = old_book.bookmarks;
                    }
                } else {
                    proof {
                        assert(!has_id(ob, b.id@));
                    }
                }
            }
            let ghost sb = seen@;
            seen.push(b.id.clone());
            out.push(b);
            proof {
                assert forall|k2: int| 0 <= k2 < n && (#[trigger] slots@[k2]) is None implies exists|m: int|
                    0 <= m < seen@.len() && (#[trigger] seen@[m])@ == ob[k2].id@ by {
                    if exists|m: int| 0 <= m < sb.len() && (#[trigger] sb[m])@ == ob[k2].id@ {
                        let mm = choose|mm: int| 0 <= mm < sb.len() && (#[trigger] sb[mm])@ == ob[k2].id@;
                        assert(seen@[mm] == sb[mm]);
                    } else {
                        assert(seen@[i]@ == ob[k2].id@);
                    }
                }
            }
        }
        proof {
            assert(out@ =~= merged_books(ob, fs));
        }
        self.books = out;
        sort_by_title(&mut self.books);
    }
}

// ---------------------------------------------------------------------
// Grouping files found under a library root
// ---------------------------------------------------------------------

/// File names that are never audio: macOS resource forks and folder
/// metadata, Windows thumbnail caches.
pub open spec fn is_junk_name(n: Seq<char>) -> bool {
    has_prefix(n, "._"@) || n == ".DS_Store"@ || n == "Thumbs.db"@
}

/// A path inside a macOS archive metadata folder: one of its components is
/// `__MACOSX`.
pub open spec fn in_macos_metadata_spec(p: Seq<char>) -> bool {
    path_components(p).contains("__MACOSX"@)
}

/// Whether a path lies inside a macOS archive metadata folder, which a
/// library walk skips (see `in_macos_metadata_spec`).
pub fn in_macos_metadata(p: &str) -> (r: bool)
    ensures
        r == in_macos_metadata_spec(p@),
{
    let cs = components(p);
    let marker = chars_of("__MACOSX");
    let mut k: usize = 0;
    while k < cs.len()
        invariant
            cs@.len() == path_components(p@).len(),
            forall|m: int| 0 <= m < cs@.len() ==> (#[trigger] cs@[m])@ == path_components(p@)[m],
            marker@ == "__MACOSX"@,
            k <= cs@.len(),
            forall|m: int| 0 <= m < k ==> path_components(p@)[m] != "__MACOSX"@,
        decreases cs.len() - k,
    {
        if chars_eq(&cs[k], &marker) {
            assert(path_components(p@)[k as int] == "__MACOSX"@);
            return true;
        }
        assert(cs@[k as int]@ == path_components(p@)[k as int]);
        k = k + 1;
    }
    proof {
        if path_components(p@).contains("__MACOSX"@) {
            let m = choose|m: int| 0 <= m < path_components(p@).len() && path_components(p@)[m]
                == "__MACOSX"@;
            assert(path_components(p@)[m] != "__MACOSX"@);
        }
    }
    false
}

/// A file that belongs to a book: not junk, an audio file, with a parent.
pub open spec fn is_book_file(p: Seq<char>) -> bool {
    &&& match path_file_name(p) {
        Some(n) => !is_junk_name(n),
        None => true,
    }
    &&& is_audio_path(p)
    &&& path_parent(p) is Some
}

/// The book files among `paths` whose parent is `dir`, in order.
pub open spec fn files_in(paths: Seq<String>, dir: Seq<char>) -> Seq<String>
    decreases paths.len(),
{
    if paths.len() == 0 {
        paths
    } else {
        let p = paths.last();
        if is_book_file(p@) && path_parent(p@) == Some(dir) {
            files_in(paths.drop_last(), dir).push(p)
        } else {
            files_in(paths.drop_last(), dir)
        }
    }
}

/// One book's worth of files: a directory and the audio files directly in it.
#[derive(Debug, Clone)]
pub struct BookGroup {
    pub dir: String,
    pub files: Vec<String>,
}

/// `groups` holds, for each directory that directly contains book files
/// among `paths`, exactly one group with those files (`files_of` of them).
pub open spec fn groups_cover(
    groups: Seq<BookGroup>,
    paths: Seq<String>,
    files_of: spec_fn(Seq<String>, Seq<String>) -> bool,
) -> bool {
    &&& forall|a: int, b: int|
        0 <= a < b < groups.len() ==> (#[trigger] groups[a]).dir@ != (#[trigger] groups[b]).dir@
    &&& forall|g: int|
        0 <= g < groups.len() ==> files_of(
            (#[trigger] groups[g]).files@,
            files_in(paths, groups[g].dir@),
        )
    &&& forall|g: int| 0 <= g < groups.len() ==> (#[trigger] groups[g]).files@.len() > 0
    &&& forall|i: int|
        0 <= i < paths.len() && is_book_file((#[trigger] paths[i])@) ==> exists|g: int|
            0 <= g < groups.len() && Some((#[trigger] groups[g]).dir@) == path_parent(paths[i]@)
}

fn is_junk_file_name(n: &String) -> (r: bool)
    ensures
        r == is_junk_name(n@),
{
    let cs = chars_of(n.as_str());
    crate::text::starts_with(&cs, &chars_of("._")) || chars_eq(&cs, &chars_of(".DS_Store"))
        || chars_eq(&cs, &chars_of("Thumbs.db"))
}

/// The parent directory of `p` when it is a file that belongs to a book.
fn book_file_parent(p: &str) -> (r: Option<String>)
    ensures
        match r {
            Some(d) => is_book_file(p@) && path_parent(p@) == Some(d@),
            None => !is_book_file(p@),
        },
{
    if let Some(n) = file_name(p) {
        if is_junk_file_name(&n) {
            return None;
        }
    }
    if !is_audio_file(p) {
        return None;
    }
    parent(p)
}

proof fn lemma_files_in_step(paths: Seq<String>, i: int, dir: Seq<char>)
    requires
        0 <= i < paths.len(),
    ensures
        files_in(paths.take(i + 1), dir) == (if is_book_file(paths[i]@) && path_parent(paths[i]@)
            == Some(dir) {
            files_in(paths.take(i), dir).push(paths[i])
        } else {
            files_in(paths.take(i), dir)
        }),
{
    assert(paths.take(i + 1).drop_last() =~= paths.take(i));
    assert(paths.take(i + 1).last() == paths[i]);
}

proof fn lemma_files_in_empty(paths: Seq<String>, dir: Seq<char>)
    requires
        forall|i: int|
            0 <= i < paths.len() && is_book_file((#[trigger] paths[i])@) ==> path_parent(paths[i]@)
                != Some(dir),
    ensures
        files_in(paths, dir).len() == 0,
    decreases paths.len(),
{
    if paths.len() > 0 {
        assert forall|i: int|
            0 <= i < paths.drop_last().len() && is_book_file((#[trigger] paths.drop_last()[i])@)
                implies path_parent(paths.drop_last()[i]@) != Some(dir) by {
            assert(paths.drop_last()[i] == paths[i]);
        }
        lemma_files_in_empty(paths.drop_last(), dir);
    }
}

/// Groups the files found under a library root into books: every directory
/// that directly contains audio files is one book, with its files sorted by
/// path. Junk files (see `is_junk_name`) and non-audio files are left out.
pub fn group_audio_files(paths: &Vec<String>) -> (r: Vec<BookGroup>)
    ensures
        groups_cover(r@, paths@, |f: Seq<String>, a: Seq<String>| is_path_sort(f, a)),
{
    let mut groups: Vec<BookGroup> = Vec::new();
    let mut i: usize = 0;
    while i < paths.len()
        invariant
            i <= paths@.len(),
            groups_cover(groups@, paths@.take(i as int), |f: Seq<String>, a: Seq<String>| f == a),
        decreases paths.len() - i,
    {
        let ghost pre = paths@.take(i as int);
        let ghost post = paths@.take(i + 1);
        let ghost before = groups@;
        proof {
            assert forall|d: Seq<char>| true implies files_in(post, d) == (if is_book_file(paths@[i as int]@)
                && path_parent(paths@[i as int]@) == Some(d) {
                files_in(pre, d).push(paths@[i as int])
            } else {
                files_in(pre, d)
            }) by {
                lemma_files_in_step(paths@, i as int, d);
            }
            assert forall|k: int| 0 <= k < pre.len() implies #[trigger] pre[k] == post[k] by {}
        }
        match book_file_parent(paths[i].as_str()) {
            None => {
                proof {
                    assert forall|k: int|
                        0 <= k < post.len() && is_book_file((#[trigger] post[k])@) implies exists|g: int|
                        0 <= g < groups@.len() && Some((#[trigger] groups@[g]).dir@) == path_parent(
                            post[k]@,
                        ) by {
                        assert(k < i);
                        assert(pre[k] == post[k]);
                    }
                }
            },
            Some(d) => {
                let mut g: usize = 0;
                while g < groups.len() && !str_eq(groups[g].dir.as_str(), d.as_str())
                    invariant
                        g <= groups@.len(),
                        forall|h: int| 0 <= h < g ==> (#[trigger] groups@[h]).dir@ != d@,
                    decreases groups.len() - g,
                {
                    g = g + 1;
                }
                if g < groups.len() {
                    let mut grp = groups.remove(g);
                    grp.files.push(paths[i].clone());
                    groups.insert(g, grp);
                    proof {
                        assert(groups@ =~= before.update(g as int, groups@[g as int]));
                        assert forall|a: int, b: int| 0 <= a < b < groups@.len() implies (
                        #[trigger] groups@[a]).dir@ != (#[trigger] groups@[b]).dir@ by {
                            assert(before[a].dir@ != before[b].dir@);
                        }
                        assert forall|h: int| 0 <= h < groups@.len() implies (#[trigger] groups@[h]).files@
                            == files_in(post, groups@[h].dir@) by {
                            if h != g {
                                assert(before[h].dir@ != d@);
                            }
                        }
                        assert forall|k: int|
                            0 <= k < post.len() && is_book_file((#[trigger] post[k])@) implies exists|h: int|
                            0 <= h < groups@.len() && Some((#[trigger] groups@[h]).dir@) == path_parent(
                                post[k]@,
                            ) by {
                            if k < i {
                                assert(pre[k] == post[k]);
                                let h = choose|h: int|
                                    0 <= h < before.len() && Some((#[trigger] before[h]).dir@)
                                        == path_parent(pre[k]@);
                                assert(groups@[h].dir@ == before[h].dir@);
                            } else {
                                assert(groups@[g as int].dir@ == d@);
                            }
                        }
                    }
                } else {
                    let mut files: Vec<String> = Vec::new();
                    files.push(paths[i].clone());
                    groups.push(BookGroup { dir: d, files });
                    proof {
                        let dv = groups@[g as int].dir@;
                        assert forall|k: int|
                            0 <= k < pre.len() && is_book_file((#[trigger] pre[k])@) implies path_parent(
                            pre[k]@,
                        ) != Some(dv) by {
                            let h = choose|h: int|
                                0 <= h < before.len() && Some((#[trigger] before[h]).dir@) == path_parent(
                                    pre[k]@,
                                );
                        }
                        lemma_files_in_empty(pre, dv);
                        assert(groups@[g as int].files@ =~= files_in(post, dv));
                        assert forall|h: int| 0 <= h < groups@.len() implies (#[trigger] groups@[h]).files@
                            == files_in(post, groups@[h].dir@) by {
                            if h < g {
                                assert(groups@[h] == before[h]);
                            }
                        }
                        assert forall|a: int, b: int| 0 <= a < b < groups@.len() implies (
                        #[trigger] groups@[a]).dir@ != (#[trigger] groups@[b]).dir@ by {
                            assert(groups@[a] == before[a]);
                            if b < g {
                                assert(groups@[b] == before[b]);
                            }
                        }
                        assert forall|k: int|
                            0 <= k < post.len() && is_book_file((#[trigger] post[k])@) implies exists|h: int|
                            0 <= h < groups@.len() && Some((#[trigger] groups@[h]).dir@) == path_parent(
                                post[k]@,
                            ) by {
                            if k < i {
                                assert(pre[k] == post[k]);
                                let h = choose|h: int|
                                    0 <= h < before.len() && Some((#[trigger] before[h]).dir@)
                                        == path_parent(pre[k]@);
                                assert(groups@[h] == before[h]);
                            } else {
                                assert(groups@[g as int].dir@ == d@);
                            }
                        }
                    }
                }
            },
        }
        i = i + 1;
    }
    assert(paths@.take(paths@.len() as int) =~= paths@);
    let ghost unsorted = groups@;
    let mut g: usize = 0;
    while g < groups.len()
        invariant
            g <= groups@.len(),
            groups@.len() == unsorted.len(),
            groups_cover(unsorted, paths@, |f: Seq<String>, a: Seq<String>| f == a),
            forall|h: int| 0 <= h < groups@.len() ==> (#[trigger] groups@[h]).dir == unsorted[h].dir,
            forall|h: int| 0 <= h < g ==> is_path_sort((#[trigger] groups@[h]).files@, unsorted[h].files@),
            forall|h: int| g <= h < groups@.len() ==> (#[trigger] groups@[h]).files@ == unsorted[h].files@,
        decreases groups.len() - g,
    {
        let ghost before = groups@;
        let mut grp = groups.remove(g);
        sort_paths(&mut grp.files);
        groups.insert(g, grp);
        proof {
            assert(groups@ =~= before.update(g as int, groups@[g as int]));
        }
        g = g + 1;
    }
    proof {
        assert forall|h: int| 0 <= h < groups@.len() implies (#[trigger] groups@[h]).files@.len() > 0 by {
            let sw = choose|p: Seq<int>| crate::sort::stable_sort_witness(
                p,
                groups@[h].files@,
                path_keys(groups@[h].files@),
                unsorted[h].files@,
                path_keys(unsorted[h].files@),
            );
        }
        assert forall|a: int, b: int| 0 <= a < b < groups@.len() implies (#[trigger] groups@[a]).dir@
            != (#[trigger] groups@[b]).dir@ by {
            assert(unsorted[a].dir@ != unsorted[b].dir@);
        }
        assert forall|k: int|
            0 <= k < paths@.len() && is_book_file((#[trigger] paths@[k])@) implies exists|h: int|
            0 <= h < groups@.len() && Some((#[trigger] groups@[h]).dir@) == path_parent(paths@[k]@) by {
            let h = choose|h: int|
                0 <= h < unsorted.len() && Some((#[trigger] unsorted[h]).dir@) == path_parent(paths@[k]@);
            assert(groups@[h].dir == unsorted[h].dir);
        }
        assert forall|h: int| 0 <= h < groups@.len() implies is_path_sort(
            (#[trigger] groups@[h]).files@,
            files_in(paths@, groups@[h].dir@),
        ) by {
            assert(unsorted[h].files@ == files_in(paths@, unsorted[h].dir@));
        }
    }
    groups
}

/// Every position of a title sort holds an input book, and every input book
/// sits at some position.
proof fn lemma_title_sort_members(out: Seq<Book>, inp: Seq<Book>) -> (p: Seq<int>)
    requires
        is_title_sort(out, inp),
    ensures
        out.len() == inp.len(),
        forall|j: int| 0 <= j < out.len() ==> 0 <= #[trigger] p[j] < inp.len() && out[j] == inp[p[j]],
        forall|i: int| 0 <= i < inp.len() ==> #[trigger] crate::sort::perm_hits(p, i),
        p.len() == out.len(),
{
    let p = choose|p: Seq<int>| stable_sort_witness(p, out, title_keys(out), inp, title_keys(inp));
    p
}

/// Law: a rescan keeps what the user had in a book it already knew: the
/// first found book with a known id comes out with the progress and
/// bookmarks of the last known book with that id.
pub proof fn law_scan_keeps_progress(old: Seq<Book>, found: Seq<Book>, new: Seq<Book>, i: int, k: int)
    requires
        is_title_sort(new, merged_books(old, found)),
        0 <= i < found.len(),
        first_occurrence(found, i),
        is_last_id(old, found[i].id@, k),
    ensures
        exists|j: int| 0 <= j < new.len() && #[trigger] new[j] == carry_over(found[i], old[k]),
{
    let m = merged_books(old, found);
    let p = lemma_title_sort_members(new, m);
    assert(has_id(old, found[i].id@));
    let kk = choose|kk: int| is_last_id(old, found[i].id@, kk);
    lemma_last_id_unique(old, found[i].id@, kk, k);
    assert(crate::sort::perm_hits(p, i));
    let j = choose|j: int| 0 <= j < p.len() && #[trigger] p[j] == i;
    assert(new[j] == m[i]);
}

/// Law: a rescan keeps no book it did not find: there are as many books as
/// were found, and each is a found book, changed at most in its progress and
/// bookmarks.
pub proof fn law_scan_keeps_only_found(old: Seq<Book>, found: Seq<Book>, new: Seq<Book>, j: int)
    requires
        is_title_sort(new, merged_books(old, found)),
        0 <= j < new.len(),
    ensures
        new.len() == found.len(),
        exists|i: int| 0 <= i < found.len() && #[trigger] found[i] == carry_over(new[j], found[i]),
{
    let m = merged_books(old, found);
    let p = lemma_title_sort_members(new, m);
    let i = p[j];
    assert(new[j] == m[i]);
    assert(found[i] == carry_over(new[j], found[i]));
}

/// Law: after a rescan every book is a found book, field for field (its id,
/// root, files, title, tags, length and chapters are what was found on
/// disk); only its progress and bookmarks may come from elsewhere. There are
/// as many books as were found.
pub proof fn law_scan_books_are_found_books(old: Seq<Book>, found: Seq<Book>, new: Seq<Book>, j: int)
    requires
        is_title_sort(new, merged_books(old, found)),
        0 <= j < new.len(),
    ensures
        new.len() == found.len(),
        exists|i: int|
            0 <= i < found.len() && {
                &&& new[j].id == (#[trigger] found[i]).id
                &&& new[j].root == found[i].root
                &&& new[j].kind == found[i].kind
                &&& new[j].title == found[i].title
                &&& new[j].author == found[i].author
                &&& new[j].narrator == found[i].narrator
                &&& new[j].series == found[i].series
                &&& new[j].series_index == found[i].series_index
                &&& new[j].year == found[i].year
                &&& new[j].cover_path == found[i].cover_path
                &&& new[j].total_duration == found[i].total_duration
                &&& new[j].chapters == found[i].chapters
            },
{
    let m = merged_books(old, found);
    let p = lemma_title_sort_members(new, m);
    let i = p[j];
    assert(new[j] == m[i]);
    assert(new[j].kind == found[i].kind);
}

/// Law: a book a rescan finds again, when it is the first found with its id,
/// keeps the progress and bookmarks of the last known book with that id, and
/// everything else as found.
pub proof fn law_scan_carries_progress(old: Seq<Book>, found: Seq<Book>, new: Seq<Book>, i: int, k: int)
    requires
        is_title_sort(new, merged_books(old, found)),
        0 <= i < found.len(),
        forall|m: int| 0 <= m < i ==> (#[trigger] found[m]).id@ != found[i].id@,
        0 <= k < old.len(),
        old[k].id@ == found[i].id@,
        forall|m: int| k < m < old.len() ==> (#[trigger] old[m]).id@ != found[i].id@,
    ensures
        exists|j: int|
            0 <= j < new.len() && {
                &&& (#[trigger] new[j]).id == found[i].id
                &&& new[j].root == found[i].root
                &&& new[j].kind == found[i].kind
                &&& new[j].title == found[i].title
                &&& new[j].author == found[i].author
                &&& new[j].narrator == found[i].narrator
                &&& new[j].series == found[i].series
                &&& new[j].series_index == found[i].series_index
                &&& new[j].year == found[i].year
                &&& new[j].cover_path == found[i].cover_path
                &&& new[j].total_duration == found[i].total_duration
                &&& new[j].chapters == found[i].chapters
                &&& new[j].progress == old[k].progress
                &&& new[j].bookmarks == old[k].bookmarks
            },
{
    law_scan_keeps_progress(old, found, new, i, k);
    let j = choose|j: int| 0 <= j < new.len() && #[trigger] new[j] == carry_over(found[i], old[k]);
    assert(new[j].kind == found[i].kind);
}

/// Law: books sorted by title are in non-decreasing order of their
/// lower-cased titles.
pub proof fn law_title_sort_orders_titles(books: Seq<Book>, inp: Seq<Book>)
    requires
        is_title_sort(books, inp),
    ensures
        books.len() == inp.len(),
        forall|j: int, k: int|
            0 <= j < k < books.len() ==> crate::text::seq_le(
                lowercase((#[trigger] books[j]).title@),
                lowercase((#[trigger] books[k]).title@),
            ),
{
    let p = choose|p: Seq<int>| stable_sort_witness(p, books, title_keys(books), inp, title_keys(inp));
    assert forall|j: int, k: int| 0 <= j < k < books.len() implies crate::text::seq_le(
        lowercase((#[trigger] books[j]).title@),
        lowercase((#[trigger] books[k]).title@),
    ) by {
        assert(title_keys(books)[j] == lowercase(books[j].title@));
        assert(title_keys(books)[k] == lowercase(books[k].title@));
    }
}

/// Law: an import of a book with a new id adds exactly that book, keeps every
/// book that was there, leaves the books in order of lower-cased title, and
/// returns the new book's position; a book whose id is already present
/// changes nothing and its position is returned.
pub proof fn law_import_adds_sorted(old: Seq<Book>, book: Book, new: Seq<Book>, r: int)
    requires
        import_outcome(old, book, new, r),
    ensures
        0 <= r < new.len(),
        new[r].id@ == book.id@,
        has_id(old, book.id@) ==> new == old,
        !has_id(old, book.id@) ==> {
            &&& new.len() == old.len() + 1
            &&& new[r] == book
            &&& forall|j: int| 0 <= j < new.len() && j != r ==> old.contains(#[trigger] new[j])
            &&& forall|j: int, k: int|
                0 <= j < k < new.len() ==> crate::text::seq_le(
                    lowercase((#[trigger] new[j]).title@),
                    lowercase((#[trigger] new[k]).title@),
                )
        },
{
    if !has_id(old, book.id@) {
        law_title_sort_orders_titles(new, old.push(book));
        let (q, p) = lemma_title_sort_push(new, old, book);
        assert forall|j: int| 0 <= j < new.len() && j != q implies new[j].id@ != book.id@ by {
            if old[p[j]].id@ == book.id@ {
                assert(has_id(old, book.id@));
            }
        }
        assert(r == q) by {
            if r != q {
                assert(new[r].id@ != book.id@);
            }
        }
        assert forall|j: int| 0 <= j < new.len() && j != r implies old.contains(#[trigger] new[j]) by {
            assert(new[j] == old[p[j]]);
        }
        assert(new.len() == old.len() + 1);
        assert(new[r] == book);
        assert(forall|j: int, k: int|
                0 <= j < k < new.len() ==> crate::text::seq_le(
                    lowercase((#[trigger] new[j]).title@),
                    lowercase((#[trigger] new[k]).title@),
                ));
    }
}

/// Law: after a rescan the books are in non-decreasing order of their
/// lower-cased titles.
pub proof fn law_scan_orders_titles(old: Seq<Book>, found: Seq<Book>, new: Seq<Book>)
    requires
        is_title_sort(new, merged_books(old, found)),
    ensures
        forall|j: int, k: int|
            0 <= j < k < new.len() ==> crate::text::seq_le(
                lowercase((#[trigger] new[j]).title@),
                lowercase((#[trigger] new[k]).title@),
            ),
{
    law_title_sort_orders_titles(new, merged_books(old, found));
}

// ---------------------------------------------------------------------
// Removing
// ---------------------------------------------------------------------

impl Library {
    /// Removes the book at `index` and returns it; `None` (and no change)
    /// when `index` is out of bounds.
    pub fn delete_at(&mut self, index: usize) -> (r: Option<Book>)
        ensures
            index < old(self).books@.len() ==> r == Some(old(self).books@[index as int])
                && final(self).books@ == old(self).books@.remove(index as int),
            index >= old(self).books@.len() ==> r is None && final(self).books@ == old(
                self,
            ).books@,
    {
        if index < self.books.len() {
            Some(self.books.remove(index))
        } else {
            None
        }
    }
}

} // verus!
