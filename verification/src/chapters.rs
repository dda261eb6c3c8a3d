//! Chapter lists: derived from a single file's chapter marks, or one per
//! file for multi-file books with titles cleaned from the file names.
use vstd::prelude::*;
use crate::library::Chapter;
use crate::paths::{find_last, last_index_of, lemma_last_index_of_bounds};
use crate::text::{
    chars_of, decimal_digits, is_digit, push_decimal, skip_ws, string_from_range,
    trim_start,
};

verus! {

/// A chapter mark as a single file's chapter list stores it: an absolute
/// start (nanoseconds) and a title, possibly empty.
#[derive(Debug, Clone)]
pub struct ChapterMark {
    pub start: u128,
    pub title: String,
}

/// The title of the `i`-th (0-based) chapter whose mark title is `t`:
/// `Chapter {i + 1}` when `t` is empty.
pub open spec fn mark_title(i: nat, t: Seq<char>) -> Seq<char> {
    if t.len() == 0 {
        "Chapter "@ + decimal_digits(i + 1)
    } else {
        t
    }
}

/// Chapter `i` derived from marks: it runs from its own start to the next
/// mark's start (or `total` for the last), never negative.
pub open spec fn mark_chapter_ok(marks: Seq<ChapterMark>, total: u128, i: int, c: Chapter) -> bool {
    let next = if i + 1 < marks.len() { marks[i + 1].start } else { total };
    &&& c.title@ == mark_title(i as nat, marks[i].title@)
    &&& c.file_index == 0
    &&& c.start == marks[i].start
    &&& c.duration == (if next >= marks[i].start { (next - marks[i].start) as u128 } else { 0 })
}

/// Chapters of a single-file book from its chapter marks and the file's
/// total length: each chapter's length is the gap to the next start, the last
/// running to the end of the file.
pub fn chapters_from_marks(marks: &Vec<ChapterMark>, total: u128) -> (r: Vec<Chapter>)
    ensures
        r@.len() == marks@.len(),
        forall|i: int| 0 <= i < r@.len() ==> mark_chapter_ok(marks@, total, i, #[trigger] r@[i]),
{
    let mut r: Vec<Chapter> = Vec::new();
    let mut i: usize = 0;
    while i < marks.len()
        invariant
            i <= marks@.len(),
            r@.len() == i,
            forall|k: int| 0 <= k < i ==> mark_chapter_ok(marks@, total, k, #[trigger] r@[k]),
        decreases marks.len() - i,
    {
        let start = marks[i].start;
        let next = if i + 1 < marks.len() { marks[i + 1].start } else { total };
        let duration = if next >= start { next - start } else { 0 };
        let title = if marks[i].title.unicode_len() == 0 {
            let mut t = "Chapter ".to_owned();
            push_decimal(&mut t, (i as u128) + 1);
            t
        } else {
            marks[i].title.clone()
        };
        r.push(Chapter { title, file_index: 0, start, duration });
        i = i + 1;
    }
    r
}

/// The text before the last `.` of a file name (the whole name if none).
pub open spec fn stem_of(name: Seq<char>) -> Seq<char> {
    match last_index_of(name, '.') {
        Some(i) => name.take(i),
        None => name,
    }
}

/// The number of leading ASCII digits of `s`.
pub open spec fn leading_digits(s: Seq<char>) -> nat
    decreases s.len(),
{
    if s.len() > 0 && is_digit(s[0]) {
        1 + leading_digits(s.drop_first())
    } else {
        0
    }
}

/// A track-number separator.
pub open spec fn is_separator(c: char) -> bool {
    c == '-' || c == '.' || c == '_'
}

/// The chapter title of a file name: the stem with a leading track number
/// and one separator (`-`, `.` or `_`, with surrounding spaces) removed. The
/// stem is kept as it is when it does not start with digits or when nothing
/// would be left.
pub open spec fn clean_title_spec(name: Seq<char>) -> Seq<char> {
    let stem = stem_of(name);
    let t = trim_start(stem);
    let d = leading_digits(t);
    if d == 0 {
        stem
    } else {
        let r1 = trim_start(t.skip(d as int));
        let r2 = if r1.len() > 0 && is_separator(r1[0]) { r1.drop_first() } else { r1 };
        let r3 = trim_start(r2);
        if r3.len() == 0 {
            stem
        } else {
            r3
        }
    }
}

proof fn lemma_leading_digits_skip(s: Seq<char>, k: int)
    requires
        0 <= k <= s.len(),
        forall|m: int| 0 <= m < k ==> is_digit(#[trigger] s[m]),
    ensures
        leading_digits(s) == k + leading_digits(s.skip(k)),
    decreases k,
{
    if k > 0 {
        assert(s.drop_first().skip(k - 1) =~= s.skip(k));
        assert forall|m: int| 0 <= m < k - 1 implies is_digit(#[trigger] s.drop_first()[m]) by {
            assert(s.drop_first()[m] == s[m + 1]);
        }
        lemma_leading_digits_skip(s.drop_first(), k - 1);
    } else {
        assert(s.skip(0) =~= s);
    }
}

/// Strips a leading track number and separator from a file name:
/// `01 - The Way of Kings.mp3` becomes `The Way of Kings`, while
/// `Chapter 03.mp3` becomes `Chapter 03`.
pub fn clean_filename_title(name: &str) -> (r: String)
    ensures
        r@ == clean_title_spec(name@),
{
    let cs = chars_of(name);
    let ghost s = cs@;
    let stem_end = match find_last(&cs, '.') {
        Some(i) => i,
        None => cs.len(),
    };
    proof {
        lemma_last_index_of_bounds(s, '.');
        assert(s.subrange(0, stem_end as int) =~= stem_of(s));
    }
    let ghost stem = stem_of(s);
    let t0 = skip_ws(&cs, 0, stem_end);
    let ghost t = s.subrange(t0 as int, stem_end as int);
    assert(t == trim_start(stem));
    let mut i = t0;
    while i < stem_end && '0' <= cs[i] && cs[i] <= '9'
        invariant
            t0 <= i <= stem_end <= cs@.len(),
            forall|m: int| t0 <= m < i ==> is_digit(#[trigger] cs@[m]),
        decreases stem_end - i,
    {
        i = i + 1;
    }
    proof {
        assert forall|m: int| 0 <= m < i - t0 implies is_digit(#[trigger] t[m]) by {
            assert(t[m] == s[m + t0]);
        }
        lemma_leading_digits_skip(t, i - t0);
        assert(t.skip(i - t0) =~= s.subrange(i as int, stem_end as int));
        let u = s.subrange(i as int, stem_end as int);
        if u.len() > 0 {
            assert(u[0] == s[i as int]);
        }
        assert(leading_digits(t) == i - t0);
    }
    if i == t0 {
        return string_from_range(&cs, 0, stem_end);
    }
    let j = skip_ws(&cs, i, stem_end);
    let ghost r1 = s.subrange(j as int, stem_end as int);
    let j2 = if j < stem_end && (cs[j] == '-' || cs[j] == '.' || cs[j] == '_') {
        assert(r1[0] == s[j as int]);
        assert(s.subrange(j + 1, stem_end as int) =~= r1.drop_first());
        j + 1
    } else {
        proof {
            if r1.len() > 0 {
                assert(r1[0] == s[j as int]);
            }
        }
        j
    };
    let k = skip_ws(&cs, j2, stem_end);
    if k == stem_end {
        string_from_range(&cs, 0, stem_end)
    } else {
        string_from_range(&cs, k, stem_end)
    }
}

/// One chapter per file of a multi-file book, titled from its file name.
pub open spec fn file_chapter_ok(files: Seq<(String, u128)>, i: int, c: Chapter) -> bool {
    &&& c.title@ == clean_title_spec(files[i].0@)
    &&& c.file_index == i
    &&& c.start == 0
    &&& c.duration == files[i].1
}

/// Builds per-file chapters for a multi-file book from `(file name, length)`
/// pairs: chapter `i` is file `i`, starting at 0.
pub fn synthesize_multi_file(file_durations: &Vec<(String, u128)>) -> (r: Vec<Chapter>)
    ensures
        r@.len() == file_durations@.len(),
        forall|i: int| 0 <= i < r@.len() ==> file_chapter_ok(file_durations@, i, #[trigger] r@[i]),
{
    let mut r: Vec<Chapter> = Vec::new();
    let mut i: usize = 0;
    while i < file_durations.len()
        invariant
            i <= file_durations@.len(),
            r@.len() == i,
            forall|k: int| 0 <= k < i ==> file_chapter_ok(file_durations@, k, #[trigger] r@[k]),
        decreases file_durations.len() - i,
    {
        let title = clean_filename_title(file_durations[i].0.as_str());
        r.push(Chapter { title, file_index: i, start: 0, duration: file_durations[i].1 });
        i = i + 1;
    }
    r
}

} // verus!
