//! Text shown by the terminal interface.
use vstd::prelude::*;
use crate::library::{Book, Chapter};
use crate::text::{decimal_digits, push_decimal, push_decimal2};

verus! {

/// `n` printed in at least two digits, zero-padded (`{:02}`).
pub open spec fn pad2(n: nat) -> Seq<char> {
    if n < 10 {
        seq!['0'] + decimal_digits(n)
    } else {
        decimal_digits(n)
    }
}

/// A length shown as `h:mm:ss`, or `m:ss` under an hour (whole seconds).
pub open spec fn fmt_duration_spec(ns: nat) -> Seq<char> {
    let total = ns / 1_000_000_000;
    let h = total / 3600;
    let m = (total % 3600) / 60;
    let s = total % 60;
    if h > 0 {
        decimal_digits(h) + seq![':'] + pad2(m) + seq![':'] + pad2(s)
    } else {
        decimal_digits(m) + seq![':'] + pad2(s)
    }
}

/// Formats a length in nanoseconds (see `fmt_duration_spec`).
pub fn fmt_duration(ns: u128) -> (r: String)
    ensures
        r@ == fmt_duration_spec(ns as nat),
{
    let total = ns / 1_000_000_000;
    let h = total / 3600;
    let m = (total % 3600) / 60;
    let s = total % 60;
    let mut out = String::new();
    if h > 0 {
        push_decimal(&mut out, h);
        crate::text::push_char(&mut out, ':');
        push_decimal2(&mut out, m);
        crate::text::push_char(&mut out, ':');
        push_decimal2(&mut out, s);
    } else {
        push_decimal(&mut out, m);
        crate::text::push_char(&mut out, ':');
        push_decimal2(&mut out, s);
    }
    assert(out@ =~= fmt_duration_spec(ns as nat));
    out
}

/// A pane title with its item count, marked when the pane has focus.
pub open spec fn title_with_focus_spec(label: Seq<char>, active: bool, count: nat) -> Seq<char> {
    label + seq!['('] + decimal_digits(count) + if active {
        ") [active] "@
    } else {
        ") "@
    }
}

/// A pane title such as `Books (3) [active] `.
pub fn title_with_focus(label: &str, active: bool, count: usize) -> (r: String)
    ensures
        r@ == title_with_focus_spec(label@, active, count as nat),
{
    let mut out = label.to_owned();
    crate::text::push_char(&mut out, '(');
    push_decimal(&mut out, count as u128);
    if active {
        out.append(") [active] ");
    } else {
        out.append(") ");
    }
    out
}

/// The chapter the playback footer names: the first chapter of the file at
/// `queue_index` in the queue; `None` when no chapter belongs to that file.
pub fn footer_chapter(book: &Book, queue_index: usize) -> (r: Option<usize>)
    ensures
        match r {
            Some(i) => i < book.chapters@.len() && book.chapters@[i as int].file_index == queue_index
                && forall|j: int| 0 <= j < i ==> (#[trigger] book.chapters@[j]).file_index != queue_index,
            None => forall|j: int|
                0 <= j < book.chapters@.len() ==> (#[trigger] book.chapters@[j]).file_index != queue_index,
        },
{
    let mut i: usize = 0;
    while i < book.chapters.len()
        invariant
            i <= book.chapters@.len(),
            forall|j: int| 0 <= j < i ==> (#[trigger] book.chapters@[j]).file_index != queue_index,
        decreases book.chapters.len() - i,
    {
        if book.chapters[i].file_index == queue_index {
            return Some(i);
        }
        i = i + 1;
    }
    None
}

/// A row of the chapter list: a `●` marks the current chapter.
pub open spec fn chapter_row_spec(title: Seq<char>, current: bool) -> Seq<char> {
    (if current { seq!['●'] } else { seq![' '] }) + seq![' '] + title
}

/// Formats a row of the chapter list (see `chapter_row_spec`).
pub fn chapter_row(title: &str, current: bool) -> (r: String)
    ensures
        r@ == chapter_row_spec(title@, current),
{
    let mut out = String::new();
    crate::text::push_char(&mut out, if current { '●' } else { ' ' });
    crate::text::push_char(&mut out, ' ');
    out.append(title);
    assert(out@ =~= chapter_row_spec(title@, current));
    out
}

/// The row highlighted in the chapter list: none for an empty list, else the
/// selected chapter, held to the last row.
pub fn chapter_selection(selected: usize, count: usize) -> (r: Option<usize>)
    ensures
        count == 0 ==> r is None,
        count > 0 ==> r == Some(if selected < count { selected } else { (count - 1) as usize }),
{
    if count == 0 {
        None
    } else if selected < count {
        Some(selected)
    } else {
        Some(count - 1)
    }
}

/// A series name with its position, as ` #n`, when it has one.
pub open spec fn series_label_spec(series: Seq<char>, index: Option<u32>) -> Seq<char> {
    match index {
        Some(i) => series + seq![' ', '#'] + decimal_digits(i as nat),
        None => series,
    }
}

/// An integer in decimal, with a leading `-` when negative.
pub open spec fn signed_digits(n: int) -> Seq<char> {
    if n < 0 {
        seq!['-'] + decimal_digits((-n) as nat)
    } else {
        decimal_digits(n as nat)
    }
}

/// The labelled rows of the book information panel: author, narrator,
/// series (with ` #n`), year where known, then duration and chapter count,
/// the cover where known, and the book's path and id.
pub open spec fn info_fields_spec(b: Book) -> Seq<(Seq<char>, Seq<char>)> {
    let author: Seq<(Seq<char>, Seq<char>)> = match b.author {
        Some(a) => seq![("Author:    "@, a@)],
        None => Seq::empty(),
    };
    let narrator: Seq<(Seq<char>, Seq<char>)> = match b.narrator {
        Some(n) => seq![("Narrator:  "@, n@)],
        None => Seq::empty(),
    };
    let series: Seq<(Seq<char>, Seq<char>)> = match b.series {
        Some(s) => seq![("Series:    "@, series_label_spec(s@, b.series_index))],
        None => Seq::empty(),
    };
    let year: Seq<(Seq<char>, Seq<char>)> = match b.year {
        Some(y) => seq![("Year:      "@, signed_digits(y as int))],
        None => Seq::empty(),
    };
    let cover: Seq<(Seq<char>, Seq<char>)> = match b.cover_path {
        Some(c) => seq![("Cover:     "@, c@)],
        None => Seq::empty(),
    };
    author + narrator + series + year + seq![
        ("Duration:  "@, fmt_duration_spec(b.total_duration as nat)),
        ("Chapters:  "@, decimal_digits(b.chapters@.len())),
    ] + cover + seq![("Path:      "@, b.root@), ("ID:        "@, b.id@)]
}

/// The characters of each labelled row.
pub open spec fn field_views(v: Seq<(String, String)>) -> Seq<(Seq<char>, Seq<char>)> {
    Seq::new(v.len(), |k: int| (v[k].0@, v[k].1@))
}

fn push_field(v: &mut Vec<(String, String)>, label: &str, value: String)
    ensures
        field_views(final(v)@) == field_views(old(v)@).push((label@, value@)),
{
    v.push((label.to_owned(), value));
    assert(field_views(final(v)@) =~= field_views(old(v)@).push((label@, value@)));
}

fn push_opt_field(v: &mut Vec<(String, String)>, label: &str, value: &Option<String>)
    ensures
        field_views(final(v)@) == field_views(old(v)@) + match *value {
            Some(x) => seq![(label@, x@)],
            None => Seq::<(Seq<char>, Seq<char>)>::empty(),
        },
{
    match value {
        Some(x) => push_field(v, label, x.clone()),
        None => {
            assert(field_views(v@) =~= field_views(v@) + Seq::<(Seq<char>, Seq<char>)>::empty());
        },
    }
}

/// The series row's text, when the book has a series.
fn series_text(series: &Option<String>, index: Option<u32>) -> (r: Option<String>)
    ensures
        match *series {
            Some(x) => r matches Some(t) && t@ == series_label_spec(x@, index),
            None => r is None,
        },
{
    match series {
        Some(s) => {
            let mut label = s.clone();
            match index {
                Some(i) => {
                    label.append(" #");
                    proof {
                        reveal_strlit(" #");
                    }
                    push_decimal(&mut label, i as u128);
                },
                None => {},
            }
            assert(label@ =~= series_label_spec(s@, index));
            Some(label)
        },
        None => None,
    }
}

/// A year in decimal (see `signed_digits`).
fn year_text(y: i32) -> (r: String)
    ensures
        r@ == signed_digits(y as int),
{
    let mut t = String::new();
    if y < 0 {
        crate::text::push_char(&mut t, '-');
        let m: i64 = -(y as i64);
        push_decimal(&mut t, m as u128);
    } else {
        push_decimal(&mut t, y as u128);
    }
    assert(t@ =~= signed_digits(y as int));
    t
}

/// The rows of the book information panel (see `info_fields_spec`).
pub fn info_fields(b: &Book) -> (r: Vec<(String, String)>)
    ensures
        field_views(r@) == info_fields_spec(*b),
{
    let ghost spec = info_fields_spec(*b);
    let mut v: Vec<(String, String)> = Vec::new();
    assert(field_views(v@) =~= Seq::<(Seq<char>, Seq<char>)>::empty());
    push_opt_field(&mut v, "Author:    ", &b.author);
    push_opt_field(&mut v, "Narrator:  ", &b.narrator);
    let series = series_text(&b.series, b.series_index);
    push_opt_field(&mut v, "Series:    ", &series);
    let year: Option<String> = match b.year {
        Some(y) => Some(year_text(y)),
        None => None,
    };
    push_opt_field(&mut v, "Year:      ", &year);
    push_field(&mut v, "Duration:  ", fmt_duration(b.total_duration));
    let mut n = String::new();
    push_decimal(&mut n, b.chapters.len() as u128);
    assert(n@ =~= decimal_digits(b.chapters@.len()));
    push_field(&mut v, "Chapters:  ", n);
    push_opt_field(&mut v, "Cover:     ", &b.cover_path);
    push_field(&mut v, "Path:      ", b.root.clone());
    push_field(&mut v, "ID:        ", b.id.clone());
    assert(field_views(v@) =~= spec);
    v
}

} // verus!
