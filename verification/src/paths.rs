//! Paths, held as `String`s. The component rules of `std::path::Path`
//! (`file_name`, `parent`) are std's own and are reached through trusted
//! wrappers; joining and extensions follow std's Unix rules and are verified.
use vstd::prelude::*;
use crate::text::{chars_eq, chars_of, push_chars, string_from_range};

verus! {

/// The characters of an optional string.
pub open spec fn opt_view(o: Option<String>) -> Option<Seq<char>> {
    match o {
        Some(s) => Some(s@),
        None => None,
    }
}

/// What `Path::file_name` returns for a path with these characters: its
/// last component (see `path_components`) when that is a normal name, and
/// `None` when the path is empty or ends in a root, `.` or `..`.
pub open spec fn path_file_name(p: Seq<char>) -> Option<Seq<char>> {
    let cs = path_components(p);
    if cs.len() > 0 && cs.last() != seq!['/'] && cs.last() != seq!['.'] && cs.last() != seq!['.', '.'] {
        Some(cs.last())
    } else {
        None
    }
}

/// What `Path::parent` returns for a path with these characters: the path
/// without its final component, or `None` for a root or the empty path.
pub uninterp spec fn path_parent(p: Seq<char>) -> Option<Seq<char>>;

/// The file name of a path (see `path_file_name`).
pub fn file_name(p: &str) -> (r: Option<String>)
    ensures
        opt_view(r) == path_file_name(p@),
{
    let cs = components(p);
    if cs.len() == 0 {
        return None;
    }
    let last = &cs[cs.len() - 1];
    assert(last@ == path_components(p@).last());
    let is_root = last.len() == 1 && last[0] == '/';
    let is_cur = last.len() == 1 && last[0] == '.';
    let is_up = last.len() == 2 && last[0] == '.' && last[1] == '.';
    if is_root || is_cur || is_up {
        proof {
            if last.len() == 1 {
                assert(last@ =~= seq![last@[0]]);
            } else if last.len() == 2 {
                assert(last@ =~= seq![last@[0], last@[1]]);
            }
        }
        None
    } else {
        let name = string_from_range(last, 0, last.len());
        assert(last@.subrange(0, last@.len() as int) =~= last@);
        Some(name)
    }
}

/// std's `Path::parent`. Trusted: the result is `path_parent` of the
/// argument, a function of its characters alone.
#[verifier::external_body]
pub(crate) fn parent(p: &str) -> (r: Option<String>)
    ensures
        opt_view(r) == path_parent(p@),
{
    match std::path::Path::new(p).parent() {
        Some(d) => Some(d.to_string_lossy().into_owned()),
        None => None,
    }
}

/// Index of the last occurrence of `c` in `s`.
pub open spec fn last_index_of(s: Seq<char>, c: char) -> Option<int>
    decreases s.len(),
{
    if s.len() == 0 {
        None
    } else if s.last() == c {
        Some(s.len() - 1)
    } else {
        last_index_of(s.drop_last(), c)
    }
}

pub proof fn lemma_last_index_of_bounds(s: Seq<char>, c: char)
    ensures
        last_index_of(s, c) matches Some(i) ==> 0 <= i < s.len() && s[i] == c && (forall|k: int|
            i < k < s.len() ==> s[k] != c),
        last_index_of(s, c) is None ==> forall|k: int| 0 <= k < s.len() ==> s[k] != c,
    decreases s.len(),
{
    if s.len() > 0 && s.last() != c {
        let t = s.drop_last();
        lemma_last_index_of_bounds(t, c);
        assert forall|k: int| 0 <= k < t.len() implies t[k] == s[k] by {}
        if let Some(i) = last_index_of(s, c) {
            assert forall|k: int| i < k < s.len() implies s[k] != c by {
                if k < t.len() {
                    assert(t[k] == s[k]);
                }
            }
        } else {
            assert forall|k: int| 0 <= k < s.len() implies s[k] != c by {
                if k < t.len() {
                    assert(t[k] == s[k]);
                }
            }
        }
    }
}

/// Index of the last `c` in `cs`.
pub fn find_last(cs: &Vec<char>, c: char) -> (r: Option<usize>)
    ensures
        match r {
            Some(i) => last_index_of(cs@, c) == Some(i as int),
            None => last_index_of(cs@, c) is None,
        },
{
    let mut j: usize = cs.len();
    assert(cs@.take(j as int) =~= cs@);
    while j > 0 && cs[j - 1] != c
        invariant
            j <= cs@.len(),
            last_index_of(cs@, c) == last_index_of(cs@.take(j as int), c),
        decreases j,
    {
        proof {
            assert(cs@.take(j as int).drop_last() =~= cs@.take(j - 1));
        }
        j = j - 1;
    }
    if j == 0 {
        None
    } else {
        Some(j - 1)
    }
}

/// The extension of a file name, following `Path::extension`: the text after
/// the last `.`, unless there is none, the only `.` leads the name, or the
/// name is `..`.
pub open spec fn ext_of_file_name(f: Seq<char>) -> Option<Seq<char>> {
    if f == seq!['.', '.'] {
        None
    } else {
        match last_index_of(f, '.') {
            Some(i) => if i > 0 {
                Some(f.skip(i + 1))
            } else {
                None
            },
            None => None,
        }
    }
}

/// What `Path::extension` returns for a path with these characters.
pub open spec fn path_extension(p: Seq<char>) -> Option<Seq<char>> {
    match path_file_name(p) {
        Some(f) => ext_of_file_name(f),
        None => None,
    }
}

/// The extension of the file name `f` (see `ext_of_file_name`).
pub fn file_name_extension(f: &String) -> (r: Option<String>)
    ensures
        opt_view(r) == ext_of_file_name(f@),
{
    let cs = chars_of(f.as_str());
    if cs.len() == 2 && cs[0] == '.' && cs[1] == '.' {
        assert(cs@ =~= seq!['.', '.']);
        return None;
    }
    assert(cs@ != seq!['.', '.']) by {
        if cs@ == seq!['.', '.'] {
            assert(cs@.len() == 2 && cs@[0] == '.' && cs@[1] == '.');
        }
    }
    match find_last(&cs, '.') {
        Some(i) => {
            proof {
                lemma_last_index_of_bounds(cs@, '.');
            }
            if i > 0 {
                let e = string_from_range(&cs, i + 1, cs.len());
                assert(e@ =~= cs@.skip(i + 1));
                Some(e)
            } else {
                None
            }
        },
        None => None,
    }
}

/// `Path::extension` of `p`.
pub fn extension(p: &str) -> (r: Option<String>)
    ensures
        opt_view(r) == path_extension(p@),
{
    match file_name(p) {
        Some(f) => file_name_extension(&f),
        None => None,
    }
}

/// `a.join(b)` on Unix: an absolute `b` replaces `a`; otherwise `b` is
/// appended after a `/` unless `a` is empty or already ends in one.
pub open spec fn path_join(a: Seq<char>, b: Seq<char>) -> Seq<char> {
    if b.len() > 0 && b[0] == '/' {
        b
    } else if a.len() == 0 || a.last() == '/' {
        a + b
    } else {
        a + seq!['/'] + b
    }
}

/// `Path::join` on Unix (see `path_join`).
pub fn join(a: &str, b: &str) -> (r: String)
    ensures
        r@ == path_join(a@, b@),
{
    let ca = chars_of(a);
    let cb = chars_of(b);
    if cb.len() > 0 && cb[0] == '/' {
        return string_from_range(&cb, 0, cb.len());
    }
    let mut s = string_from_range(&ca, 0, ca.len());
    assert(ca@.subrange(0, ca@.len() as int) =~= ca@);
    assert(cb@.subrange(0, cb@.len() as int) =~= cb@);
    if !(ca.len() == 0 || ca[ca.len() - 1] == '/') {
        crate::text::push_char(&mut s, '/');
    }
    push_chars(&mut s, &cb, 0, cb.len());
    s
}

// ---------------------------------------------------------------------
// Path equality
// ---------------------------------------------------------------------

/// A segment between separators, as a component: empty segments (repeated
/// or trailing separators) and `.` segments are dropped.
pub open spec fn kept_segment(seg: Seq<char>) -> Seq<Seq<char>> {
    if seg.len() == 0 || seg == seq!['.'] {
        Seq::empty()
    } else {
        seq![seg]
    }
}

/// The kept segments of `cur` followed by `p`, where `cur` is the part of a
/// segment already read.
pub open spec fn kept_segments(p: Seq<char>, cur: Seq<char>) -> Seq<Seq<char>>
    decreases p.len(),
{
    if p.len() == 0 {
        kept_segment(cur)
    } else if p[0] == '/' {
        kept_segment(cur) + kept_segments(p.drop_first(), Seq::empty())
    } else {
        kept_segments(p.drop_first(), cur.push(p[0]))
    }
}

/// The path starts at the root.
pub open spec fn path_has_root(p: Seq<char>) -> bool {
    p.len() > 0 && p[0] == '/'
}

/// The path is `.` or starts with `./`, which keeps a leading current-dir
/// component.
pub open spec fn path_leading_cur_dir(p: Seq<char>) -> bool {
    p.len() > 0 && p[0] == '.' && (p.len() == 1 || p[1] == '/')
}

/// The components of a Unix path, as `Path::components` gives them: a root
/// (written `/`), a current-dir component (written `.`) only where the path
/// is `.` or starts with `./`, then every segment between separators except
/// empty and `.` ones. A normal component is never `/` or `.`, so two paths
/// are equal as `Path`s exactly when these sequences are equal.
pub open spec fn path_components(p: Seq<char>) -> Seq<Seq<char>> {
    let root: Seq<Seq<char>> = if path_has_root(p) { seq![seq!['/']] } else { Seq::empty() };
    let cur: Seq<Seq<char>> = if path_leading_cur_dir(p) { seq![seq!['.']] } else { Seq::empty() };
    root + cur + kept_segments(p, Seq::empty())
}

/// Two paths name the same path: their components are equal.
pub open spec fn same_path_spec(a: Seq<char>, b: Seq<char>) -> bool {
    path_components(a) == path_components(b)
}

/// Adds the segment `seg` to `out` if it is kept.
fn push_kept(out: &mut Vec<Vec<char>>, seg: Vec<char>)
    ensures
        final(out)@.len() == old(out)@.len() + kept_segment(seg@).len(),
        forall|k: int| 0 <= k < old(out)@.len() ==> (#[trigger] final(out)@[k])@ == old(out)@[k]@,
        kept_segment(seg@).len() == 1 ==> final(out)@[old(out)@.len() as int]@ == seg@,
{
    let is_dot = seg.len() == 1 && seg[0] == '.';
    if seg.len() > 0 && !is_dot {
        out.push(seg);
    } else {
        assert(seg@.len() == 0 || seg@ =~= seq!['.']);
    }
}

/// The components of a path (see `path_components`).
pub fn components(p: &str) -> (r: Vec<Vec<char>>)
    ensures
        r@.len() == path_components(p@).len(),
        forall|k: int| 0 <= k < r@.len() ==> (#[trigger] r@[k])@ == path_components(p@)[k],
{
    let cs = chars_of(p);
    let mut out: Vec<Vec<char>> = Vec::new();
    let ghost lead: Seq<Seq<char>> = Seq::empty();
    if cs.len() > 0 && cs[0] == '/' {
        let mut r: Vec<char> = Vec::new();
        r.push('/');
        out.push(r);
        proof {
            lead = seq![seq!['/']];
        }
    }
    if cs.len() > 0 && cs[0] == '.' && (cs.len() == 1 || cs[1] == '/') {
        let mut c: Vec<char> = Vec::new();
        c.push('.');
        out.push(c);
        proof {
            lead = lead + seq![seq!['.']];
        }
    }
    assert(lead =~= (if path_has_root(p@) { seq![seq!['/']] } else { Seq::<Seq<char>>::empty() })
        + (if path_leading_cur_dir(p@) { seq![seq!['.']] } else { Seq::<Seq<char>>::empty() }));
    let mut cur: Vec<char> = Vec::new();
    let mut i: usize = 0;
    assert(Seq::new(out@.len(), |k: int| out@[k]@) =~= lead);
    assert(cs@.skip(0) =~= cs@);
    assert(cur@ =~= Seq::<char>::empty());
    while i < cs.len()
        invariant
            cs@ == p@,
            i <= cs@.len(),
            ({
                let done = Seq::new(out@.len(), |k: int| out@[k]@);
                lead + kept_segments(p@, Seq::empty()) == done + kept_segments(
                    cs@.skip(i as int),
                    cur@,
                )
            }),
        decreases cs.len() - i,
    {
        let ghost before = Seq::new(out@.len(), |k: int| out@[k]@);
        let ghost rest = cs@.skip(i as int);
        assert(rest.drop_first() =~= cs@.skip(i + 1));
        assert(rest[0] == cs@[i as int]);
        if cs[i] == '/' {
            let seg = cur;
            let ghost sv = seg@;
            push_kept(&mut out, seg);
            cur = Vec::new();
            proof {
                let after = Seq::new(out@.len(), |k: int| out@[k]@);
                assert(after =~= before + kept_segment(sv));
                assert(kept_segments(rest, sv) == kept_segment(sv) + kept_segments(
                    rest.drop_first(),
                    Seq::empty(),
                ));
                assert(cur@ =~= Seq::<char>::empty());
            }
        } else {
            cur.push(cs[i]);
        }
        i = i + 1;
    }
    let ghost sv = cur@;
    let ghost before = Seq::new(out@.len(), |k: int| out@[k]@);
    assert(cs@.skip(i as int) =~= Seq::<char>::empty());
    push_kept(&mut out, cur);
    proof {
        let after = Seq::new(out@.len(), |k: int| out@[k]@);
        assert(after =~= before + kept_segment(sv));
        assert(after =~= path_components(p@));
    }
    out
}

/// Whether two paths are the same `Path`: equal components, so that `a/b`,
/// `a//b`, `a/./b` and `a/b/` are all one path (see `path_components`).
pub fn same_path(a: &str, b: &str) -> (r: bool)
    ensures
        r == same_path_spec(a@, b@),
{
    let ca = components(a);
    let cb = components(b);
    if ca.len() != cb.len() {
        return false;
    }
    let mut k: usize = 0;
    while k < ca.len()
        invariant
            ca@.len() == cb@.len(),
            ca@.len() == path_components(a@).len(),
            cb@.len() == path_components(b@).len(),
            forall|m: int| 0 <= m < ca@.len() ==> (#[trigger] ca@[m])@ == path_components(a@)[m],
            forall|m: int| 0 <= m < cb@.len() ==> (#[trigger] cb@[m])@ == path_components(b@)[m],
            k <= ca@.len(),
            forall|m: int| 0 <= m < k ==> path_components(a@)[m] == #[trigger] path_components(b@)[m],
        decreases ca.len() - k,
    {
        if !chars_eq(&ca[k], &cb[k]) {
            assert(ca@[k as int]@ == path_components(a@)[k as int]);
            assert(cb@[k as int]@ == path_components(b@)[k as int]);
            return false;
        }
        assert(ca@[k as int]@ == path_components(a@)[k as int]);
        assert(cb@[k as int]@ == path_components(b@)[k as int]);
        k = k + 1;
    }
    assert(path_components(a@) =~= path_components(b@));
    true
}

} // verus!
