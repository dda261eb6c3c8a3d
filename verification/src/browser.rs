//! The file browser used to pick books to import.
use vstd::prelude::*;
use crate::library::{is_audio_file, is_audio_path, is_path_sort, sort_paths};
use crate::list::ListSelector;
use crate::paths::{file_name, opt_view, parent, path_file_name, path_parent};

verus! {

/// A row of the browser.
#[derive(Debug, Clone)]
pub enum BrowserItem {
    /// `..`: go up to the parent directory.
    UpDirectory,
    /// A file or folder under the current directory.
    Entry(String),
}

/// The browser: a current directory and its listing.
pub struct BrowserState {
    pub current_dir: String,
    pub list: ListSelector<BrowserItem>,
}

/// What opening the selected row asks for.
#[derive(Debug, Clone)]
pub enum OpenAction {
    /// Go to the parent directory.
    GoUp,
    /// Descend into this directory.
    Descend(String),
    /// Surface this audio file (opening never imports).
    Audio(String),
    /// Nothing to do.
    Stay,
}

/// A directory entry is listed: it has a file name that does not start with
/// a dot.
pub open spec fn is_listed(p: Seq<char>) -> bool {
    match path_file_name(p) {
        Some(n) => !(n.len() > 0 && n[0] == '.'),
        None => false,
    }
}

/// The listed entries of `s`, in order.
pub open spec fn listed_only(s: Seq<String>) -> Seq<String>
    decreases s.len(),
{
    if s.len() == 0 {
        s
    } else if is_listed(s.last()@) {
        listed_only(s.drop_last()).push(s.last())
    } else {
        listed_only(s.drop_last())
    }
}

/// `items` is the listing of a directory with entries `paths`: `..` first,
/// then the listed entries sorted by path.
pub open spec fn is_listing(items: Seq<BrowserItem>, paths: Seq<String>) -> bool {
    exists|sorted: Seq<String>|
        {
            &&& is_path_sort(sorted, listed_only(paths))
            &&& items.len() == sorted.len() + 1
            &&& items[0] is UpDirectory
            &&& forall|k: int|
                0 <= k < sorted.len() ==> #[trigger] items[k + 1] == BrowserItem::Entry(sorted[k])
        }
}

fn is_listed_path(p: &String) -> (r: bool)
    ensures
        r == is_listed(p@),
{
    match file_name(p.as_str()) {
        Some(n) => {
            let cs = crate::text::chars_of(n.as_str());
            !(cs.len() > 0 && cs[0] == '.')
        },
        None => false,
    }
}

/// The listing of a directory whose entries are `entries`: `..` first, then
/// the entries without dotfiles, sorted by path.
pub fn browser_items(entries: Vec<String>) -> (r: Vec<BrowserItem>)
    ensures
        is_listing(r@, entries@),
{
    let mut kept: Vec<String> = Vec::new();
    let mut i: usize = 0;
    let mut entries = entries;
    let ghost es = entries@;
    while i < entries.len()
        invariant
            i <= entries@.len(),
            entries@ == es,
            kept@ == listed_only(es.take(i as int)),
        decreases entries.len() - i,
    {
        proof {
            assert(es.take(i + 1).drop_last() =~= es.take(i as int));
        }
        if is_listed_path(&entries[i]) {
            kept.push(entries[i].clone());
            assert(kept@ =~= listed_only(es.take(i + 1)));
        }
        i = i + 1;
    }
    assert(es.take(es.len() as int) =~= es);
    sort_paths(&mut kept);
    let mut all: Vec<BrowserItem> = Vec::new();
    all.push(BrowserItem::UpDirectory);
    let ghost sorted = kept@;
    let mut kept = kept;
    let n = kept.len();
    let mut j: usize = 0;
    while kept.len() > 0
        invariant
            j + kept@.len() == sorted.len(),
            sorted.len() == n,
            kept@ == sorted.skip(j as int),
            all@.len() == j + 1,
            all@[0] is UpDirectory,
            forall|k: int| 0 <= k < j ==> #[trigger] all@[k + 1] == BrowserItem::Entry(sorted[k]),
        decreases kept.len(),
    {
        let p = kept.remove(0);
        assert(p == sorted[j as int]);
        assert(kept@ =~= sorted.skip(j + 1));
        all.push(BrowserItem::Entry(p));
        j = j + 1;
    }
    assert(is_path_sort(sorted, listed_only(es)));
    all
}

impl BrowserState {
    /// A browser showing `dir`, whose entries are `entries`, with `..`
    /// selected.
    pub fn at(dir: String, entries: Vec<String>) -> (r: Self)
        ensures
            r.current_dir == dir,
            is_listing(r.list.entries@, entries@),
            r.list.selected == 0,
            r.list.wf(),
    {
        BrowserState { current_dir: dir, list: ListSelector::new(browser_items(entries)) }
    }

    /// The selected path, if an entry (not `..`) is selected.
    pub fn selected_path(&self) -> (r: Option<String>)
        ensures
            match r {
                Some(p) => self.list.selected < self.list.entries@.len() && (
                self.list.entries@[self.list.selected as int] matches BrowserItem::Entry(e) && p@
                    == e@),
                None => !(self.list.selected < self.list.entries@.len() && self.list.entries@[self.list.selected as int] is Entry),
            },
    {
        match self.list.selected_item() {
            Some(BrowserItem::Entry(p)) => Some(p.clone()),
            _ => None,
        }
    }

    /// What opening the selected row asks for; `selected_is_dir` tells
    /// whether the selected entry is a directory. `..` goes up, a directory
    /// is descended into, an audio file is surfaced, anything else stays.
    pub fn open_action(&self, selected_is_dir: bool) -> (r: OpenAction)
        ensures
            ({
                let l = self.list;
                if l.selected < l.entries@.len() {
                    match l.entries@[l.selected as int] {
                        BrowserItem::UpDirectory => r is GoUp,
                        BrowserItem::Entry(e) => if selected_is_dir {
                            r matches OpenAction::Descend(p) && p@ == e@
                        } else if is_audio_path(e@) {
                            r matches OpenAction::Audio(p) && p@ == e@
                        } else {
                            r is Stay
                        },
                    }
                } else {
                    r is Stay
                }
            }),
    {
        match self.list.selected_item() {
            Some(BrowserItem::UpDirectory) => OpenAction::GoUp,
            Some(BrowserItem::Entry(p)) => {
                if selected_is_dir {
                    OpenAction::Descend(p.clone())
                } else if is_audio_file(p.as_str()) {
                    OpenAction::Audio(p.clone())
                } else {
                    OpenAction::Stay
                }
            },
            None => OpenAction::Stay,
        }
    }

    /// Shows directory `dir`, whose entries are `entries`, with `..` selected.
    pub fn descend(&mut self, dir: String, entries: Vec<String>)
        ensures
            final(self).current_dir == dir,
            is_listing(final(self).list.entries@, entries@),
            final(self).list.selected == 0,
    {
        self.current_dir = dir;
        self.list.set_entries(browser_items(entries));
    }

    /// The parent of the current directory, if it has one.
    pub fn parent_dir(&self) -> (r: Option<String>)
        ensures
            opt_view(r) == path_parent(self.current_dir@),
    {
        parent(self.current_dir.as_str())
    }

    /// Goes up to the parent directory, whose entries are `parent_entries`;
    /// no change at the root.
    pub fn go_up(&mut self, parent_entries: Vec<String>)
        ensures
            match path_parent(old(self).current_dir@) {
                Some(p) => final(self).current_dir@ == p && is_listing(
                    final(self).list.entries@,
                    parent_entries@,
                ) && final(self).list.selected == 0,
                None => *final(self) == *old(self),
            },
    {
        if let Some(p) = parent(self.current_dir.as_str()) {
            self.current_dir = p;
            self.list.set_entries(browser_items(parent_entries));
        }
    }

    /// Moves the selection up.
    pub fn move_up(&mut self)
        ensures
            final(self).current_dir == old(self).current_dir,
            final(self).list.entries == old(self).list.entries,
            final(self).list.selected == (if old(self).list.selected > 0 {
                old(self).list.selected - 1
            } else {
                0
            }),
    {
        self.list.move_up();
    }

    /// Moves the selection down.
    pub fn move_down(&mut self)
        ensures
            final(self).current_dir == old(self).current_dir,
            final(self).list.entries == old(self).list.entries,
            final(self).list.selected == (if old(self).list.selected + 1
                < old(self).list.entries@.len() {
                old(self).list.selected + 1
            } else {
                old(self).list.selected as int
            }),
    {
        self.list.move_down();
    }

    /// Selects the first row (`..`).
    pub fn go_to_top(&mut self)
        ensures
            final(self).current_dir == old(self).current_dir,
            final(self).list.entries == old(self).list.entries,
            final(self).list.selected == 0,
    {
        self.list.go_to_top();
    }

    /// Selects the last row.
    pub fn go_to_bottom(&mut self)
        ensures
            final(self).current_dir == old(self).current_dir,
            final(self).list.entries == old(self).list.entries,
            final(self).list.selected == (if old(self).list.entries@.len() > 0 {
                (old(self).list.entries@.len() - 1) as usize
            } else {
                old(self).list.selected
            }),
    {
        self.list.go_to_bottom();
    }
}

/// Whether a directory has at least one audio file directly inside it;
/// `entries` pairs each entry's path with whether it is a regular file.
pub fn dir_contains_audio(entries: &Vec<(String, bool)>) -> (r: bool)
    ensures
        r == exists|k: int| 0 <= k < entries@.len() && (#[trigger] entries@[k]).1 && is_audio_path(entries@[k].0@),
{
    let mut k: usize = 0;
    while k < entries.len()
        invariant
            k <= entries@.len(),
            forall|j: int| 0 <= j < k ==> !((#[trigger] entries@[j]).1 && is_audio_path(entries@[j].0@)),
        decreases entries.len() - k,
    {
        if entries[k].1 && is_audio_file(entries[k].0.as_str()) {
            return true;
        }
        k = k + 1;
    }
    false
}

} // verus!
