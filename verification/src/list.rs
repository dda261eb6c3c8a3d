//! A scrollable selection over a list of entries.
use vstd::prelude::*;

verus! {

/// A list of entries with one selected position. Renderers keep their own
/// scroll state and select the row `selected`.
pub struct ListSelector<T> {
    pub entries: Vec<T>,
    pub selected: usize,
}

impl<T> ListSelector<T> {
    /// The selection points at an entry, or is 0 when there are none.
    pub open spec fn wf(&self) -> bool {
        if self.entries@.len() == 0 {
            self.selected == 0
        } else {
            self.selected < self.entries@.len()
        }
    }

    /// A selector over `entries` with the first one selected.
    pub fn new(entries: Vec<T>) -> (r: Self)
        ensures
            r.entries == entries,
            r.selected == 0,
            r.wf(),
    {
        ListSelector { entries, selected: 0 }
    }

    /// Moves the selection up one entry; stays put at the top.
    pub fn move_up(&mut self)
        ensures
            final(self).entries == old(self).entries,
            final(self).selected == (if old(self).selected > 0 {
                old(self).selected - 1
            } else {
                0
            }),
            old(self).wf() ==> final(self).wf(),
    {
        if self.selected > 0 {
            self.selected = self.selected - 1;
        }
    }

    /// Moves the selection down one entry; stays put at the bottom.
    pub fn move_down(&mut self)
        ensures
            final(self).entries == old(self).entries,
            final(self).selected == (if old(self).selected + 1 < old(self).entries@.len() {
                old(self).selected + 1
            } else {
                old(self).selected as int
            }),
            old(self).wf() ==> final(self).wf(),
    {
        if self.entries.len() > 0 && self.selected < self.entries.len() - 1 {
            self.selected = self.selected + 1;
        }
    }

    /// Replaces the entries and selects the first one.
    pub fn set_entries(&mut self, entries: Vec<T>)
        ensures
            final(self).entries == entries,
            final(self).selected == 0,
            final(self).wf(),
    {
        self.entries = entries;
        self.selected = 0;
    }

    /// The selected entry, if the selection points at one.
    pub fn selected_item(&self) -> (r: Option<&T>)
        ensures
            self.selected < self.entries@.len() ==> r == Some(&self.entries@[self.selected as int]),
            self.selected >= self.entries@.len() ==> r is None,
    {
        if self.selected < self.entries.len() {
            Some(&self.entries[self.selected])
        } else {
            None
        }
    }

    /// Selects the first entry.
    pub fn go_to_top(&mut self)
        ensures
            final(self).entries == old(self).entries,
            final(self).selected == 0,
            final(self).wf(),
    {
        self.selected = 0;
    }

    /// Selects the last entry; no change when there are none.
    pub fn go_to_bottom(&mut self)
        ensures
            final(self).entries == old(self).entries,
            final(self).selected == (if old(self).entries@.len() > 0 {
                (old(self).entries@.len() - 1) as usize
            } else {
                old(self).selected
            }),
            old(self).wf() ==> final(self).wf(),
    {
        if self.entries.len() > 0 {
            self.selected = self.entries.len() - 1;
        }
    }
}

/// Law: on a well-formed selector, an entry is selected exactly when there
/// are entries.
pub proof fn law_selection_points_at_an_entry<T>(s: ListSelector<T>)
    requires
        s.wf(),
    ensures
        (s.selected < s.entries@.len()) <==> s.entries@.len() > 0,
{
}

} // verus!
