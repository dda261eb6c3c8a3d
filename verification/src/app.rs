//! The interface's decisions: what a key press does to the selection and
//! which action it asks for, and the bookkeeping around playback.
use vstd::prelude::*;
use crate::library::{Book, BookKind, Chapter, Library, Progress, book_files, has_id, is_first_id};
use crate::paths::{same_path, same_path_spec};
use crate::screen;

verus! {


/// Which pane of the Library view has focus.
#[derive(Debug, Clone, Copy, PartialEq, Eq, Structural)]
pub enum LibraryFocus {
    Books,
    Chapters,
}

/// A key press, as the interface sees it.
#[derive(Debug, Clone, Copy, PartialEq, Eq, Structural)]
pub enum Key {
    Char(char),
    Esc,
    Tab,
    Enter,
    Up,
    Down,
    Left,
    Right,
    Backspace,
    Other,
}

/// What a key press asks the application to do beyond changing the
/// interface state.
#[derive(Debug, Clone, Copy, PartialEq, Eq, Structural)]
pub enum Action {
    NoAction,
    TogglePause,
    SpeedUp,
    SpeedDown,
    /// Seek within the current file by this many seconds.
    Seek { seconds: u64, forward: bool },
    /// Go to the next (or previous) chapter of the playing book.
    SkipChapter { forward: bool },
    DeleteSelectedBook,
    /// Resume the selected book from its saved progress.
    PlaySelectedBook,
    /// Play the selected book from the selected chapter.
    PlaySelectedChapter,
    BrowserDown,
    BrowserUp,
    BrowserTop,
    BrowserBottom,
    BrowserParent,
    /// Descend into the selected directory (never imports).
    BrowserOpen,
    /// Import the selected path.
    BrowserImport,
}

/// The interface state that key presses change.
#[derive(Debug, Clone, Copy, PartialEq, Eq, Structural)]
pub struct UiState {
    pub view: screen::View,
    pub library_focus: LibraryFocus,
    pub selected_book: usize,
    pub selected_chapter: usize,
    /// The info modal is overlaid on the current view.
    pub show_info: bool,
    pub should_quit: bool,
}

/// The number of chapters of the book at position `i` (0 if none).
pub open spec fn chapter_count(bs: Seq<Book>, i: int) -> nat {
    if 0 <= i < bs.len() {
        bs[i].chapters@.len()
    } else {
        0
    }
}

/// The selections point at a book and one of its chapters (or are 0 when
/// there is none).
pub open spec fn ui_wf(s: UiState, bs: Seq<Book>) -> bool {
    &&& if bs.len() == 0 {
        s.selected_book == 0
    } else {
        s.selected_book < bs.len()
    }
    &&& if chapter_count(bs, s.selected_book as int) == 0 {
        s.selected_chapter == 0
    } else {
        s.selected_chapter < chapter_count(bs, s.selected_book as int)
    }
}

/// Moving down in the Library view: the next book (back to its first
/// chapter) or the next chapter of the focused pane; no move past the end.
pub open spec fn moved_down(s: UiState, n_books: nat, n_chapters: nat) -> UiState {
    match s.library_focus {
        LibraryFocus::Books => if n_books > 0 && s.selected_book + 1 < n_books {
            UiState { selected_book: (s.selected_book + 1) as usize, selected_chapter: 0, ..s }
        } else {
            s
        },
        LibraryFocus::Chapters => if n_chapters > 0 && s.selected_chapter + 1 < n_chapters {
            UiState { selected_chapter: (s.selected_chapter + 1) as usize, ..s }
        } else {
            s
        },
    }
}

/// Moving up in the Library view: the previous book (back to its first
/// chapter) or the previous chapter; no move past the top.
pub open spec fn moved_up(s: UiState) -> UiState {
    match s.library_focus {
        LibraryFocus::Books => if s.selected_book > 0 {
            UiState { selected_book: (s.selected_book - 1) as usize, selected_chapter: 0, ..s }
        } else {
            s
        },
        LibraryFocus::Chapters => if s.selected_chapter > 0 {
            UiState { selected_chapter: (s.selected_chapter - 1) as usize, ..s }
        } else {
            s
        },
    }
}

/// The key map. With the info modal open only Esc and `i` (close) and `q`
/// (quit) do anything. Otherwise: `q` quits; `1`-`3` switch views; `i` opens
/// the modal; space or `c` toggles pause; `+`/`=` and `-` change speed;
/// outside the browser `,` `.` seek 10 s, `[` `]` seek 60 s, `b` and `z`
/// skip chapters; in the Library, Tab switches panes, `a` opens the browser,
/// `d` (books pane) deletes, Enter plays, `j`/Down and `k`/Up move; in the
/// browser, `j`/Down and `k`/Up move, `g`/`G` jump to top/bottom,
/// `h`/Left/Backspace go up, Enter/`l`/Right descend, `a` imports and Esc
/// returns to the Library.
pub open spec fn key_outcome(s: UiState, key: Key, n_books: nat, n_chapters: nat) -> (UiState, Action) {
    let none = Action::NoAction;
    if s.show_info {
        if key == Key::Esc || key == Key::Char('i') {
            (UiState { show_info: false, ..s }, none)
        } else if key == Key::Char('q') {
            (UiState { should_quit: true, ..s }, none)
        } else {
            (s, none)
        }
    } else {
        let not_browser = s.view != screen::View::Browser;
        let library = s.view == screen::View::Library;
        let browser = s.view == screen::View::Browser;
        if key == Key::Char('q') {
            (UiState { should_quit: true, ..s }, none)
        } else if key == Key::Char('1') {
            (UiState { view: screen::View::Library, ..s }, none)
        } else if key == Key::Char('2') {
            (UiState { view: screen::View::Bookmarks, ..s }, none)
        } else if key == Key::Char('3') {
            (UiState { view: screen::View::Browser, ..s }, none)
        } else if key == Key::Char('i') {
            (UiState { show_info: true, ..s }, none)
        } else if key == Key::Char(' ') || key == Key::Char('c') {
            (s, Action::TogglePause)
        } else if key == Key::Char('+') || key == Key::Char('=') {
            (s, Action::SpeedUp)
        } else if key == Key::Char('-') {
            (s, Action::SpeedDown)
        } else if key == Key::Char(',') && not_browser {
            (s, Action::Seek { seconds: 10, forward: false })
        } else if key == Key::Char('.') && not_browser {
            (s, Action::Seek { seconds: 10, forward: true })
        } else if key == Key::Char('[') && not_browser {
            (s, Action::Seek { seconds: 60, forward: false })
        } else if key == Key::Char(']') && not_browser {
            (s, Action::Seek { seconds: 60, forward: true })
        } else if key == Key::Char('b') && not_browser {
            (s, Action::SkipChapter { forward: true })
        } else if key == Key::Char('z') && not_browser {
            (s, Action::SkipChapter { forward: false })
        } else if key == Key::Tab && library {
            (UiState {
                library_focus: if s.library_focus == LibraryFocus::Books {
                    LibraryFocus::Chapters
                } else {
                    LibraryFocus::Books
                },
                ..s
            }, none)
        } else if key == Key::Char('a') && library {
            (UiState { view: screen::View::Browser, ..s }, none)
        } else if key == Key::Char('d') && library && s.library_focus == LibraryFocus::Books {
            (s, Action::DeleteSelectedBook)
        } else if key == Key::Enter && library {
            (s, if s.library_focus == LibraryFocus::Books {
                Action::PlaySelectedBook
            } else {
                Action::PlaySelectedChapter
            })
        } else if (key == Key::Char('j') || key == Key::Down) && library {
            (moved_down(s, n_books, n_chapters), none)
        } else if (key == Key::Char('k') || key == Key::Up) && library {
            (moved_up(s), none)
        } else if (key == Key::Char('j') || key == Key::Down) && browser {
            (s, Action::BrowserDown)
        } else if (key == Key::Char('k') || key == Key::Up) && browser {
            (s, Action::BrowserUp)
        } else if key == Key::Char('g') && browser {
            (s, Action::BrowserTop)
        } else if key == Key::Char('G') && browser {
            (s, Action::BrowserBottom)
        } else if (key == Key::Char('h') || key == Key::Left || key == Key::Backspace) && browser {
            (s, Action::BrowserParent)
        } else if (key == Key::Enter || key == Key::Char('l') || key == Key::Right) && browser {
            (s, Action::BrowserOpen)
        } else if key == Key::Char('a') && browser {
            (s, Action::BrowserImport)
        } else if key == Key::Esc && browser {
            (UiState { view: screen::View::Library, ..s }, none)
        } else {
            (s, none)
        }
    }
}

impl UiState {
    /// The state the application starts in: the Library view, books pane,
    /// first book and chapter selected.
    pub fn new() -> (r: Self)
        ensures
            r.view == screen::View::Library,
            r.library_focus == LibraryFocus::Books,
            r.selected_book == 0,
            r.selected_chapter == 0,
            !r.show_info,
            !r.should_quit,
    {
        UiState {
            view: screen::View::Library,
            library_focus: LibraryFocus::Books,
            selected_book: 0,
            selected_chapter: 0,
            show_info: false,
            should_quit: false,
        }
    }

    /// Moves down in the focused Library pane.
    pub fn move_down_in_library(&mut self, library: &Library)
        ensures
            *final(self) == moved_down(
                *old(self),
                library.books@.len(),
                chapter_count(library.books@, old(self).selected_book as int),
            ),
    {
        match self.library_focus {
            LibraryFocus::Books => {
                if self.library_focus == LibraryFocus::Books && library.books.len() > 0
                    && self.selected_book < library.books.len() - 1 {
                    self.selected_book = self.selected_book + 1;
                    self.selected_chapter = 0;
                }
            },
            LibraryFocus::Chapters => {
                let max = if self.selected_book < library.books.len() {
                    library.books[self.selected_book].chapters.len()
                } else {
                    0
                };
                if max > 0 && self.selected_chapter < max - 1 {
                    self.selected_chapter = self.selected_chapter + 1;
                }
            },
        }
    }

    /// Moves up in the focused Library pane.
    pub fn move_up_in_library(&mut self)
        ensures
            *final(self) == moved_up(*old(self)),
    {
        match self.library_focus {
            LibraryFocus::Books => {
                if self.selected_book > 0 {
                    self.selected_book = self.selected_book - 1;
                    self.selected_chapter = 0;
                }
            },
            LibraryFocus::Chapters => {
                if self.selected_chapter > 0 {
                    self.selected_chapter = self.selected_chapter - 1;
                }
            },
        }
    }

    /// Applies a key press (see `key_outcome`) and returns the action it asks
    /// for. Selections that pointed at a book and chapter still do.
    pub fn handle_key(&mut self, key: Key, library: &Library) -> (a: Action)
        ensures
            (*final(self), a) == key_outcome(
                *old(self),
                key,
                library.books@.len(),
                chapter_count(library.books@, old(self).selected_book as int),
            ),
            ui_wf(*old(self), library.books@) ==> ui_wf(*final(self), library.books@),
    {
        if self.show_info {
            if key == Key::Esc || key == Key::Char('i') {
                self.show_info = false;
            } else if key == Key::Char('q') {
                self.should_quit = true;
            }
            return Action::NoAction;
        }
        let not_browser = self.view != screen::View::Browser;
        let library_view = self.view == screen::View::Library;
        let browser = self.view == screen::View::Browser;
        let down = key == Key::Char('j') || key == Key::Down;
        let up = key == Key::Char('k') || key == Key::Up;
        if key == Key::Char('q') {
            self.should_quit = true;
            Action::NoAction
        } else if key == Key::Char('1') {
            self.view = screen::View::Library;
            Action::NoAction
        } else if key == Key::Char('2') {
            self.view = screen::View::Bookmarks;
            Action::NoAction
        } else if key == Key::Char('3') {
            self.view = screen::View::Browser;
            Action::NoAction
        } else if key == Key::Char('i') {
            self.show_info = true;
            Action::NoAction
        } else if key == Key::Char(' ') || key == Key::Char('c') {
            Action::TogglePause
        } else if key == Key::Char('+') || key == Key::Char('=') {
            Action::SpeedUp
        } else if key == Key::Char('-') {
            Action::SpeedDown
        } else if key == Key::Char(',') && not_browser {
            Action::Seek { seconds: 10, forward: false }
        } else if key == Key::Char('.') && not_browser {
            Action::Seek { seconds: 10, forward: true }
        } else if key == Key::Char('[') && not_browser {
            Action::Seek { seconds: 60, forward: false }
        } else if key == Key::Char(']') && not_browser {
            Action::Seek { seconds: 60, forward: true }
        } else if key == Key::Char('b') && not_browser {
            Action::SkipChapter { forward: true }
        } else if key == Key::Char('z') && not_browser {
            Action::SkipChapter { forward: false }
        } else if key == Key::Tab && library_view {
            self.library_focus = if self.library_focus == LibraryFocus::Books {
                LibraryFocus::Chapters
            } else {
                LibraryFocus::Books
            };
            Action::NoAction
        } else if key == Key::Char('a') && library_view {
            self.view = screen::View::Browser;
            Action::NoAction
        } else if key == Key::Char('d') && library_view && self.library_focus == LibraryFocus::Books {
            Action::DeleteSelectedBook
        } else if key == Key::Enter && library_view {
            if self.library_focus == LibraryFocus::Books {
                Action::PlaySelectedBook
            } else {
                Action::PlaySelectedChapter
            }
        } else if down && library_view {
            self.move_down_in_library(library);
            Action::NoAction
        } else if up && library_view {
            self.move_up_in_library();
            Action::NoAction
        } else if down && browser {
            Action::BrowserDown
        } else if up && browser {
            Action::BrowserUp
        } else if key == Key::Char('g') && browser {
            Action::BrowserTop
        } else if key == Key::Char('G') && browser {
            Action::BrowserBottom
        } else if (key == Key::Char('h') || key == Key::Left || key == Key::Backspace) && browser {
            Action::BrowserParent
        } else if (key == Key::Enter || key == Key::Char('l') || key == Key::Right) && browser {
            Action::BrowserOpen
        } else if key == Key::Char('a') && browser {
            Action::BrowserImport
        } else if key == Key::Esc && browser {
            self.view = screen::View::Library;
            Action::NoAction
        } else {
            Action::NoAction
        }
    }

    /// Removes the selected book from the library and returns it, keeping the
    /// selection on a book (the previous one when the last was removed) and
    /// going back to its first chapter; nothing happens when no book is
    /// selected.
    pub fn delete_selected_book(&mut self, library: &mut Library) -> (r: Option<Book>)
        ensures
            ({
                let sel = old(self).selected_book;
                let bs = old(library).books@;
                if sel < bs.len() {
                    &&& r == Some(bs[sel as int])
                    &&& final(library).books@ == bs.remove(sel as int)
                    &&& *final(self) == UiState {
                        selected_book: if sel >= bs.len() - 1 && sel > 0 {
                            (sel - 1) as usize
                        } else {
                            sel
                        },
                        selected_chapter: 0,
                        ..*old(self)
                    }
                } else {
                    &&& r is None
                    &&& final(library).books@ == bs
                    &&& *final(self) == *old(self)
                }
            }),
            ui_wf(*old(self), old(library).books@) ==> ui_wf(*final(self), final(library).books@),
    {
        let removed = library.delete_at(self.selected_book);
        if removed.is_some() {
            if self.selected_book >= library.books.len() && self.selected_book > 0 {
                self.selected_book = self.selected_book - 1;
            }
            self.selected_chapter = 0;
        }
        removed
    }
}

/// Law: every key press keeps the selections pointing at a book and one of
/// its chapters.
pub proof fn law_keys_keep_selection_valid(s: UiState, key: Key, bs: Seq<Book>)
    requires
        ui_wf(s, bs),
    ensures
        ui_wf(key_outcome(s, key, bs.len(), chapter_count(bs, s.selected_book as int)).0, bs),
{
}

/// Law: what each key asks for, key by key. With the info modal open, Esc
/// and `i` close it, `q` quits and nothing asks for an action. Otherwise `q`
/// quits, `1` `2` `3` open the Library, Bookmarks and Browser views, `i`
/// opens the modal, space and `c` toggle pause, `+` `=` and `-` change speed;
/// outside the browser `,` `.` seek back and forward 10 s, `[` `]` 60 s, `b`
/// skips to the next chapter and `z` to the previous one; in the Library,
/// Tab switches panes, `a` opens the browser, `d` deletes in the books pane,
/// Enter plays the selected book (books pane) or chapter (chapters pane),
/// `j`/Down and `k`/Up move the selection by one within its list; in the
/// browser `j`/Down `k`/Up move, `g` `G` jump to top and bottom, `h`/Left/
/// Backspace go up, Enter/`l`/Right descend, `a` imports and Esc returns to
/// the Library.
pub proof fn law_key_actions(s: UiState, key: Key, n_books: nat, n_chapters: nat, s2: UiState, a: Action)
    requires
        (s2, a) == key_outcome(s, key, n_books, n_chapters),
    ensures
        s.show_info ==> a == Action::NoAction,
        s.show_info && (key == Key::Esc || key == Key::Char('i')) ==> s2 == (UiState { show_info: false, ..s }),
        s.show_info && key == Key::Char('q') ==> s2 == (UiState { should_quit: true, ..s }),
        s.show_info && key != Key::Esc && key != Key::Char('i') && key != Key::Char('q') ==> s2 == s,
        !s.show_info && key == Key::Char('q') ==> s2 == (UiState { should_quit: true, ..s }) && a
            == Action::NoAction,
        !s.show_info && key == Key::Char('1') ==> s2 == (UiState { view: screen::View::Library, ..s }),
        !s.show_info && key == Key::Char('2') ==> s2 == (UiState { view: screen::View::Bookmarks, ..s }),
        !s.show_info && key == Key::Char('3') ==> s2 == (UiState { view: screen::View::Browser, ..s }),
        !s.show_info && key == Key::Char('i') ==> s2 == (UiState { show_info: true, ..s }),
        !s.show_info && (key == Key::Char(' ') || key == Key::Char('c')) ==> a == Action::TogglePause
            && s2 == s,
        !s.show_info && (key == Key::Char('+') || key == Key::Char('=')) ==> a == Action::SpeedUp,
        !s.show_info && key == Key::Char('-') ==> a == Action::SpeedDown,
        !s.show_info && s.view != screen::View::Browser && key == Key::Char(',') ==> a == (Action::Seek {
            seconds: 10,
            forward: false,
        }),
        !s.show_info && s.view != screen::View::Browser && key == Key::Char('.') ==> a == (Action::Seek {
            seconds: 10,
            forward: true,
        }),
        !s.show_info && s.view != screen::View::Browser && key == Key::Char('[') ==> a == (Action::Seek {
            seconds: 60,
            forward: false,
        }),
        !s.show_info && s.view != screen::View::Browser && key == Key::Char(']') ==> a == (Action::Seek {
            seconds: 60,
            forward: true,
        }),
        !s.show_info && s.view != screen::View::Browser && key == Key::Char('b') ==> a
            == (Action::SkipChapter { forward: true }) && s2 == s,
        !s.show_info && s.view != screen::View::Browser && key == Key::Char('z') ==> a
            == (Action::SkipChapter { forward: false }) && s2 == s,
        !s.show_info && s.view == screen::View::Library && key == Key::Tab ==> a == Action::NoAction
            && s2.library_focus != s.library_focus && s2 == (UiState { library_focus: s2.library_focus, ..s }),
        !s.show_info && s.view == screen::View::Library && key == Key::Char('a') ==> s2 == (UiState {
            view: screen::View::Browser,
            ..s
        }) && a == Action::NoAction,
        !s.show_info && s.view == screen::View::Library && key == Key::Char('d') ==> a == (if s.library_focus
            == LibraryFocus::Books {
            Action::DeleteSelectedBook
        } else {
            Action::NoAction
        }),
        !s.show_info && s.view == screen::View::Library && key == Key::Enter ==> a == (if s.library_focus
            == LibraryFocus::Books {
            Action::PlaySelectedBook
        } else {
            Action::PlaySelectedChapter
        }),
        !s.show_info && s.view == screen::View::Library && (key == Key::Char('j') || key == Key::Down)
            && s.library_focus == LibraryFocus::Books ==> a == Action::NoAction && s2 == (if s.selected_book
            + 1 < n_books {
            (UiState { selected_book: (s.selected_book + 1) as usize, selected_chapter: 0, ..s })
        } else {
            s
        }),
        !s.show_info && s.view == screen::View::Library && (key == Key::Char('j') || key == Key::Down)
            && s.library_focus == LibraryFocus::Chapters ==> a == Action::NoAction && s2 == (if s.selected_chapter
            + 1 < n_chapters {
            (UiState { selected_chapter: (s.selected_chapter + 1) as usize, ..s })
        } else {
            s
        }),
        !s.show_info && s.view == screen::View::Library && (key == Key::Char('k') || key == Key::Up)
            && s.library_focus == LibraryFocus::Books ==> a == Action::NoAction && s2 == (if s.selected_book > 0 {
            (UiState { selected_book: (s.selected_book - 1) as usize, selected_chapter: 0, ..s })
        } else {
            s
        }),
        !s.show_info && s.view == screen::View::Library && (key == Key::Char('k') || key == Key::Up)
            && s.library_focus == LibraryFocus::Chapters ==> a == Action::NoAction && s2 == (
        if s.selected_chapter > 0 {
            (UiState { selected_chapter: (s.selected_chapter - 1) as usize, ..s })
        } else {
            s
        }),
        !s.show_info && s.view == screen::View::Browser && (key == Key::Char('j') || key == Key::Down) ==> a
            == Action::BrowserDown && s2 == s,
        !s.show_info && s.view == screen::View::Browser && (key == Key::Char('k') || key == Key::Up) ==> a
            == Action::BrowserUp && s2 == s,
        !s.show_info && s.view == screen::View::Browser && key == Key::Char('g') ==> a == Action::BrowserTop,
        !s.show_info && s.view == screen::View::Browser && key == Key::Char('G') ==> a
            == Action::BrowserBottom,
        !s.show_info && s.view == screen::View::Browser && (key == Key::Char('h') || key == Key::Left || key
            == Key::Backspace) ==> a == Action::BrowserParent,
        !s.show_info && s.view == screen::View::Browser && (key == Key::Enter || key == Key::Char('l') || key
            == Key::Right) ==> a == Action::BrowserOpen,
        !s.show_info && s.view == screen::View::Browser && key == Key::Char('a') ==> a
            == Action::BrowserImport && s2 == s,
        !s.show_info && s.view == screen::View::Browser && key == Key::Esc ==> a == Action::NoAction && s2
            == (UiState { view: screen::View::Library, ..s }),
{
}

// ---------------------------------------------------------------------
// Chapters during playback
// ---------------------------------------------------------------------

/// The position of the first chapter that lives in file `qi`.
pub open spec fn first_chapter_of_file(chs: Seq<Chapter>, qi: usize) -> Option<nat>
    decreases chs.len(),
{
    if chs.len() == 0 {
        None
    } else if chs[0].file_index == qi {
        Some(0)
    } else {
        match first_chapter_of_file(chs.drop_first(), qi) {
            Some(i) => Some(i + 1),
            None => None,
        }
    }
}

/// The number of leading chapters that start at or before `pos`.
pub open spec fn started_chapters(chs: Seq<Chapter>, pos: u128) -> nat
    decreases chs.len(),
{
    if chs.len() > 0 && chs[0].start <= pos {
        1 + started_chapters(chs.drop_first(), pos)
    } else {
        0
    }
}

/// The chapter a playback position belongs to. For multi-file books chapters
/// are one per file, so the queue position decides (the first chapter of that
/// file, else 0); for single-file books it is the last chapter of the leading
/// run of chapters that start at or before the position (else 0).
pub open spec fn chapter_index_spec(book: Book, queue_index: usize, position: u128) -> nat {
    match book.kind {
        BookKind::MultiFile { .. } => match first_chapter_of_file(book.chapters@, queue_index) {
            Some(i) => i,
            None => 0,
        },
        BookKind::SingleFile { .. } => {
            let c = started_chapters(book.chapters@, position);
            if c == 0 {
                0
            } else {
                (c - 1) as nat
            }
        },
    }
}

proof fn lemma_first_chapter_of_file_skip(chs: Seq<Chapter>, qi: usize, k: int)
    requires
        0 <= k <= chs.len(),
        forall|m: int| 0 <= m < k ==> (#[trigger] chs[m]).file_index != qi,
    ensures
        first_chapter_of_file(chs, qi) == match first_chapter_of_file(chs.skip(k), qi) {
            Some(i) => Some((i + k) as nat),
            None => None::<nat>,
        },
        first_chapter_of_file(chs, qi) matches Some(i) ==> i < chs.len(),
    decreases k,
{
    if k > 0 {
        assert(chs.drop_first().skip(k - 1) =~= chs.skip(k));
        assert forall|m: int| 0 <= m < k - 1 implies (#[trigger] chs.drop_first()[m]).file_index != qi by {
            assert(chs.drop_first()[m] == chs[m + 1]);
        }
        lemma_first_chapter_of_file_skip(chs.drop_first(), qi, k - 1);
    } else {
        assert(chs.skip(0) =~= chs);
        lemma_first_chapter_bound(chs, qi);
    }
}

proof fn lemma_first_chapter_bound(chs: Seq<Chapter>, qi: usize)
    ensures
        first_chapter_of_file(chs, qi) matches Some(i) ==> i < chs.len() && chs[i as int].file_index == qi,
    decreases chs.len(),
{
    if chs.len() > 0 && chs[0].file_index != qi {
        lemma_first_chapter_bound(chs.drop_first(), qi);
    }
}

proof fn lemma_started_chapters_skip(chs: Seq<Chapter>, pos: u128, k: int)
    requires
        0 <= k <= chs.len(),
        forall|m: int| 0 <= m < k ==> (#[trigger] chs[m]).start <= pos,
    ensures
        started_chapters(chs, pos) == k + started_chapters(chs.skip(k), pos),
    decreases k,
{
    if k > 0 {
        assert(chs.drop_first().skip(k - 1) =~= chs.skip(k));
        assert forall|m: int| 0 <= m < k - 1 implies (#[trigger] chs.drop_first()[m]).start <= pos by {
            assert(chs.drop_first()[m] == chs[m + 1]);
        }
        lemma_started_chapters_skip(chs.drop_first(), pos, k - 1);
    } else {
        assert(chs.skip(0) =~= chs);
    }
}

/// `c` is the chapter playback is in, described directly. A multi-file
/// book is in the first chapter of the queued file (chapter 0 when no
/// chapter belongs to it). A single-file book is in the last chapter of the
/// leading run of chapters that start at or before the position: every
/// chapter up to `c` has started and the next one has not (chapter 0 when
/// the first chapter has not started, or there are none).
pub open spec fn is_playing_chapter(book: Book, queue_index: usize, position: u128, c: nat) -> bool {
    let chs = book.chapters@;
    match book.kind {
        BookKind::MultiFile { .. } => if exists|m: int| 0 <= m < chs.len() && (#[trigger] chs[m]).file_index
            == queue_index {
            &&& c < chs.len()
            &&& chs[c as int].file_index == queue_index
            &&& forall|m: int| 0 <= m < c ==> (#[trigger] chs[m]).file_index != queue_index
        } else {
            c == 0
        },
        BookKind::SingleFile { .. } => if chs.len() > 0 && chs[0].start <= position {
            &&& c < chs.len()
            &&& forall|m: int| 0 <= m <= c ==> (#[trigger] chs[m]).start <= position
            &&& c + 1 < chs.len() ==> chs[(c + 1) as int].start > position
        } else {
            c == 0
        },
    }
}

proof fn lemma_first_chapter_of_file_is_first(chs: Seq<Chapter>, qi: usize)
    ensures
        match first_chapter_of_file(chs, qi) {
            Some(i) => i < chs.len() && chs[i as int].file_index == qi && forall|m: int|
                0 <= m < i ==> (#[trigger] chs[m]).file_index != qi,
            None => forall|m: int| 0 <= m < chs.len() ==> (#[trigger] chs[m]).file_index != qi,
        },
    decreases chs.len(),
{
    if chs.len() > 0 && chs[0].file_index != qi {
        lemma_first_chapter_of_file_is_first(chs.drop_first(), qi);
        assert forall|m: int| 1 <= m < chs.len() implies chs[m] == chs.drop_first()[m - 1] by {}
        match first_chapter_of_file(chs.drop_first(), qi) {
            Some(i) => {
                assert forall|m: int| 0 <= m < i + 1 implies (#[trigger] chs[m]).file_index != qi by {
                    if m > 0 {
                        assert(chs[m] == chs.drop_first()[m - 1]);
                    }
                }
            },
            None => {
                assert forall|m: int| 0 <= m < chs.len() implies (#[trigger] chs[m]).file_index != qi by {
                    if m > 0 {
                        assert(chs[m] == chs.drop_first()[m - 1]);
                    }
                }
            },
        }
    }
}

proof fn lemma_started_chapters_run(chs: Seq<Chapter>, pos: u128)
    ensures
        started_chapters(chs, pos) <= chs.len(),
        forall|m: int| 0 <= m < started_chapters(chs, pos) ==> (#[trigger] chs[m]).start <= pos,
        started_chapters(chs, pos) < chs.len() ==> chs[started_chapters(chs, pos) as int].start > pos,
    decreases chs.len(),
{
    if chs.len() > 0 && chs[0].start <= pos {
        lemma_started_chapters_run(chs.drop_first(), pos);
        assert forall|m: int| 0 <= m < started_chapters(chs, pos) implies (#[trigger] chs[m]).start <= pos by {
            if m > 0 {
                assert(chs[m] == chs.drop_first()[m - 1]);
            }
        }
        if started_chapters(chs, pos) < chs.len() {
            let s = started_chapters(chs, pos);
            assert(chs[s as int] == chs.drop_first()[s - 1]);
        }
    }
}

/// Law: the chapter found for a playback position is the chapter playback is
/// in (`is_playing_chapter`), and no other chapter is.
pub proof fn law_chapter_index_is_playing_chapter(book: Book, queue_index: usize, position: u128, c: nat)
    ensures
        is_playing_chapter(book, queue_index, position, chapter_index_spec(book, queue_index, position)),
        is_playing_chapter(book, queue_index, position, c) ==> c == chapter_index_spec(
            book,
            queue_index,
            position,
        ),
{
    let chs = book.chapters@;
    match book.kind {
        BookKind::MultiFile { .. } => {
            lemma_first_chapter_of_file_is_first(chs, queue_index);
            match first_chapter_of_file(chs, queue_index) {
                Some(i) => {
                    if is_playing_chapter(book, queue_index, position, c) {
                        if c < i {
                            assert(chs[c as int].file_index != queue_index);
                        } else if i < c {
                            assert(chs[i as int].file_index != queue_index);
                        }
                    }
                },
                None => {},
            }
        },
        BookKind::SingleFile { .. } => {
            lemma_started_chapters_run(chs, position);
            let st = started_chapters(chs, position);
            if chs.len() > 0 && chs[0].start <= position {
                assert(st > 0);
                if is_playing_chapter(book, queue_index, position, c) {
                    if c + 1 < st {
                        assert(chs[(c + 1) as int].start <= position);
                    } else if c + 1 > st {
                        assert(chs[st as int].start <= position);
                    }
                }
            } else {
                if chs.len() > 0 {
                    assert(st == 0);
                }
            }
        },
    }
}

/// Finds the chapter a playback position belongs to (see
/// `chapter_index_spec`); it is a chapter of the book when the book has any.
pub fn current_chapter_index(book: &Book, queue_index: usize, position: u128) -> (r: usize)
    ensures
        r == chapter_index_spec(*book, queue_index, position),
        is_playing_chapter(*book, queue_index, position, r as nat),
        book.chapters@.len() > 0 ==> r < book.chapters@.len(),
        book.chapters@.len() == 0 ==> r == 0,
{
    proof {
        law_chapter_index_is_playing_chapter(*book, queue_index, position, 0);
    }
    let chs = &book.chapters;
    match &book.kind {
        BookKind::MultiFile { .. } => {
            let mut i: usize = 0;
            while i < chs.len() && chs[i].file_index != queue_index
                invariant
                    i <= chs@.len(),
                    forall|m: int| 0 <= m < i ==> (#[trigger] chs@[m]).file_index != queue_index,
                decreases chs.len() - i,
            {
                i = i + 1;
            }
            proof {
                lemma_first_chapter_of_file_skip(chs@, queue_index, i as int);
                let u = chs@.skip(i as int);
                if u.len() > 0 {
                    assert(u[0] == chs@[i as int]);
                }
            }
            if i < chs.len() {
                i
            } else {
                0
            }
        },
        BookKind::SingleFile { .. } => {
            let mut i: usize = 0;
            while i < chs.len() && chs[i].start <= position
                invariant
                    i <= chs@.len(),
                    forall|m: int| 0 <= m < i ==> (#[trigger] chs@[m]).start <= position,
                decreases chs.len() - i,
            {
                i = i + 1;
            }
            proof {
                lemma_started_chapters_skip(chs@, position, i as int);
                let u = chs@.skip(i as int);
                if u.len() > 0 {
                    assert(u[0] == chs@[i as int]);
                }
            }
            if i == 0 {
                0
            } else {
                i - 1
            }
        },
    }
}

/// The chapter a skip goes to: the next one, or the previous one (staying at
/// the first); `None` when the book has no chapters or there is no next one.
pub open spec fn skip_target_spec(book: Book, queue_index: usize, position: u128, forward: bool) -> Option<nat> {
    if book.chapters@.len() == 0 {
        None
    } else {
        let current = chapter_index_spec(book, queue_index, position);
        let next = if forward {
            current + 1
        } else if current == 0 {
            0
        } else {
            (current - 1) as nat
        };
        if next < book.chapters@.len() {
            Some(next)
        } else {
            None
        }
    }
}

/// Where a skip from chapter `c` of `n` chapters lands: the next chapter, or
/// the previous one (staying at the first); `None` when there is no such
/// chapter.
pub open spec fn skip_from(c: nat, n: nat, forward: bool) -> Option<usize> {
    let next: int = if forward {
        c as int + 1
    } else if c == 0 {
        0
    } else {
        c as int - 1
    };
    if next < n {
        Some(next as usize)
    } else {
        None
    }
}

/// Law: a skip goes from the chapter playback is in (`is_playing_chapter`)
/// to the next chapter, or to the previous one (the first stays the first);
/// there is no target when the book has no chapters or no next chapter.
pub proof fn law_skip_moves_from_playing_chapter(
    book: Book,
    queue_index: usize,
    position: u128,
    forward: bool,
    c: nat,
)
    requires
        is_playing_chapter(book, queue_index, position, c),
    ensures
        book.chapters@.len() == 0 ==> skip_target_spec(book, queue_index, position, forward) is None,
        forward && c + 1 < book.chapters@.len() ==> skip_target_spec(book, queue_index, position, forward)
            == Some((c + 1) as nat),
        forward && c + 1 >= book.chapters@.len() ==> skip_target_spec(book, queue_index, position, forward)
            is None,
        !forward && book.chapters@.len() > 0 ==> skip_target_spec(book, queue_index, position, forward)
            == Some(if c == 0 { 0 } else { (c - 1) as nat }),
{
    law_chapter_index_is_playing_chapter(book, queue_index, position, c);
    if book.chapters@.len() > 0 {
        assert(c < book.chapters@.len()) by {
            law_chapter_index_is_playing_chapter(book, queue_index, position, c);
        }
    }
}

/// The chapter to skip to from the current playback position.
pub fn chapter_skip_target(book: &Book, queue_index: usize, position: u128, forward: bool) -> (r: Option<usize>)
    ensures
        match r {
            Some(i) => skip_target_spec(*book, queue_index, position, forward) == Some(i as nat),
            None => skip_target_spec(*book, queue_index, position, forward) is None,
        },
        forall|c: nat|
            #[trigger] is_playing_chapter(*book, queue_index, position, c) ==> r == skip_from(
                c,
                book.chapters@.len(),
                forward,
            ),
{
    proof {
        assert forall|c: nat| #[trigger] is_playing_chapter(*book, queue_index, position, c) implies c
            == chapter_index_spec(*book, queue_index, position) by {
            law_chapter_index_is_playing_chapter(*book, queue_index, position, c);
        }
    }
    if book.chapters.len() == 0 {
        return None;
    }
    let current = current_chapter_index(book, queue_index, position);
    let next = if forward {
        current + 1
    } else if current == 0 {
        0
    } else {
        current - 1
    };
    if next < book.chapters.len() {
        Some(next)
    } else {
        None
    }
}

/// Where resuming a book starts: the file of its saved chapter (0 if that
/// chapter does not exist) at the saved position.
pub fn resume_point(book: &Book) -> (r: (usize, u128))
    ensures
        r.0 == (if book.progress.current_chapter < book.chapters@.len() {
            book.chapters@[book.progress.current_chapter as int].file_index
        } else {
            0
        }),
        r.1 == book.progress.position,
{
    let qi = if book.progress.current_chapter < book.chapters.len() {
        book.chapters[book.progress.current_chapter].file_index
    } else {
        0
    };
    (qi, book.progress.position)
}

/// The files a book queues for playback, in order.
pub fn book_queue(book: &Book) -> (r: Vec<String>)
    ensures
        r@.len() == book_files(book.kind).len(),
        forall|k: int| 0 <= k < r@.len() ==> (#[trigger] r@[k])@ == book_files(book.kind)[k]@,
{
    match &book.kind {
        BookKind::SingleFile { path } => {
            let mut v: Vec<String> = Vec::new();
            v.push(path.clone());
            v
        },
        BookKind::MultiFile { files } => {
            let mut v: Vec<String> = Vec::new();
            let mut i: usize = 0;
            while i < files.len()
                invariant
                    i <= files@.len(),
                    v@.len() == i,
                    forall|k: int| 0 <= k < i ==> (#[trigger] v@[k])@ == files@[k]@,
                decreases files.len() - i,
            {
                v.push(files[i].clone());
                i = i + 1;
            }
            v
        },
    }
}

/// Whether any file of a book is in the player's queue, comparing paths as
/// `Path`s (see `same_path`).
pub fn queue_holds_book(kind: &BookKind, queue: &Vec<String>) -> (r: bool)
    ensures
        r == exists|i: int, j: int|
            0 <= i < queue@.len() && 0 <= j < book_files(*kind).len() && same_path_spec(
                (#[trigger] queue@[i])@,
                (#[trigger] book_files(*kind)[j])@,
            ),
{
    let files = book_queue_of_kind(kind);
    let mut i: usize = 0;
    while i < queue.len()
        invariant
            i <= queue@.len(),
            files@.len() == book_files(*kind).len(),
            forall|k: int| 0 <= k < files@.len() ==> (#[trigger] files@[k])@ == book_files(*kind)[k]@,
            forall|a: int, b: int|
                0 <= a < i && 0 <= b < book_files(*kind).len() ==> !same_path_spec(
                    (#[trigger] queue@[a])@,
                    (#[trigger] book_files(*kind)[b])@,
                ),
        decreases queue.len() - i,
    {
        let mut j: usize = 0;
        while j < files.len()
            invariant
                i < queue@.len(),
                j <= files@.len(),
                files@.len() == book_files(*kind).len(),
                forall|k: int| 0 <= k < files@.len() ==> (#[trigger] files@[k])@ == book_files(*kind)[k]@,
                forall|b: int|
                    0 <= b < j ==> !same_path_spec(queue@[i as int]@, (#[trigger] book_files(*kind)[b])@),
            decreases files.len() - j,
        {
            if same_path(queue[i].as_str(), files[j].as_str()) {
                assert(same_path_spec(queue@[i as int]@, book_files(*kind)[j as int]@));
                return true;
            }
            j = j + 1;
        }
        i = i + 1;
    }
    false
}

fn book_queue_of_kind(kind: &BookKind) -> (r: Vec<String>)
    ensures
        r@.len() == book_files(*kind).len(),
        forall|k: int| 0 <= k < r@.len() ==> (#[trigger] r@[k])@ == book_files(*kind)[k]@,
{
    match kind {
        BookKind::SingleFile { path } => {
            let mut v: Vec<String> = Vec::new();
            v.push(path.clone());
            v
        },
        BookKind::MultiFile { files } => {
            let mut v: Vec<String> = Vec::new();
            let mut i: usize = 0;
            while i < files.len()
                invariant
                    i <= files@.len(),
                    v@.len() == i,
                    forall|k: int| 0 <= k < i ==> (#[trigger] v@[k])@ == files@[k]@,
                decreases files.len() - i,
            {
                v.push(files[i].clone());
                i = i + 1;
            }
            v
        },
    }
}

/// What saving the playback position does: the first book with the playing
/// book's id gets the position and the chapter it falls in; nothing else
/// changes (and nothing at all when no book has that id).
pub open spec fn progress_recorded(old: Seq<Book>, new: Seq<Book>, id: Seq<char>, queue_index: usize, position: u128) -> bool {
    if has_id(old, id) {
        let k = choose|k: int| is_first_id(old, id, k);
        let b = old[k];
        new == old.update(
            k,
            Book {
                progress: Progress {
                    position,
                    current_chapter: chapter_index_spec(b, queue_index, position) as usize,
                    ..b.progress
                },
                ..b
            },
        )
    } else {
        new == old
    }
}

/// Law: recording progress changes only the first book with that id: its
/// position becomes the player's position and its current chapter the
/// chapter playback is in (`is_playing_chapter`); its other progress and
/// every other field stay, and every other book stays. With no such book
/// nothing changes.
pub proof fn law_record_progress_sets_playing_chapter(
    old: Seq<Book>,
    new: Seq<Book>,
    id: Seq<char>,
    queue_index: usize,
    position: u128,
    k: int,
)
    requires
        progress_recorded(old, new, id, queue_index, position),
        0 <= k < old.len(),
        old[k].id@ == id,
        forall|m: int| 0 <= m < k ==> (#[trigger] old[m]).id@ != id,
    ensures
        new.len() == old.len(),
        forall|j: int| 0 <= j < new.len() && j != k ==> #[trigger] new[j] == old[j],
        new[k].progress.position == position,
        is_playing_chapter(old[k], queue_index, position, new[k].progress.current_chapter as nat),
        new[k].progress.finished == old[k].progress.finished,
        new[k].progress.last_played_at == old[k].progress.last_played_at,
        new[k].id == old[k].id,
        new[k].root == old[k].root,
        new[k].kind == old[k].kind,
        new[k].title == old[k].title,
        new[k].author == old[k].author,
        new[k].narrator == old[k].narrator,
        new[k].series == old[k].series,
        new[k].series_index == old[k].series_index,
        new[k].year == old[k].year,
        new[k].cover_path == old[k].cover_path,
        new[k].total_duration == old[k].total_duration,
        new[k].chapters == old[k].chapters,
        new[k].bookmarks == old[k].bookmarks,
{
    assert(has_id(old, id));
    assert(is_first_id(old, id, k));
    let kk = choose|kk: int| is_first_id(old, id, kk);
    if kk < k {
        assert(old[kk].id@ != id);
    } else if k < kk {
        assert(old[k].id@ != id);
    }
    let b = old[k];
    law_chapter_index_is_playing_chapter(b, queue_index, position, 0);
    lemma_chapter_index_fits(b, queue_index, position);
}

/// Law: recording progress for an id no book has changes nothing.
pub proof fn law_record_progress_unknown_id(
    old: Seq<Book>,
    new: Seq<Book>,
    id: Seq<char>,
    queue_index: usize,
    position: u128,
)
    requires
        progress_recorded(old, new, id, queue_index, position),
        forall|m: int| 0 <= m < old.len() ==> (#[trigger] old[m]).id@ != id,
    ensures
        new == old,
{
}

proof fn lemma_chapter_index_fits(b: Book, queue_index: usize, position: u128)
    ensures
        chapter_index_spec(b, queue_index, position) <= usize::MAX,
        (chapter_index_spec(b, queue_index, position) as usize) as nat == chapter_index_spec(
            b,
            queue_index,
            position,
        ),
{
    law_chapter_index_is_playing_chapter(b, queue_index, position, 0);
    assert(b.chapters@.len() == b.chapters.len());
}

/// Saves the playback position into the playing book (found by id, not by
/// the selection, which may have moved on).
pub fn record_progress(library: &mut Library, book_id: &str, queue_index: usize, position: u128)
    ensures
        progress_recorded(old(library).books@, final(library).books@, book_id@, queue_index, position),
        forall|k: int|
            #[trigger] is_first_id(old(library).books@, book_id@, k) ==> final(library).books@[k].progress.position
                == position && is_playing_chapter(
                old(library).books@[k],
                queue_index,
                position,
                final(library).books@[k].progress.current_chapter as nat,
            ),
{
    let ghost before = library.books@;
    record_progress_in(library, book_id, queue_index, position);
    proof {
        assert forall|k: int| #[trigger] is_first_id(before, book_id@, k) implies library.books@[k].progress.position
            == position && is_playing_chapter(
            before[k],
            queue_index,
            position,
            library.books@[k].progress.current_chapter as nat,
        ) by {
            law_record_progress_sets_playing_chapter(before, library.books@, book_id@, queue_index, position, k);
        }
    }
}

fn record_progress_in(library: &mut Library, book_id: &str, queue_index: usize, position: u128)
    ensures
        progress_recorded(old(library).books@, final(library).books@, book_id@, queue_index, position),
{
    match library.find_book(book_id) {
        Some(k) => {
            let ghost old_books = library.books@;
            let mut b = library.books.remove(k);
            let chapter = current_chapter_index(&b, queue_index, position);
            b.progress.position = position;
            b.progress.current_chapter = chapter;
            library.books.insert(k, b);
            proof {
                let kk = choose|kk: int| is_first_id(old_books, book_id@, kk);
                if kk < k {
                    assert(old_books[kk].id@ != book_id@);
                } else if k < kk {
                    assert(old_books[k as int].id@ != book_id@);
                }
                assert(library.books@ =~= old_books.update(k as int, b));
            }
        },
        None => {},
    }
}

} // verus!
