//! The screens of the interface.
use vstd::prelude::*;

verus! {

/// The screen shown.
#[derive(Debug, Clone, Copy, PartialEq, Eq, Structural)]
pub enum View {
    Library,
    Bookmarks,
    Browser,
}

} // verus!
