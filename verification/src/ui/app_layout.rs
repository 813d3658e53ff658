//! Which extra view the layout shows.

use vstd::prelude::*;

verus! {

/// A view that is shown on top of the main layout.
#[derive(Debug, Clone, Copy, PartialEq, Eq, Structural)]
pub enum ShowView {
    /// The version history of the current note.
    ShowVersionHistory,
}

} // verus!
