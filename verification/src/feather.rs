//! The Feather icons the sidebar draws.
use vstd::prelude::*;

verus! {

#[derive(Clone, Copy, Debug, PartialEq, Eq, Structural)]
pub enum Icon {
    /// An open group.
    ChevronDown,
    /// A folded group.
    ChevronRight,
    /// Add a pane.
    Plus,
    /// Close.
    X,
    /// Focus, start, resume; filled for the links and the Next pill.
    Play,
    /// Stop; filled for the Stop link.
    Square,
    /// Restore a minimized pane.
    Maximize,
    /// Minimize a pane.
    Minimize,
}

} // verus!
