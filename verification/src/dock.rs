//! The three docks the plates live in.

use vstd::prelude::*;

verus! {

/// A dock region of the main window.
#[derive(Clone, Copy, Debug, PartialEq, Eq, Structural)]
pub enum Dock {
    Left,
    Right,
    Bottom,
}

/// How many docks there are.
pub const DOCK_COUNT: usize = 3;

/// The marker a dock holds in place of a pane when it is empty.
pub const NO_PANE: usize = usize::MAX;

/// The dock's position in the per-dock tables (`Left`, `Right`, `Bottom`).
pub open spec fn dock_index(d: Dock) -> int {
    match d {
        Dock::Left => 0,
        Dock::Right => 1,
        Dock::Bottom => 2,
    }
}

impl Dock {
    /// The dock's position in the per-dock tables.
    pub fn index(self) -> (i: usize)
        ensures
            i == dock_index(self),
            i < DOCK_COUNT,
    {
        match self {
            Dock::Left => 0,
            Dock::Right => 1,
            Dock::Bottom => 2,
        }
    }
}

} // verus!
