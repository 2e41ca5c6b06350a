//! What the interactive loop decides after handling one selection.
use vstd::prelude::*;

verus! {

#[derive(Clone, Copy, PartialEq, Eq, Structural, Debug)]
pub enum AppAction {
    /// Leave the program.
    Exit,
    /// Return to the server selection.
    GoBack,
}

} // verus!
