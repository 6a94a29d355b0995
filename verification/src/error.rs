//! Errors of the registry and of the deploy pass.

use vstd::prelude::*;

verus! {

/// What can go wrong inside the library's own logic.
///
/// Configuration and lookup errors abort only the current command; an
/// extraction error is recorded for its mod and the deploy pass goes on.
#[derive(Debug, Clone, PartialEq, Eq)]
pub enum Error {
    /// A game of this name is already managed.
    AlreadyManaged(String),
    /// No game of this name is managed.
    UnknownGame(String),
    /// No active game is set.
    NoActiveGame,
    /// No mod name matches this selector (carried lowered).
    UnknownMod(String),
    /// A mod cannot be moved above or below itself.
    SelfRelativeMove(String),
    /// The external extraction tool exited with a non-zero status.
    Extraction { archive: String, code: Option<i32> },
}

} // verus!
