//! The ways in which the engine refuses an input.

use vstd::prelude::*;

verus! {

/// What the engine rejects.
#[derive(Debug, Clone, Copy, PartialEq, Eq, Hash, Structural)]
pub enum GameError {
    /// A card index outside `0..48`.
    InvalidIndex,
    /// A card the acting player does not hold or may not play, or a bid that
    /// does not raise.
    IllegalMove,
    /// An operation attempted in a phase that does not allow it.
    InvalidPhaseTransition,
    /// The cards of the deal are not each in exactly one place, or the
    /// bookkeeping around them is inconsistent.
    InvariantViolation,
}

} // verus!
