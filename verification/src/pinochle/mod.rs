//! The rules of one deal: meld, tricks, and the state machine that runs
//! them.

use vstd::prelude::*;

pub mod meld;
pub mod trick;
pub mod driver;
pub mod game_state;
pub mod play;
pub mod laws;

pub use game_state::GameState;

verus! {

/// Where a deal stands. A deal moves through the phases in this order and
/// never leaves `Complete`.
#[derive(Debug, Clone, Copy, PartialEq, Eq, Hash, Structural)]
pub enum GamePhase {
    Bidding,
    Meld,
    Play,
    Complete,
}

} // verus!
