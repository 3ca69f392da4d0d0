//! Rules and state engine for four-player, double-deck pinochle.
//!
//! The deck holds 48 cards: four suits, six ranks, two copies of each. Every
//! card has a dense index in `0..48`, and a set of cards is a `u64` with one
//! bit per index. On top of that encoding the crate provides meld scoring,
//! trick resolution, and the state machine of one deal.

pub mod cards;
pub mod error;
pub mod pinochle;
pub mod agent;
