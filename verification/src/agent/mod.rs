//! What a player has to be able to do.

use vstd::prelude::*;

verus! {

/// A player's decisions. The engine asks and then checks every answer
/// itself: nothing is assumed of what an agent returns, beyond that it is
/// an answer of that agent.
pub trait PinochleAgent {
    /// Whether `bid` is an answer that this agent may give when it holds
    /// `hand` and the highest bid so far is `current_bid`. An agent says
    /// here as much or as little of its bidding as it likes; one that says
    /// nothing may answer anything.
    open spec fn may_answer_bid(&self, hand: u64, current_bid: u16, bid: u16) -> bool {
        true
    }

    /// Whether `card` is an answer that this agent may give when it holds
    /// `hand` and the cards `current_card` lie on the table. An agent says
    /// here as much or as little of its play as it likes; one that says
    /// nothing may answer anything.
    open spec fn may_answer_card(&self, hand: u64, current_card: Seq<u16>, card: u16) -> bool {
        true
    }

    /// Proposes a bid, given the agent's hand and the highest bid so far.
    /// An answer that is not higher than `current_bid` is taken as a pass.
    fn choose_bid(&self, hand: u64, current_bid: u16) -> (bid: u16)
        ensures
            self.may_answer_bid(hand, current_bid, bid),
    ;

    /// Proposes a card to play, by index, given the agent's hand and the
    /// cards already played to the trick in progress, in the order played.
    fn play_card(&self, hand: u64, current_card: &[u16]) -> (card: u16)
        ensures
            self.may_answer_card(hand, current_card@, card),
    ;
}

} // verus!
