//! What holds of every well-formed deal.

use vstd::prelude::*;
use crate::cards::bits;
use crate::cards::bits::has_bit;
use crate::cards::bits::popcount;
use crate::cards::deck;
use crate::cards::lemma_deck;
use crate::cards::lemma_in_deck;
use crate::cards::lemma_suit_mask;
use crate::cards::suit_at;
use crate::cards::Suit;
use crate::cards::DECK;
use crate::error::GameError;
use crate::pinochle::game_state::card_word;
use crate::pinochle::game_state::one_if;
use crate::pinochle::game_state::GameState;
use crate::pinochle::trick::lemma_points_deck;
use crate::pinochle::trick::lemma_points_disjoint;
use crate::pinochle::GamePhase;

verus! {

/// How many cards the four players hold between them.
pub open spec fn cards_in_hands(s: GameState) -> nat {
    popcount(s.hands[0]) + popcount(s.hands[1]) + popcount(s.hands[2]) + popcount(s.hands[3])
}

/// How many cards lie in the two piles of tricks taken.
pub open spec fn cards_taken(s: GameState) -> nat {
    popcount(s.taken[0]) + popcount(s.taken[1])
}

/// How many cards are still to be played before the deal is complete.
pub open spec fn moves_left(s: GameState) -> int {
    4 * (12 - s.tricks_played) - s.cards_in_current_trick
}

/// Conservation. At every step of a deal, also while the fourth card of a
/// trick lies on the table, the cards in the hands, the cards on the table
/// and the cards already taken are 48 in all, and the cards taken are four
/// for each trick played.
pub proof fn lemma_conservation(s: GameState)
    requires
        s.inv(),
    ensures
        cards_in_hands(s) + s.cards_in_current_trick + cards_taken(s) == 48,
        cards_taken(s) == 4 * s.tricks_played,
        cards_in_hands(s) == moves_left(s),
{
    s.lemma_locations();
    deck::lemma_partition_total(s.locations());
    bits::lemma_popcount_zero(0);
    assert forall|k: int| 0 <= k < 4 implies popcount(card_word(#[trigger] s.current_trick[k]))
        == if k < s.cards_in_current_trick {
        1nat
    } else {
        0nat
    } by {
        match s.current_trick[k] {
            Some(c) => {
                bits::lemma_popcount_single(c as u64);
            },
            None => {},
        }
    }
    assert(s.hand_size_ok(0) && s.hand_size_ok(1) && s.hand_size_ok(2) && s.hand_size_ok(3));
    let n = s.cards_in_current_trick as int;
    let l = s.lead_player as int;
    assert(one_if(s.has_played(0)) + one_if(s.has_played(1)) + one_if(s.has_played(2)) + one_if(
        s.has_played(3),
    ) == n) by {
        assert(s.has_played(l) == (0 < n));
        assert(s.has_played((l + 1) % 4) == (1 < n));
        assert(s.has_played((l + 2) % 4) == (2 < n));
        assert(s.has_played((l + 3) % 4) == (3 < n));
    }
}

/// Legality. When a card has been led and the player to act holds a card
/// of its suit, playing a card of another suit is refused as an illegal
/// move.
pub proof fn lemma_must_follow_suit(s: GameState, held: int, proposed: u16)
    requires
        s.wf(),
        s.phase == GamePhase::Play,
        s.cards_in_current_trick > 0,
        0 <= held < 48,
        has_bit(s.hands[s.turn as int], held),
        suit_at(held) == s.lead_suit(),
        proposed < 48,
        suit_at(proposed as int) != s.lead_suit(),
    ensures
        s.must_follow(),
        s.move_outcome(proposed) == Err::<(), GameError>(GameError::IllegalMove),
{
    let hand = s.hands[s.turn as int];
    let mask = s.lead_suit().spec_mask();
    lemma_suit_mask(s.lead_suit());
    bits::lemma_bit_and(hand, mask);
    bits::lemma_popcount_zero(hand & mask);
    assert(has_bit(hand & mask, held));
}

/// Progress. While the deal is in `Play`, the player to act holds a card
/// that may be played.
pub proof fn lemma_progress(s: GameState) -> (c: u16)
    requires
        s.wf(),
        s.phase == GamePhase::Play,
    ensures
        s.move_outcome(c) == Ok::<(), GameError>(()),
{
    let hand = s.hands[s.turn as int];
    assert(s.hand_size_ok(s.turn as int));
    assert(!s.has_played(s.turn as int));
    bits::lemma_popcount_zero(hand);
    assert(s.locations()[s.turn as int] <= DECK);
    lemma_in_deck(hand);
    if s.must_follow() {
        let mask = s.lead_suit().spec_mask();
        lemma_suit_mask(s.lead_suit());
        bits::lemma_bit_and(hand, mask);
        bits::lemma_popcount_zero(hand & mask);
        let i = choose|i: int| has_bit(hand & mask, i);
        assert(has_bit(hand, i));
        i as u16
    } else {
        let i = choose|i: int| has_bit(hand, i);
        i as u16
    }
}

/// Termination. Each accepted play leaves one card fewer to play. The
/// deal is then complete exactly when none is left, which is after the
/// twelfth trick; until then it stays in `Play`.
pub proof fn lemma_move_counts_down(s: GameState, c: u16)
    requires
        s.move_outcome(c) is Ok,
    ensures
        moves_left(s) > 0,
        moves_left(s.after_move(c)) == moves_left(s) - 1,
        s.after_move(c).phase == if moves_left(s) == 1 {
            GamePhase::Complete
        } else {
            GamePhase::Play
        },
        s.after_move(c).phase == GamePhase::Complete ==> s.after_move(c).tricks_played == 12,
{
    let placed = s.with_card(c);
    s.lemma_card_placed(c);
    if placed.cards_in_current_trick == 4 {
        placed.lemma_trick_taken();
    }
}

/// The state after the plays `moves`, one after the other.
pub open spec fn after_moves(s: GameState, moves: Seq<u16>) -> GameState
    decreases moves.len(),
{
    if moves.len() == 0 {
        s
    } else {
        after_moves(s, moves.drop_last()).after_move(moves.last())
    }
}

/// Whether each of the plays `moves` is accepted when its turn comes.
pub open spec fn all_accepted(s: GameState, moves: Seq<u16>) -> bool
    decreases moves.len(),
{
    moves.len() == 0 || (all_accepted(s, moves.drop_last()) && after_moves(
        s,
        moves.drop_last(),
    ).move_outcome(moves.last()) is Ok)
}

/// The length of a deal. However the players play, as long as each play
/// is accepted: the state stays well-formed, no more plays are accepted
/// than cards are left to play, and the deal is complete exactly when all
/// of them are played. From the first lead that is after 48 plays, which
/// are twelve tricks.
pub proof fn lemma_deal_length(s: GameState, moves: Seq<u16>)
    requires
        s.wf(),
        s.phase == GamePhase::Play,
        all_accepted(s, moves),
    ensures
        after_moves(s, moves).wf(),
        moves.len() <= moves_left(s),
        moves_left(after_moves(s, moves)) == moves_left(s) - moves.len(),
        after_moves(s, moves).phase == if moves.len() == moves_left(s) {
            GamePhase::Complete
        } else {
            GamePhase::Play
        },
        s.tricks_played == 0 && s.cards_in_current_trick == 0 ==> moves_left(s) == 48,
        after_moves(s, moves).phase == GamePhase::Complete ==> after_moves(s, moves).tricks_played
            == 12,
    decreases moves.len(),
{
    if moves.len() > 0 {
        let before = after_moves(s, moves.drop_last());
        lemma_deal_length(s, moves.drop_last());
        lemma_move_counts_down(before, moves.last());
        before.lemma_move_keeps_wf(moves.last());
    } else {
        lemma_conservation(s);
    }
}

/// A complete deal took twelve tricks, and nobody holds a card.
pub proof fn lemma_complete(s: GameState)
    requires
        s.wf(),
        s.phase == GamePhase::Complete,
    ensures
        s.tricks_played == 12,
        s.hands_empty(),
        s.cards_in_current_trick == 0,
        moves_left(s) == 0,
        s.taken[0] | s.taken[1] == DECK,
        s.taken[0] & s.taken[1] == 0,
{
    assert forall|p: int| 0 <= p < 4 implies #[trigger] s.hands[p] == 0 by {
        assert(s.hand_size_ok(p));
        bits::lemma_popcount_zero(s.hands[p]);
    }
    s.lemma_locations();
    lemma_deck();
    bits::lemma_bit_zero();
    bits::lemma_bit_or(s.taken[0], s.taken[1]);
    assert(s.locations()[4] <= DECK && s.locations()[5] <= DECK);
    lemma_in_deck(s.taken[0]);
    lemma_in_deck(s.taken[1]);
    assert forall|i: int| 0 <= i < 64 implies (has_bit(s.taken[0] | s.taken[1], i) <==> has_bit(
        DECK,
        i,
    )) by {
        if 0 <= i < 48 {
            assert(deck::holders(s.locations(), i) == 1);
        }
    }
    bits::lemma_bits_equal(s.taken[0] | s.taken[1], DECK);
    deck::lemma_partition_disjoint(s.locations(), 4, 5);
}

/// Score conservation. When the deal is complete, the two scores add up
/// to the 240 points of the cards plus the meld both teams declared.
pub proof fn lemma_final_scores(s: GameState)
    requires
        s.wf(),
        s.phase == GamePhase::Complete,
    ensures
        s.scores[0] + s.scores[1] == 240 + s.meld[0] + s.meld[1],
{
    lemma_complete(s);
    lemma_points_disjoint(s.taken[0], s.taken[1]);
    lemma_points_deck();
    assert(s.score_ok(0) && s.score_ok(1));
}

/// A complete deal accepts no further operation.
pub proof fn lemma_complete_is_final(s: GameState, c: u16, bid: u16)
    requires
        s.wf(),
        s.phase == GamePhase::Complete,
    ensures
        s.move_outcome(c) == Err::<(), GameError>(GameError::InvalidPhaseTransition),
        s.bid_outcome(bid) == Err::<(), GameError>(GameError::InvalidPhaseTransition),
        s.pass_outcome() == Err::<(), GameError>(GameError::InvalidPhaseTransition),
        s.trump_outcome() == Err::<(), GameError>(GameError::InvalidPhaseTransition),
        s.meld_outcome() == Err::<(), GameError>(GameError::InvalidPhaseTransition),
{
}

/// The place of a phase in the order of a deal.
pub open spec fn phase_order(phase: GamePhase) -> int {
    match phase {
        GamePhase::Bidding => 0,
        GamePhase::Meld => 1,
        GamePhase::Play => 2,
        GamePhase::Complete => 3,
    }
}

/// The phases follow one another. Bids and passes stay in `Bidding`,
/// naming trump leads to `Meld`, scoring meld to `Play`, and a play stays
/// in `Play` or completes the deal. Trump, once named, stays as it is.
pub proof fn lemma_phases_advance(s: GameState, bid: u16, suit: Suit, c: u16)
    ensures
        s.bid_outcome(bid) is Ok ==> s.after_bid(bid).phase == GamePhase::Bidding,
        s.pass_outcome() is Ok ==> s.after_pass().phase == GamePhase::Bidding,
        s.trump_outcome() is Ok ==> s.trump is None && s.after_trump(suit).phase
            == GamePhase::Meld && s.after_trump(suit).trump == Some(suit),
        s.meld_outcome() is Ok ==> s.after_meld().phase == GamePhase::Play && s.after_meld().trump
            == s.trump,
        s.move_outcome(c) is Ok ==> phase_order(s.after_move(c).phase) >= phase_order(s.phase)
            && s.after_move(c).trump == s.trump,
{
}

/// A mark that a player is void in a suit, once set, stays set.
pub proof fn lemma_void_marks_stay(s: GameState, c: u16, p: int, suit: Suit)
    requires
        s.move_outcome(c) is Ok,
        0 <= p < 4,
        s.marked_void(p, suit),
    ensures
        s.after_move(c).marked_void(p, suit),
{
    let k = GameState::void_bit(s.turn as int, s.lead_suit()) as u16;
    bits::lemma_mark_bit(s.void_mask, k);
}

} // verus!
