//! Running a deal from the first bid to the last trick with four agents.
//!
//! The driver asks the agent whose turn it is and hands the answer to the
//! state, which checks it. A bid that does not raise is a pass. A card
//! that may not be played is replaced by the lowest card that may. The
//! winning bidder's trump is the longest suit of the hand.

use vstd::prelude::*;
use crate::agent::PinochleAgent;
use crate::cards::bits;
use crate::cards::bits::has_bit;
use crate::cards::bits::popcount;
use crate::cards::deck::first_card;
use crate::cards::suit_at;
use crate::cards::Suit;
use crate::cards::DECK;
use crate::error::GameError;
use crate::pinochle::game_state::is_deal;
use crate::pinochle::game_state::GameState;
use crate::pinochle::laws::after_moves;
use crate::pinochle::laws::all_accepted;
use crate::pinochle::laws::lemma_complete;
use crate::pinochle::laws::lemma_deal_length;
use crate::pinochle::laws::lemma_final_scores;
use crate::pinochle::laws::lemma_must_follow_suit;
use crate::pinochle::laws::lemma_move_counts_down;
use crate::pinochle::laws::lemma_progress;
use crate::pinochle::laws::moves_left;
use crate::pinochle::meld::lemma_meld_bound;
use crate::pinochle::meld::meld_points;
use crate::pinochle::trick::card_points;
use crate::pinochle::trick::lemma_points_bound;
use crate::pinochle::GamePhase;

verus! {

/// How many cards of the suit the hand holds.
pub open spec fn suit_count(hand: u64, suit: Suit) -> nat {
    popcount(hand & suit.spec_mask())
}

/// Whether the suit is the hand's longest: the hand holds no more cards of
/// any other suit, and fewer of every suit that comes before it.
pub open spec fn is_longest(hand: u64, suit: Suit) -> bool {
    forall|other: Suit|
        #![trigger suit_count(hand, other)]
        suit_count(hand, other) <= suit_count(hand, suit) && (other.ord() < suit.ord()
            ==> suit_count(hand, other) < suit_count(hand, suit))
}

/// The suit of which the hand holds the most cards; of several such, the
/// first in the order Spades, Hearts, Diamonds, Clubs.
pub fn longest_suit(hand: u64) -> (r: Suit)
    ensures
        is_longest(hand, r),
{
    let mut best = Suit::Spades;
    let mut best_count: u32 = (hand & Suit::Spades.mask()).count_ones();
    let mut k: usize = 1;
    while k < 4
        invariant
            1 <= k <= 4,
            best.ord() < k,
            best_count == suit_count(hand, best),
            forall|other: Suit|
                #![trigger suit_count(hand, other)]
                other.ord() < k ==> suit_count(hand, other) <= best_count && (other.ord()
                    < best.ord() ==> suit_count(hand, other) < best_count),
        decreases 4 - k,
    {
        let suit = Suit::ALL[k];
        let count = (hand & suit.mask()).count_ones();
        assert(suit.ord() == k);
        if count > best_count {
            best = suit;
            best_count = count;
        }
        k += 1;
    }
    best
}

/// Asks the agent of the given player for a bid.
fn ask_bid<A0: PinochleAgent, A1: PinochleAgent, A2: PinochleAgent, A3: PinochleAgent>(
    player: usize,
    hand: u64,
    current_bid: u16,
    agent0: &A0, agent1: &A1, agent2: &A2, agent3: &A3,
) -> (bid: u16)
    ensures
        is_bid_of(player, hand, current_bid, agent0, agent1, agent2, agent3, bid),
{
    match player {
        0 => agent0.choose_bid(hand, current_bid),
        1 => agent1.choose_bid(hand, current_bid),
        2 => agent2.choose_bid(hand, current_bid),
        _ => agent3.choose_bid(hand, current_bid),
    }
}

/// Asks the agent of the given player for a card.
fn ask_card<A0: PinochleAgent, A1: PinochleAgent, A2: PinochleAgent, A3: PinochleAgent>(
    player: usize,
    hand: u64,
    table: &[u16],
    agent0: &A0, agent1: &A1, agent2: &A2, agent3: &A3,
) -> (card: u16)
    ensures
        is_card_of(player, hand, table@, agent0, agent1, agent2, agent3, card),
{
    match player {
        0 => agent0.play_card(hand, table),
        1 => agent1.play_card(hand, table),
        2 => agent2.play_card(hand, table),
        _ => agent3.play_card(hand, table),
    }
}

/// Whether `bid` is an answer of the agent that plays for `player` to the
/// hand and the highest bid so far. Player 0 has the first agent, player 1
/// the second, player 2 the third, and any other the fourth.
pub open spec fn is_bid_of<A0, A1, A2, A3>(
    player: usize,
    hand: u64,
    current_bid: u16,
    agent0: &A0,
    agent1: &A1,
    agent2: &A2,
    agent3: &A3,
    bid: u16,
) -> bool where A0: PinochleAgent, A1: PinochleAgent, A2: PinochleAgent, A3: PinochleAgent {
    if player == 0 {
        agent0.may_answer_bid(hand, current_bid, bid)
    } else if player == 1 {
        agent1.may_answer_bid(hand, current_bid, bid)
    } else if player == 2 {
        agent2.may_answer_bid(hand, current_bid, bid)
    } else {
        agent3.may_answer_bid(hand, current_bid, bid)
    }
}

/// Whether `card` is an answer of the agent that plays for `player` to the
/// hand and the cards on the table. Player 0 has the first agent, player 1
/// the second, player 2 the third, and any other the fourth.
pub open spec fn is_card_of<A0, A1, A2, A3>(
    player: usize,
    hand: u64,
    table: Seq<u16>,
    agent0: &A0,
    agent1: &A1,
    agent2: &A2,
    agent3: &A3,
    card: u16,
) -> bool where A0: PinochleAgent, A1: PinochleAgent, A2: PinochleAgent, A3: PinochleAgent {
    if player == 0 {
        agent0.may_answer_card(hand, table, card)
    } else if player == 1 {
        agent1.may_answer_card(hand, table, card)
    } else if player == 2 {
        agent2.may_answer_card(hand, table, card)
    } else {
        agent3.may_answer_card(hand, table, card)
    }
}

/// The state after a player's answer in the bidding: a raise if the
/// answer is higher than the highest bid so far, else a pass.
pub open spec fn after_answer(s: GameState, answer: u16) -> GameState {
    if answer > s.current_bid {
        s.after_bid(answer)
    } else {
        s.after_pass()
    }
}

/// The state after the answers `answers` in the bidding, one after the
/// other.
pub open spec fn after_answers(s: GameState, answers: Seq<u16>) -> GameState
    decreases answers.len(),
{
    if answers.len() == 0 {
        s
    } else {
        after_answer(after_answers(s, answers.drop_last()), answers.last())
    }
}

/// Whether the answers are a run of the bidding from `s` with these
/// agents: each answer is given while the bidding is open, by the agent of
/// the player to act, to that player's hand and the highest bid so far.
pub open spec fn is_bid_trace<A0, A1, A2, A3>(
    s: GameState,
    answers: Seq<u16>,
    agent0: &A0,
    agent1: &A1,
    agent2: &A2,
    agent3: &A3,
) -> bool where A0: PinochleAgent, A1: PinochleAgent, A2: PinochleAgent, A3: PinochleAgent
    decreases answers.len(),
{
    answers.len() == 0 || {
        let before = after_answers(s, answers.drop_last());
        &&& is_bid_trace(s, answers.drop_last(), agent0, agent1, agent2, agent3)
        &&& before.pass_outcome() is Ok
        &&& is_bid_of(
            before.turn,
            before.hands[before.turn as int],
            before.current_bid,
            agent0,
            agent1,
            agent2,
            agent3,
            answers.last(),
        )
    }
}

/// Whether `c` is the lowest card that the player to act may play.
pub open spec fn is_lowest_legal(s: GameState, c: u16) -> bool {
    s.move_outcome(c) is Ok && forall|lower: u16|
        lower < c ==> (#[trigger] s.move_outcome(lower)) is Err
}

/// The card played for a proposal: the card proposed if it may be played,
/// else the lowest card that may.
pub open spec fn card_for(s: GameState, proposed: u16) -> u16 {
    if s.move_outcome(proposed) is Ok {
        proposed
    } else {
        choose|c: u16| is_lowest_legal(s, c)
    }
}

/// Whether the cards `moves` are a run of trick play from `s` with these
/// agents, who answered `answers`: each answer is given by the agent of
/// the player to act, to that player's hand and the cards on the table,
/// and the card played for it is the answer itself if it may be played,
/// else the lowest card of that player that may.
pub open spec fn is_play_trace<A0, A1, A2, A3>(
    s: GameState,
    moves: Seq<u16>,
    answers: Seq<u16>,
    agent0: &A0,
    agent1: &A1,
    agent2: &A2,
    agent3: &A3,
) -> bool where A0: PinochleAgent, A1: PinochleAgent, A2: PinochleAgent, A3: PinochleAgent
    decreases moves.len(),
{
    answers.len() == moves.len() && (moves.len() == 0 || {
        let before = after_moves(s, moves.drop_last());
        &&& is_play_trace(s, moves.drop_last(), answers.drop_last(), agent0, agent1, agent2, agent3)
        &&& is_card_of(
            before.turn,
            before.hands[before.turn as int],
            before.table(),
            agent0,
            agent1,
            agent2,
            agent3,
            answers.last(),
        )
        &&& moves.last() == card_for(before, answers.last())
        &&& before.move_outcome(moves.last()) is Ok
    })
}

/// Whether a deal of `hands` ran as the sequences say and ended in `end`:
/// the bidding ran with the answers `bids` until it closed, the winning
/// bidder's longest suit `trump` was named, meld was scored, and the 48
/// cards `moves` were played for the answers `answers`.
pub open spec fn is_deal_trace<A0, A1, A2, A3>(
    hands: [u64; 4],
    bids: Seq<u16>,
    trump: Suit,
    moves: Seq<u16>,
    answers: Seq<u16>,
    end: GameState,
    agent0: &A0,
    agent1: &A1,
    agent2: &A2,
    agent3: &A3,
) -> bool where A0: PinochleAgent, A1: PinochleAgent, A2: PinochleAgent, A3: PinochleAgent {
    let bidding = after_answers(GameState::dealt(hands), bids);
    let start = bidding.after_trump(trump).after_meld();
    &&& is_bid_trace(GameState::dealt(hands), bids, agent0, agent1, agent2, agent3)
    &&& bidding.trump_outcome() is Ok
    &&& is_longest(bidding.hands[bidding.turn as int], trump)
    &&& moves.len() == 48
    &&& answers.len() == 48
    &&& is_play_trace(start, moves, answers, agent0, agent1, agent2, agent3)
    &&& end == after_moves(start, moves)
}

/// Whether `end` is the end of a deal of `hands` played with these
/// agents.
pub open spec fn is_deal_played<A0, A1, A2, A3>(
    hands: [u64; 4],
    end: GameState,
    agent0: &A0,
    agent1: &A1,
    agent2: &A2,
    agent3: &A3,
) -> bool where A0: PinochleAgent, A1: PinochleAgent, A2: PinochleAgent, A3: PinochleAgent {
    exists|bids: Seq<u16>, trump: Suit, moves: Seq<u16>, answers: Seq<u16>| #[trigger]
        is_deal_trace(hands, bids, trump, moves, answers, end, agent0, agent1, agent2, agent3)
}

/// What holds at the end of every deal of `hands`: the state is complete
/// after twelve tricks, trump is the winning bidder's longest suit, each
/// team's meld is that of its two hands as dealt, and the two scores add
/// up to the 240 points of the cards plus the meld.
pub open spec fn is_deal_end(hands: [u64; 4], end: GameState) -> bool {
    &&& end.wf()
    &&& end.phase == GamePhase::Complete
    &&& end.tricks_played == 12
    &&& end.trump is Some
    &&& is_longest(hands[end.winning_bidder as int], end.trump->Some_0)
    &&& end.meld[0] == meld_points(hands[0], end.trump) + meld_points(hands[2], end.trump)
    &&& end.meld[1] == meld_points(hands[1], end.trump) + meld_points(hands[3], end.trump)
    &&& end.scores[0] + end.scores[1] == 240 + end.meld[0] + end.meld[1]
}

/// The plays of a run of trick play are each accepted in its turn.
pub proof fn lemma_trace_accepted<A0, A1, A2, A3>(
    s: GameState,
    moves: Seq<u16>,
    answers: Seq<u16>,
    agent0: &A0,
    agent1: &A1,
    agent2: &A2,
    agent3: &A3,
) where A0: PinochleAgent, A1: PinochleAgent, A2: PinochleAgent, A3: PinochleAgent
    requires
        is_play_trace(s, moves, answers, agent0, agent1, agent2, agent3),
    ensures
        all_accepted(s, moves),
    decreases moves.len(),
{
    if moves.len() > 0 {
        lemma_trace_accepted(
            s,
            moves.drop_last(),
            answers.drop_last(),
            agent0,
            agent1,
            agent2,
            agent3,
        );
    }
}

/// An answer that does not follow suit, from a player who could, is not
/// played. The card played for it is the lowest card of that player that
/// follows suit, and it is that player's card that goes to the table.
pub proof fn lemma_refused_answer(s: GameState, held: int, proposed: u16)
    requires
        s.wf(),
        s.phase == GamePhase::Play,
        s.cards_in_current_trick > 0,
        0 <= held < 48,
        has_bit(s.hands[s.turn as int], held),
        suit_at(held) == s.lead_suit(),
        proposed < 48,
        suit_at(proposed as int) != s.lead_suit(),
    ensures
        s.move_outcome(proposed) == Err::<(), GameError>(GameError::IllegalMove),
        card_for(s, proposed) != proposed,
        is_lowest_legal(s, card_for(s, proposed)),
        has_bit(s.hands[s.turn as int], card_for(s, proposed) as int),
        suit_at(card_for(s, proposed) as int) == s.lead_suit(),
{
    lemma_must_follow_suit(s, held, proposed);
    lemma_lowest_legal(s);
}

/// While the deal is in `Play` there is one lowest card that may be
/// played.
pub proof fn lemma_lowest_legal(s: GameState)
    requires
        s.wf(),
        s.phase == GamePhase::Play,
    ensures
        is_lowest_legal(s, choose|c: u16| is_lowest_legal(s, c)),
        forall|c: u16| is_lowest_legal(s, c) ==> c == choose|c: u16| is_lowest_legal(s, c),
{
    let some = lemma_progress(s);
    lemma_least_legal(s, some);
}

/// Below a card that may be played there is a lowest card that may.
proof fn lemma_least_legal(s: GameState, c: u16)
    requires
        s.move_outcome(c) is Ok,
    ensures
        exists|lowest: u16| is_lowest_legal(s, lowest),
    decreases c,
{
    if exists|lower: u16| lower < c && (#[trigger] s.move_outcome(lower)) is Ok {
        let lower = choose|lower: u16| lower < c && (#[trigger] s.move_outcome(lower)) is Ok;
        lemma_least_legal(s, lower);
    } else {
        assert(is_lowest_legal(s, c));
    }
}

/// Takes a player's answer in the bidding: a bid higher than the highest
/// so far raises, any other answer is a pass. Returns whether the answer
/// raised. Outside open bidding nothing changes and the state's own
/// refusal is returned.
pub fn bid_proposed(game: &mut GameState, proposed: u16) -> (r: Result<bool, GameError>)
    ensures
        match r {
            Ok(raised) => {
                &&& old(game).pass_outcome() is Ok
                &&& raised == (proposed > old(game).current_bid)
                &&& *final(game) == after_answer(*old(game), proposed)
                &&& final(game).wf()
            },
            Err(e) => old(game).pass_outcome() == Err::<(), GameError>(e) && *final(game) == *old(
                game,
            ),
        },
{
    match game.raise_bid(proposed) {
        Ok(_) => Ok(true),
        Err(GameError::IllegalMove) => match game.pass_bid() {
            Ok(_) => Ok(false),
            Err(e) => Err(e),
        },
        Err(e) => Err(e),
    }
}

/// Takes a player's answer in trick play: the card proposed if it may be
/// played, else the lowest card that may. Returns the card played. Outside
/// the `Play` phase nothing changes and the state's own refusal is
/// returned.
pub fn play_proposed(game: &mut GameState, proposed: u16) -> (r: Result<u16, GameError>)
    ensures
        match r {
            Ok(card) => {
                &&& card == card_for(*old(game), proposed)
                &&& old(game).move_outcome(card) is Ok
                &&& *final(game) == old(game).after_move(card)
                &&& final(game).wf()
                &&& old(game).move_outcome(proposed) is Err ==> is_lowest_legal(*old(game), card)
            },
            Err(e) => {
                &&& *final(game) == *old(game)
                &&& e == if old(game).wf() {
                    GameError::InvalidPhaseTransition
                } else {
                    GameError::InvariantViolation
                }
                &&& !(old(game).wf() && old(game).phase == GamePhase::Play)
            },
        },
{
    match game.apply_move(proposed) {
        Ok(_) => Ok(proposed),
        Err(GameError::InvariantViolation) => Err(GameError::InvariantViolation),
        Err(GameError::InvalidPhaseTransition) => Err(GameError::InvalidPhaseTransition),
        Err(_) => {
            let legal = game.legal_moves();
            proof {
                let c = lemma_progress(*game);
                assert(has_bit(legal, c as int));
                bits::lemma_bit_zero();
            }
            let lowest = match first_card(legal) {
                Some(c) => c,
                None => 0,
            };
            proof {
                assert forall|lower: u16| lower < lowest implies (#[trigger] game.move_outcome(
                    lower,
                )) is Err by {
                    assert(!has_bit(legal, lower as int));
                }
                assert(is_lowest_legal(*game, lowest));
                lemma_lowest_legal(*game);
            }
            match game.apply_move(lowest) {
                Ok(_) => Ok(lowest),
                Err(e) => Err(e),
            }
        },
    }
}

/// Runs the bidding until all players but one have passed. A state that
/// is not well-formed is refused with `InvariantViolation`, one that is
/// not in `Bidding` with `InvalidPhaseTransition`; both are left as they
/// were. Otherwise the state at the end is the one reached by the answers
/// of the agents, each asked in turn for the player to act and taken as
/// `bid_proposed` takes it. The bidding changes nothing but the bid, the
/// turn, who has passed and who has bid highest.
pub fn run_bidding<A0, A1, A2, A3>(
    game: &mut GameState,
    agent0: &A0,
    agent1: &A1,
    agent2: &A2,
    agent3: &A3,
) -> (r: Result<(), GameError>) where
    A0: PinochleAgent,
    A1: PinochleAgent,
    A2: PinochleAgent,
    A3: PinochleAgent,

    ensures
        r == if !old(game).wf() {
            Err::<(), GameError>(GameError::InvariantViolation)
        } else if old(game).phase != GamePhase::Bidding {
            Err::<(), GameError>(GameError::InvalidPhaseTransition)
        } else {
            Ok::<(), GameError>(())
        },
        r is Err ==> *final(game) == *old(game),
        r is Ok ==> exists|answers: Seq<u16>|
            #[trigger] is_bid_trace(*old(game), answers, agent0, agent1, agent2, agent3)
                && *final(game) == after_answers(*old(game), answers),
        r is Ok ==> final(game).wf() && final(game).phase == GamePhase::Bidding,
        r is Ok ==> final(game).passed_count() == 3,
        r is Ok ==> final(game).current_bid >= old(game).current_bid,
        r is Ok ==> *final(game) == (GameState {
            current_bid: final(game).current_bid,
            winning_bidder: final(game).winning_bidder,
            turn: final(game).turn,
            passed: final(game).passed,
            ..*old(game)
        }),
{
    if !game.is_well_formed() {
        return Err(GameError::InvariantViolation);
    }
    if !(game.phase == GamePhase::Bidding) {
        return Err(GameError::InvalidPhaseTransition);
    }
    let ghost mut answers: Seq<u16> = Seq::empty();
    while game.count_passed() != 3
        invariant
            game.wf(),
            game.phase == GamePhase::Bidding,
            game.current_bid >= old(game).current_bid,
            is_bid_trace(*old(game), answers, agent0, agent1, agent2, agent3),
            *game == after_answers(*old(game), answers),
            *game == (GameState {
                current_bid: game.current_bid,
                winning_bidder: game.winning_bidder,
                turn: game.turn,
                passed: game.passed,
                ..*old(game)
            }),
        decreases (65535 - game.current_bid) + (3 - game.passed_count()),
    {
        let player = game.turn;
        let hand = game.hands[player];
        let bid = ask_bid(player, hand, game.current_bid, agent0, agent1, agent2, agent3);
        let ghost before = *game;
        let raised = bid_proposed(game, bid);
        assert(raised is Ok);
        assert(game.passed_count() == before.passed_count() + if bid > before.current_bid {
            0int
        } else {
            1int
        });
        proof {
            assert(answers.push(bid).drop_last() =~= answers);
            answers = answers.push(bid);
        }
    }
    Ok(())
}

/// Runs the tricks until the deal is complete. A state that is not
/// well-formed is refused with `InvariantViolation`, one that is not in
/// `Play` with `InvalidPhaseTransition`; both are left as they were.
/// Otherwise the state at the end is the one reached by playing as many
/// cards as were left to play, each the card played for the answer of the
/// agent asked for the player to act, as `play_proposed` takes it; the
/// deal is then complete after its twelfth trick.
pub fn run_play<A0, A1, A2, A3>(
    game: &mut GameState,
    agent0: &A0,
    agent1: &A1,
    agent2: &A2,
    agent3: &A3,
) -> (r: Result<(), GameError>) where
    A0: PinochleAgent,
    A1: PinochleAgent,
    A2: PinochleAgent,
    A3: PinochleAgent,

    ensures
        r == if !old(game).wf() {
            Err::<(), GameError>(GameError::InvariantViolation)
        } else if old(game).phase != GamePhase::Play {
            Err::<(), GameError>(GameError::InvalidPhaseTransition)
        } else {
            Ok::<(), GameError>(())
        },
        r is Err ==> *final(game) == *old(game),
        r is Ok ==> exists|moves: Seq<u16>, answers: Seq<u16>|
            moves.len() == moves_left(*old(game)) && all_accepted(*old(game), moves)
                && #[trigger] is_play_trace(
                *old(game),
                moves,
                answers,
                agent0,
                agent1,
                agent2,
                agent3,
            ) && *final(game) == after_moves(*old(game), moves),
        r is Ok ==> final(game).wf() && final(game).phase == GamePhase::Complete,
        r is Ok ==> final(game).tricks_played == 12,
        r is Ok ==> final(game).trump == old(game).trump && final(game).meld == old(game).meld
            && final(game).current_bid == old(game).current_bid && final(game).winning_bidder
            == old(game).winning_bidder,
{
    if !game.is_well_formed() {
        return Err(GameError::InvariantViolation);
    }
    if !(game.phase == GamePhase::Play) {
        return Err(GameError::InvalidPhaseTransition);
    }
    let ghost mut moves: Seq<u16> = Seq::empty();
    let ghost mut answers: Seq<u16> = Seq::empty();
    while !game.is_over()
        invariant
            old(game).wf(),
            old(game).phase == GamePhase::Play,
            game.wf(),
            all_accepted(*old(game), moves),
            is_play_trace(*old(game), moves, answers, agent0, agent1, agent2, agent3),
            *game == after_moves(*old(game), moves),
            game.trump == old(game).trump,
            game.meld == old(game).meld,
            game.current_bid == old(game).current_bid,
            game.winning_bidder == old(game).winning_bidder,
        decreases moves_left(*game),
    {
        proof {
            lemma_deal_length(*old(game), moves);
        }
        let player = game.current_turn();
        let hand = game.get_hand(player);
        let table = game.table_cards();
        let proposed = ask_card(player, hand, table.as_slice(), agent0, agent1, agent2, agent3);
        let ghost before = *game;
        let card = match play_proposed(game, proposed) {
            Ok(card) => card,
            Err(_) => proposed,
        };
        proof {
            lemma_move_counts_down(before, card);
            assert(moves.push(card).drop_last() =~= moves);
            assert(answers.push(proposed).drop_last() =~= answers);
            moves = moves.push(card);
            answers = answers.push(proposed);
        }
    }
    proof {
        lemma_deal_length(*old(game), moves);
        lemma_complete(*game);
    }
    Ok(())
}

/// Plays one deal from the given hands: bidding, the winning bidder's
/// longest suit as trump, meld, and twelve tricks.
///
/// Hands that are not a deal are refused as `GameState::deal` refuses
/// them. Otherwise the deal runs to its end whatever the agents answer,
/// and the state returned is the one that their answers lead to: the
/// bidding as `run_bidding` runs it, the trump named, meld scored, and 48
/// cards played as `run_play` plays them.
pub fn play_deal<A0, A1, A2, A3>(
    hands: [u64; 4],
    agent0: &A0,
    agent1: &A1,
    agent2: &A2,
    agent3: &A3,
) -> (r: Result<GameState, GameError>) where
    A0: PinochleAgent,
    A1: PinochleAgent,
    A2: PinochleAgent,
    A3: PinochleAgent,

    ensures
        is_deal(hands) <==> r is Ok,
        !is_deal(hands) ==> r == Err::<GameState, GameError>(
            if exists|p: int| 0 <= p < 4 && #[trigger] hands[p] > DECK {
                GameError::InvalidIndex
            } else {
                GameError::InvariantViolation
            },
        ),
        r is Ok ==> is_deal_played(hands, r->Ok_0, agent0, agent1, agent2, agent3),
        r is Ok ==> is_deal_end(hands, r->Ok_0),
{
    let mut game = match GameState::deal(hands) {
        Ok(game) => game,
        Err(e) => {
            return Err(e);
        },
    };
    let ghost dealt = game;
    match run_bidding(&mut game, agent0, agent1, agent2, agent3) {
        Ok(_) => {},
        Err(e) => {
            return Err(e);
        },
    }
    let ghost bidding = game;
    let trump = longest_suit(game.hands[game.turn]);
    match game.choose_trump(trump) {
        Ok(_) => {},
        Err(e) => {
            return Err(e);
        },
    }
    let ghost melding = game;
    match game.score_meld() {
        Ok(_) => {},
        Err(e) => {
            return Err(e);
        },
    }
    let ghost start = game;
    proof {
        lemma_meld_bound(hands[0], Some(trump));
        lemma_meld_bound(hands[1], Some(trump));
        lemma_meld_bound(hands[2], Some(trump));
        lemma_meld_bound(hands[3], Some(trump));
        assert(melding.hands == hands);
    }
    match run_play(&mut game, agent0, agent1, agent2, agent3) {
        Ok(_) => {},
        Err(e) => {
            return Err(e);
        },
    }
    proof {
        lemma_final_scores(game);
        let bids = choose|bids: Seq<u16>|
            #[trigger] is_bid_trace(dealt, bids, agent0, agent1, agent2, agent3) && bidding
                == after_answers(dealt, bids);
        let (moves, answers) = choose|moves: Seq<u16>, answers: Seq<u16>|
            moves.len() == moves_left(start) && all_accepted(start, moves)
                && #[trigger] is_play_trace(
                start,
                moves,
                answers,
                agent0,
                agent1,
                agent2,
                agent3,
            ) && game == after_moves(start, moves);
        assert(is_deal_trace(
            hands,
            bids,
            trump,
            moves,
            answers,
            game,
            agent0,
            agent1,
            agent2,
            agent3,
        ));
    }
    Ok(game)
}

/// Plays one deal, as `play_deal` does, and returns the score of team 0
/// at its end: the team of players 0 and 2, who have the first and the
/// third agent. Hands that are not a deal are refused as
/// `GameState::deal` refuses them.
pub fn run_match<A0, A1, A2, A3>(
    hands: [u64; 4],
    agent0: &A0,
    agent1: &A1,
    agent2: &A2,
    agent3: &A3,
) -> (r: Result<i32, GameError>) where
    A0: PinochleAgent,
    A1: PinochleAgent,
    A2: PinochleAgent,
    A3: PinochleAgent,

    ensures
        is_deal(hands) <==> r is Ok,
        !is_deal(hands) ==> r == Err::<i32, GameError>(
            if exists|p: int| 0 <= p < 4 && #[trigger] hands[p] > DECK {
                GameError::InvalidIndex
            } else {
                GameError::InvariantViolation
            },
        ),
        r is Ok ==> exists|end: GameState|
            #![trigger end.wf()]
            is_deal_played(hands, end, agent0, agent1, agent2, agent3) && is_deal_end(hands, end)
                && r->Ok_0 == end.scores[0] && end.scores[0] == end.meld[0] + card_points(
                end.taken[0],
            ),
        r is Ok ==> 0 <= r->Ok_0 <= 280,
{
    match play_deal(hands, agent0, agent1, agent2, agent3) {
        Ok(game) => {
            proof {
                assert(game.score_ok(0));
                assert(game.locations()[4] <= DECK);
                lemma_points_bound(game.taken[0]);
                assert(game.wf());
            }
            Ok(game.get_score(0))
        },
        Err(e) => Err(e),
    }
}

} // verus!
