//! The state of one deal and the moves that change it.
//!
//! A deal runs through four phases. In `Bidding` the players raise the bid
//! or pass until one is left, who then names the trump suit. In `Meld` each
//! hand's meld is added to its team's score. In `Play` the players play
//! twelve tricks of four cards. After the last trick the deal is
//! `Complete`.
//!
//! Every operation first checks that the state is well-formed, so a state
//! whose fields were filled in by hand is either sound or refused.

use vstd::prelude::*;
use crate::cards::bits;
use crate::cards::bits::has_bit;
use crate::cards::bits::popcount;
use crate::cards::deck;
use crate::cards::deck::is_partition;
use crate::cards::Suit;
use crate::cards::DECK;
use crate::error::GameError;
use crate::pinochle::meld::compute_meld;
use crate::pinochle::meld::meld_points;
use crate::pinochle::trick::card_points;
use crate::pinochle::trick::count_points;
use crate::pinochle::trick::lemma_points_bound;
use crate::pinochle::trick::lemma_points_deck;
use crate::pinochle::GamePhase;

verus! {

/// One deal among four players. Players 0 and 2 form team 0, players 1
/// and 3 team 1.
#[derive(Debug, Clone, Copy, PartialEq, Eq)]
pub struct GameState {
    /// The cards each player holds.
    pub hands: [u64; 4],
    /// The cards of the trick in progress, by index, in the order played.
    pub current_trick: [Option<u16>; 4],
    /// How many cards of the trick in progress are on the table.
    pub cards_in_current_trick: u8,
    /// The trump suit, once the winning bidder has named it.
    pub trump: Option<Suit>,
    /// The player who acts next.
    pub turn: usize,
    /// The player who led, or will lead, the trick in progress.
    pub lead_player: usize,
    /// Each team's score: its meld and the points of the tricks it took.
    pub scores: [i32; 2],
    /// The highest bid so far; zero before the first bid.
    pub current_bid: u16,
    /// The player who made the highest bid, and in the end won the bidding.
    pub winning_bidder: usize,
    /// Bit `player * 4 + suit` is set once the player was seen not to
    /// follow that suit.
    pub void_mask: u16,
    /// Where the deal stands.
    pub phase: GamePhase,
    /// Who has passed in the bidding.
    pub passed: [bool; 4],
    /// The cards of the tricks each team took.
    pub taken: [u64; 2],
    /// The meld each team declared.
    pub meld: [i32; 2],
    /// How many tricks are complete.
    pub tricks_played: u8,
}

/// The word that holds the card in a slot of the trick, if there is one.
pub open spec fn card_word(slot: Option<u16>) -> u64 {
    match slot {
        Some(c) => 1u64 << (c as u64),
        None => 0,
    }
}

/// 1 for true, 0 for false.
pub open spec fn one_if(b: bool) -> int {
    if b {
        1
    } else {
        0
    }
}

/// Whether four hands are a deal: each holds twelve cards, and each of
/// the 48 cards is in exactly one of them.
pub open spec fn is_deal(hands: [u64; 4]) -> bool {
    &&& is_partition(seq![hands[0], hands[1], hands[2], hands[3]])
    &&& forall|p: int| 0 <= p < 4 ==> popcount(#[trigger] hands[p]) == 12
}

/// The array `a` with `v` at position `k`.
pub open spec fn with4<T>(a: [T; 4], k: int, v: T) -> [T; 4] {
    [
        if k == 0 {
            v
        } else {
            a[0]
        },
        if k == 1 {
            v
        } else {
            a[1]
        },
        if k == 2 {
            v
        } else {
            a[2]
        },
        if k == 3 {
            v
        } else {
            a[3]
        },
    ]
}

/// The array `a` with `v` at position `k`.
pub open spec fn with2<T>(a: [T; 2], k: int, v: T) -> [T; 2] {
    [
        if k == 0 {
            v
        } else {
            a[0]
        },
        if k == 1 {
            v
        } else {
            a[1]
        },
    ]
}

/// The first player after `from`, in turn order, who has not passed;
/// `from` if all the others have.
pub open spec fn next_active(passed: [bool; 4], from: int) -> int {
    if !passed[(from + 1) % 4] {
        (from + 1) % 4
    } else if !passed[(from + 2) % 4] {
        (from + 2) % 4
    } else if !passed[(from + 3) % 4] {
        (from + 3) % 4
    } else {
        from
    }
}

impl GameState {
    /// Every place where a card can be: the four hands, the two piles of
    /// tricks taken, and the four slots of the trick in progress.
    pub open spec fn locations(self) -> Seq<u64> {
        seq![
            self.hands[0],
            self.hands[1],
            self.hands[2],
            self.hands[3],
            self.taken[0],
            self.taken[1],
            card_word(self.current_trick[0]),
            card_word(self.current_trick[1]),
            card_word(self.current_trick[2]),
            card_word(self.current_trick[3]),
        ]
    }

    /// Conservation: each of the 48 cards is in exactly one place.
    pub open spec fn conserved(self) -> bool {
        is_partition(self.locations())
    }

    /// The first slots of the trick hold the cards on the table, the rest
    /// are empty.
    pub open spec fn slots_ok(self) -> bool {
        forall|k: int|
            0 <= k < 4 ==> (match #[trigger] self.current_trick[k] {
                Some(c) => k < self.cards_in_current_trick && c < 48,
                None => k >= self.cards_in_current_trick,
            })
    }

    /// Whether the player has played to the trick in progress.
    pub open spec fn has_played(self, p: int) -> bool {
        (p + 4 - self.lead_player) % 4 < self.cards_in_current_trick
    }

    /// The player holds one card for each trick still to come, less the
    /// card already played to the trick in progress.
    pub open spec fn hand_size_ok(self, p: int) -> bool {
        popcount(self.hands[p]) + self.tricks_played + one_if(self.has_played(p)) == 12
    }

    /// A team's score is its meld plus the points of the cards it took.
    pub open spec fn score_ok(self, t: int) -> bool {
        &&& 0 <= self.meld[t] <= 40
        &&& self.scores[t] == self.meld[t] + card_points(self.taken[t])
    }

    /// Whether the player is marked as void in the suit.
    pub open spec fn marked_void(self, p: int, suit: Suit) -> bool {
        has_bit(self.void_mask as u64, p * 4 + suit.ord())
    }

    /// A player marked as void in a suit holds no card of it.
    pub open spec fn voids_ok(self) -> bool {
        forall|p: int, suit: Suit|
            0 <= p < 4 && #[trigger] self.marked_void(p, suit) ==> self.hands[p] & suit.spec_mask()
                == 0
    }

    /// How many players have passed.
    pub open spec fn passed_count(self) -> int {
        one_if(self.passed[0]) + one_if(self.passed[1]) + one_if(self.passed[2]) + one_if(
            self.passed[3],
        )
    }

    /// What holds in each phase on top of what holds in all.
    pub open spec fn phase_ok(self) -> bool {
        match self.phase {
            GamePhase::Bidding => {
                &&& self.trump is None
                &&& self.tricks_played == 0
                &&& self.cards_in_current_trick == 0
                &&& self.meld[0] == 0 && self.meld[1] == 0
                &&& self.passed_count() <= 3
                &&& !self.passed[self.turn as int]
                &&& self.passed_count() == 3 ==> self.winning_bidder == self.turn
            },
            GamePhase::Meld => {
                &&& self.trump is Some
                &&& self.tricks_played == 0
                &&& self.cards_in_current_trick == 0
                &&& self.meld[0] == 0 && self.meld[1] == 0
            },
            GamePhase::Play => {
                &&& self.trump is Some
                &&& self.tricks_played < 12
                &&& self.turn == (self.lead_player + self.cards_in_current_trick) % 4
            },
            GamePhase::Complete => {
                &&& self.trump is Some
                &&& self.tricks_played == 12
                &&& self.cards_in_current_trick == 0
            },
        }
    }

    /// What holds of a deal at every step, also while a fourth card lies on
    /// the table before the trick is taken.
    pub open spec fn inv(self) -> bool {
        &&& self.turn < 4
        &&& self.lead_player < 4
        &&& self.winning_bidder < 4
        &&& self.cards_in_current_trick <= 4
        &&& self.tricks_played <= 12
        &&& self.slots_ok()
        &&& self.conserved()
        &&& forall|p: int| 0 <= p < 4 ==> #[trigger] self.hand_size_ok(p)
        &&& self.score_ok(0)
        &&& self.score_ok(1)
        &&& self.voids_ok()
        &&& self.phase_ok()
    }

    /// The state is well-formed: between two operations at most three
    /// cards lie on the table, each card is in exactly one place, and
    /// hands, scores and phase agree with one another.
    pub open spec fn wf(self) -> bool {
        self.inv() && self.cards_in_current_trick < 4
    }

    /// The state before the cards are dealt.
    pub open spec fn blank() -> GameState {
        GameState {
            hands: [0, 0, 0, 0],
            current_trick: [None, None, None, None],
            cards_in_current_trick: 0,
            trump: None,
            turn: 0,
            lead_player: 0,
            scores: [0, 0],
            current_bid: 0,
            winning_bidder: 0,
            void_mask: 0,
            phase: GamePhase::Bidding,
            passed: [false, false, false, false],
            taken: [0, 0],
            meld: [0, 0],
            tricks_played: 0,
        }
    }

    /// A deal with nothing in it yet: no cards, no bid, no score, player 0
    /// to bid first. The dealer fills in `hands`; until the hands are a
    /// deal, the state is not well-formed and every operation refuses it.
    pub fn new() -> (r: GameState)
        ensures
            r == GameState::blank(),
    {
        GameState {
            hands: [0, 0, 0, 0],
            current_trick: [None, None, None, None],
            cards_in_current_trick: 0,
            trump: None,
            turn: 0,
            lead_player: 0,
            scores: [0, 0],
            current_bid: 0,
            winning_bidder: 0,
            void_mask: 0,
            phase: GamePhase::Bidding,
            passed: [false, false, false, false],
            taken: [0, 0],
            meld: [0, 0],
            tricks_played: 0,
        }
    }

    /// The state at the start of a deal with the given hands.
    pub open spec fn dealt(hands: [u64; 4]) -> GameState {
        GameState { hands, ..GameState::blank() }
    }

    /// Freshly dealt hands make a well-formed state exactly when they are
    /// a deal.
    pub proof fn lemma_dealt(hands: [u64; 4])
        ensures
            GameState::dealt(hands).wf() <==> is_deal(hands),
    {
        let g = GameState::dealt(hands);
        let four = seq![hands[0], hands[1], hands[2], hands[3]];
        g.lemma_locations();
        bits::lemma_bit_zero();
        lemma_points_deck();
        deck::lemma_push(Seq::<u64>::empty(), hands[0]);
        deck::lemma_push(Seq::<u64>::empty().push(hands[0]), hands[1]);
        deck::lemma_push(Seq::<u64>::empty().push(hands[0]).push(hands[1]), hands[2]);
        deck::lemma_push(
            Seq::<u64>::empty().push(hands[0]).push(hands[1]).push(hands[2]),
            hands[3],
        );
        assert(four =~= Seq::<u64>::empty().push(hands[0]).push(hands[1]).push(hands[2]).push(
            hands[3],
        ));
        assert forall|i: int| #[trigger]
            deck::holders(g.locations(), i) == deck::holders(four, i) by {}
        assert(g.slots_ok());
        assert(g.voids_ok());
        assert(g.score_ok(0) && g.score_ok(1));
        assert(g.phase_ok());
        assert forall|p: int| 0 <= p < 4 implies (#[trigger] g.hand_size_ok(p) <==> popcount(
            hands[p],
        ) == 12) by {
            assert(!g.has_played(p));
        }
        if is_deal(hands) {
            assert(g.conserved()) by {
                assert forall|j: int| 0 <= j < g.locations().len() implies #[trigger]
                    g.locations()[j] <= DECK by {
                    if j < 4 {
                        assert(four[j] <= DECK);
                    }
                }
                assert forall|i: int| 0 <= i < 48 implies #[trigger] deck::holders(
                    g.locations(),
                    i,
                ) == 1 by {
                    assert(deck::holders(four, i) == 1);
                }
            }
            assert(g.wf());
        }
        if g.wf() {
            assert(is_partition(four)) by {
                assert forall|j: int| 0 <= j < four.len() implies #[trigger] four[j] <= DECK by {
                    assert(g.locations()[j] <= DECK);
                }
                assert forall|i: int| 0 <= i < 48 implies #[trigger] deck::holders(four, i)
                    == 1 by {
                    assert(deck::holders(g.locations(), i) == 1);
                }
            }
            assert forall|p: int| 0 <= p < 4 implies popcount(#[trigger] hands[p]) == 12 by {
                assert(g.hand_size_ok(p));
            }
        }
    }

    /// The start of a deal: the given hands, no bid yet, player 0 to bid
    /// first. Hands with a bit set that is no card's index are refused as
    /// `InvalidIndex`; hands that are not twelve cards each, or do not hold
    /// each card exactly once among them, as `InvariantViolation`.
    pub fn deal(hands: [u64; 4]) -> (r: Result<GameState, GameError>)
        ensures
            is_deal(hands) ==> r == Ok::<GameState, GameError>(GameState::dealt(hands)),
            is_deal(hands) ==> GameState::dealt(hands).wf(),
            !is_deal(hands) ==> r == Err::<GameState, GameError>(
                if exists|p: int| 0 <= p < 4 && #[trigger] hands[p] > DECK {
                    GameError::InvalidIndex
                } else {
                    GameError::InvariantViolation
                },
            ),
    {
        proof {
            GameState::lemma_dealt(hands);
        }
        let mut p: usize = 0;
        while p < 4
            invariant
                p <= 4,
                forall|q: int| 0 <= q < p ==> #[trigger] hands[q] <= DECK,
            decreases 4 - p,
        {
            if hands[p] > DECK {
                assert(!is_deal(hands)) by {
                    let four = seq![hands[0], hands[1], hands[2], hands[3]];
                    assert(four[p as int] == hands[p as int]);
                }
                return Err(GameError::InvalidIndex);
            }
            p += 1;
        }
        let mut game = GameState::new();
        game.hands = hands;
        assert(game == GameState::dealt(hands));
        if game.is_well_formed() {
            Ok(game)
        } else {
            Err(GameError::InvariantViolation)
        }
    }

    /// Whether the deal is complete.
    pub fn is_over(&self) -> (r: bool)
        ensures
            r == (self.phase == GamePhase::Complete),
    {
        self.phase == GamePhase::Complete
    }

    /// The player who acts next.
    pub fn current_turn(&self) -> (r: usize)
        ensures
            r == self.turn,
    {
        self.turn
    }

    /// The cards the player holds.
    pub fn get_hand(&self, player: usize) -> (r: u64)
        requires
            player < 4,
        ensures
            r == self.hands[player as int],
    {
        self.hands[player]
    }

    /// The team's score so far: its meld, once meld is scored, and the
    /// points of the tricks it has taken.
    pub fn get_score(&self, team: usize) -> (r: i32)
        requires
            team < 2,
        ensures
            r == self.scores[team as int],
    {
        self.scores[team]
    }

    /// Whether the bidding is still open: the deal is in `Bidding` and
    /// more than one player has not passed.
    pub open spec fn bidding_open(self) -> bool {
        self.phase == GamePhase::Bidding && self.passed_count() < 3
    }

    /// What becomes of a bid: refused with `InvalidPhaseTransition` unless
    /// the bidding is open, and with `IllegalMove` unless it is higher than
    /// the highest bid so far.
    pub open spec fn bid_outcome(self, bid: u16) -> Result<(), GameError> {
        if !self.wf() {
            Err(GameError::InvariantViolation)
        } else if !self.bidding_open() {
            Err(GameError::InvalidPhaseTransition)
        } else if bid <= self.current_bid {
            Err(GameError::IllegalMove)
        } else {
            Ok(())
        }
    }

    /// The state after the player to act has bid `bid`.
    pub open spec fn after_bid(self, bid: u16) -> GameState {
        GameState {
            current_bid: bid,
            winning_bidder: self.turn,
            turn: next_active(self.passed, self.turn as int) as usize,
            ..self
        }
    }

    /// What becomes of a pass: refused with `InvalidPhaseTransition`
    /// unless the bidding is open.
    pub open spec fn pass_outcome(self) -> Result<(), GameError> {
        if !self.wf() {
            Err(GameError::InvariantViolation)
        } else if !self.bidding_open() {
            Err(GameError::InvalidPhaseTransition)
        } else {
            Ok(())
        }
    }

    /// The state after the player to act has passed. When only one player
    /// is left, that player has won the bidding and is next to act.
    pub open spec fn after_pass(self) -> GameState {
        let passed = with4(self.passed, self.turn as int, true);
        let next = next_active(passed, self.turn as int) as usize;
        GameState {
            passed,
            turn: next,
            winning_bidder: if self.passed_count() == 2 {
                next
            } else {
                self.winning_bidder
            },
            ..self
        }
    }

    /// What becomes of naming trump: refused with
    /// `InvalidPhaseTransition` unless the bidding has just closed.
    pub open spec fn trump_outcome(self) -> Result<(), GameError> {
        if !self.wf() {
            Err(GameError::InvariantViolation)
        } else if !(self.phase == GamePhase::Bidding && self.passed_count() == 3) {
            Err(GameError::InvalidPhaseTransition)
        } else {
            Ok(())
        }
    }

    /// The state after the winning bidder has named `suit` as trump.
    pub open spec fn after_trump(self, suit: Suit) -> GameState {
        GameState { trump: Some(suit), phase: GamePhase::Meld, ..self }
    }

    /// What becomes of scoring meld: refused with
    /// `InvalidPhaseTransition` outside the `Meld` phase.
    pub open spec fn meld_outcome(self) -> Result<(), GameError> {
        if !self.wf() {
            Err(GameError::InvariantViolation)
        } else if self.phase != GamePhase::Meld {
            Err(GameError::InvalidPhaseTransition)
        } else {
            Ok(())
        }
    }

    /// The meld of a team: the meld of its two players' hands.
    pub open spec fn team_meld(self, t: int) -> nat {
        meld_points(self.hands[t], self.trump) + meld_points(self.hands[t + 2], self.trump)
    }

    /// The state after meld is scored: each team has the meld of its two
    /// hands, and the winning bidder leads to the first trick.
    pub open spec fn after_meld(self) -> GameState {
        GameState {
            meld: [self.team_meld(0) as i32, self.team_meld(1) as i32],
            scores: [
                (self.scores[0] + self.team_meld(0)) as i32,
                (self.scores[1] + self.team_meld(1)) as i32,
            ],
            phase: GamePhase::Play,
            lead_player: self.winning_bidder,
            turn: self.winning_bidder,
            ..self
        }
    }

    /// The first player after the one to act who has not passed.
    fn next_bidder(&self) -> (r: usize)
        requires
            self.turn < 4,
        ensures
            r == next_active(self.passed, self.turn as int),
            r < 4,
    {
        let a = (self.turn + 1) % 4;
        let b = (self.turn + 2) % 4;
        let c = (self.turn + 3) % 4;
        if !self.passed[a] {
            a
        } else if !self.passed[b] {
            b
        } else if !self.passed[c] {
            c
        } else {
            self.turn
        }
    }

    /// How many players have passed.
    pub fn count_passed(&self) -> (r: u8)
        ensures
            r == self.passed_count(),
    {
        let mut count: u8 = 0;
        if self.passed[0] {
            count += 1;
        }
        if self.passed[1] {
            count += 1;
        }
        if self.passed[2] {
            count += 1;
        }
        if self.passed[3] {
            count += 1;
        }
        count
    }

    /// The player to act raises the bid to `bid`. The bid must be higher
    /// than the highest so far. The turn goes to the next player who has
    /// not passed.
    pub fn raise_bid(&mut self, bid: u16) -> (r: Result<(), GameError>)
        ensures
            r == old(self).bid_outcome(bid),
            r is Ok ==> *final(self) == old(self).after_bid(bid),
            r is Ok ==> final(self).wf(),
            r is Err ==> *final(self) == *old(self),
    {
        if !self.is_well_formed() {
            return Err(GameError::InvariantViolation);
        }
        if !(self.phase == GamePhase::Bidding) || self.count_passed() == 3 {
            return Err(GameError::InvalidPhaseTransition);
        }
        if bid <= self.current_bid {
            return Err(GameError::IllegalMove);
        }
        let next = self.next_bidder();
        self.current_bid = bid;
        self.winning_bidder = self.turn;
        self.turn = next;
        proof {
            old(self).lemma_frame(*self);
        }
        Ok(())
    }

    /// The player to act passes and takes no further part in the bidding.
    /// When all but one have passed, the one left has won the bidding.
    pub fn pass_bid(&mut self) -> (r: Result<(), GameError>)
        ensures
            r == old(self).pass_outcome(),
            r is Ok ==> *final(self) == old(self).after_pass(),
            r is Ok ==> final(self).wf(),
            r is Err ==> *final(self) == *old(self),
    {
        if !self.is_well_formed() {
            return Err(GameError::InvariantViolation);
        }
        let count = self.count_passed();
        if !(self.phase == GamePhase::Bidding) || count == 3 {
            return Err(GameError::InvalidPhaseTransition);
        }
        self.passed[self.turn] = true;
        let next = self.next_bidder();
        if count == 2 {
            self.winning_bidder = next;
        }
        self.turn = next;
        proof {
            assert(self.passed =~= with4(old(self).passed, old(self).turn as int, true));
            old(self).lemma_frame(*self);
        }
        Ok(())
    }

    /// The winning bidder names the trump suit, and the deal moves on to
    /// `Meld`.
    pub fn choose_trump(&mut self, suit: Suit) -> (r: Result<(), GameError>)
        ensures
            r == old(self).trump_outcome(),
            r is Ok ==> *final(self) == old(self).after_trump(suit),
            r is Ok ==> final(self).wf(),
            r is Err ==> *final(self) == *old(self),
    {
        if !self.is_well_formed() {
            return Err(GameError::InvariantViolation);
        }
        if !(self.phase == GamePhase::Bidding) || self.count_passed() != 3 {
            return Err(GameError::InvalidPhaseTransition);
        }
        self.trump = Some(suit);
        self.phase = GamePhase::Meld;
        proof {
            old(self).lemma_frame(*self);
        }
        Ok(())
    }

    /// Adds each hand's meld to its team's score, and moves on to `Play`
    /// with the winning bidder to lead.
    pub fn score_meld(&mut self) -> (r: Result<(), GameError>)
        ensures
            r == old(self).meld_outcome(),
            r is Ok ==> *final(self) == old(self).after_meld(),
            r is Ok ==> final(self).wf(),
            r is Err ==> *final(self) == *old(self),
    {
        if !self.is_well_formed() {
            return Err(GameError::InvariantViolation);
        }
        if !(self.phase == GamePhase::Meld) {
            return Err(GameError::InvalidPhaseTransition);
        }
        let m0 = compute_meld(self.hands[0], self.trump) as i32;
        let m1 = compute_meld(self.hands[1], self.trump) as i32;
        let m2 = compute_meld(self.hands[2], self.trump) as i32;
        let m3 = compute_meld(self.hands[3], self.trump) as i32;
        proof {
            assert(old(self).score_ok(0) && old(self).score_ok(1));
            assert(self.locations()[4] <= DECK && self.locations()[5] <= DECK);
            lemma_points_bound(self.taken[0]);
            lemma_points_bound(self.taken[1]);
        }
        self.meld = [m0 + m2, m1 + m3];
        self.scores = [self.scores[0] + m0 + m2, self.scores[1] + m1 + m3];
        self.phase = GamePhase::Play;
        self.lead_player = self.winning_bidder;
        self.turn = self.winning_bidder;
        proof {
            assert(self.meld =~= old(self).after_meld().meld);
            assert(self.scores =~= old(self).after_meld().scores);
            old(self).lemma_frame(*self);
            assert forall|p: int| 0 <= p < 4 implies #[trigger] self.hand_size_ok(p) by {
                assert(old(self).hand_size_ok(p));
                assert(!self.has_played(p));
            }
        }
        Ok(())
    }

    /// What is said of a state's cards, hand sizes, scores and void marks
    /// holds alike of two states that agree on the fields it speaks of.
    pub proof fn lemma_frame(self, other: GameState)
        ensures
            self.current_trick == other.current_trick && self.cards_in_current_trick
                == other.cards_in_current_trick ==> self.slots_ok() == other.slots_ok(),
            self.hands == other.hands && self.taken == other.taken && self.current_trick
                == other.current_trick ==> self.conserved() == other.conserved(),
            self.hands == other.hands && self.tricks_played == other.tricks_played
                && self.cards_in_current_trick == other.cards_in_current_trick && self.lead_player
                == other.lead_player ==> forall|p: int|
                #![trigger self.hand_size_ok(p)]
                #![trigger other.hand_size_ok(p)]
                self.hand_size_ok(p) == other.hand_size_ok(p),
            self.scores == other.scores && self.meld == other.meld && self.taken == other.taken
                ==> self.score_ok(0) == other.score_ok(0) && self.score_ok(1) == other.score_ok(
                1,
            ),
            self.hands == other.hands && self.void_mask == other.void_mask ==> self.voids_ok()
                == other.voids_ok(),
    {
        if self.hands == other.hands && self.taken == other.taken && self.current_trick
            == other.current_trick {
            assert(self.locations() =~= other.locations());
        }
        if self.hands == other.hands && self.void_mask == other.void_mask {
            if self.voids_ok() {
                assert forall|p: int, suit: Suit|
                    0 <= p < 4 && #[trigger] other.marked_void(p, suit) implies other.hands[p]
                    & suit.spec_mask() == 0 by {
                    assert(self.marked_void(p, suit));
                }
            }
            if other.voids_ok() {
                assert forall|p: int, suit: Suit|
                    0 <= p < 4 && #[trigger] self.marked_void(p, suit) implies self.hands[p]
                    & suit.spec_mask() == 0 by {
                    assert(other.marked_void(p, suit));
                }
            }
        }
        if self.hands == other.hands && self.tricks_played == other.tricks_played
            && self.cards_in_current_trick == other.cards_in_current_trick && self.lead_player
            == other.lead_player {
            assert forall|p: int|
                #![trigger self.hand_size_ok(p)]
                #![trigger other.hand_size_ok(p)]
                self.hand_size_ok(p) == other.hand_size_ok(p) by {
                assert(self.has_played(p) == other.has_played(p));
            }
        }
    }

    /// In how many places a card is: the sum over all ten.
    pub proof fn lemma_locations(self)
        ensures
            forall|i: int| #[trigger]
                deck::holders(self.locations(), i) == deck::holds(self.hands[0], i) + deck::holds(
                    self.hands[1],
                    i,
                ) + deck::holds(self.hands[2], i) + deck::holds(self.hands[3], i) + deck::holds(
                    self.taken[0],
                    i,
                ) + deck::holds(self.taken[1], i) + deck::holds(card_word(self.current_trick[0]), i)
                    + deck::holds(card_word(self.current_trick[1]), i) + deck::holds(
                    card_word(self.current_trick[2]),
                    i,
                ) + deck::holds(card_word(self.current_trick[3]), i),
            deck::total(self.locations()) == popcount(self.hands[0]) + popcount(self.hands[1])
                + popcount(self.hands[2]) + popcount(self.hands[3]) + popcount(self.taken[0])
                + popcount(self.taken[1]) + popcount(card_word(self.current_trick[0])) + popcount(
                card_word(self.current_trick[1]),
            ) + popcount(card_word(self.current_trick[2])) + popcount(
                card_word(self.current_trick[3]),
            ),
    {
        let s0 = Seq::<u64>::empty();
        let s1 = s0.push(self.hands[0]);
        let s2 = s1.push(self.hands[1]);
        let s3 = s2.push(self.hands[2]);
        let s4 = s3.push(self.hands[3]);
        let s5 = s4.push(self.taken[0]);
        let s6 = s5.push(self.taken[1]);
        let s7 = s6.push(card_word(self.current_trick[0]));
        let s8 = s7.push(card_word(self.current_trick[1]));
        let s9 = s8.push(card_word(self.current_trick[2]));
        let s10 = s9.push(card_word(self.current_trick[3]));
        deck::lemma_push(s0, self.hands[0]);
        deck::lemma_push(s1, self.hands[1]);
        deck::lemma_push(s2, self.hands[2]);
        deck::lemma_push(s3, self.hands[3]);
        deck::lemma_push(s4, self.taken[0]);
        deck::lemma_push(s5, self.taken[1]);
        deck::lemma_push(s6, card_word(self.current_trick[0]));
        deck::lemma_push(s7, card_word(self.current_trick[1]));
        deck::lemma_push(s8, card_word(self.current_trick[2]));
        deck::lemma_push(s9, card_word(self.current_trick[3]));
        assert(self.locations() =~= s10);
    }

    /// Whether the slots of the trick agree with the number of cards on
    /// the table.
    fn slots_agree(&self) -> (ok: bool)
        ensures
            ok == (self.cards_in_current_trick <= 4 && self.slots_ok()),
    {
        if self.cards_in_current_trick > 4 {
            return false;
        }
        let mut k: usize = 0;
        while k < 4
            invariant
                k <= 4,
                self.cards_in_current_trick <= 4,
                forall|j: int|
                    0 <= j < k ==> (match #[trigger] self.current_trick[j] {
                        Some(c) => j < self.cards_in_current_trick && c < 48,
                        None => j >= self.cards_in_current_trick,
                    }),
            decreases 4 - k,
        {
            let fits = match self.current_trick[k] {
                Some(c) => k < self.cards_in_current_trick as usize && c < 48,
                None => k >= self.cards_in_current_trick as usize,
            };
            if !fits {
                return false;
            }
            k += 1;
        }
        true
    }

    /// Whether each card is in exactly one place.
    fn cards_conserved(&self) -> (ok: bool)
        requires
            self.slots_ok(),
        ensures
            ok == self.conserved(),
    {
        let words: [u64; 10] = [
            self.hands[0],
            self.hands[1],
            self.hands[2],
            self.hands[3],
            self.taken[0],
            self.taken[1],
            slot_word(self.current_trick[0]),
            slot_word(self.current_trick[1]),
            slot_word(self.current_trick[2]),
            slot_word(self.current_trick[3]),
        ];
        assert(words@ =~= self.locations());
        deck::splits_deck(&words)
    }

    /// Whether each hand has the size that the tricks played call for.
    fn hand_sizes_agree(&self) -> (ok: bool)
        requires
            self.lead_player < 4,
        ensures
            ok == (forall|p: int| 0 <= p < 4 ==> #[trigger] self.hand_size_ok(p)),
    {
        let mut p: usize = 0;
        while p < 4
            invariant
                p <= 4,
                self.lead_player < 4,
                forall|q: int| 0 <= q < p ==> #[trigger] self.hand_size_ok(q),
            decreases 4 - p,
        {
            let seat = (p + 4 - self.lead_player) % 4;
            let played: u32 = if seat < self.cards_in_current_trick as usize {
                1
            } else {
                0
            };
            proof {
                bits::lemma_ones_below_bound(self.hands[p as int], 64);
            }
            if self.hands[p].count_ones() + self.tricks_played as u32 + played != 12 {
                assert(!self.hand_size_ok(p as int));
                return false;
            }
            p += 1;
        }
        true
    }

    /// Whether each team's score is its meld plus the points it took.
    fn scores_agree(&self) -> (ok: bool)
        ensures
            ok == (self.score_ok(0) && self.score_ok(1)),
    {
        let mut t: usize = 0;
        while t < 2
            invariant
                t <= 2,
                forall|u: int| 0 <= u < t ==> #[trigger] self.score_ok(u),
            decreases 2 - t,
        {
            let points = count_points(self.taken[t]);
            if self.meld[t] < 0 || self.meld[t] > 40 || self.scores[t] != self.meld[t]
                + points as i32 {
                assert(!self.score_ok(t as int));
                return false;
            }
            t += 1;
        }
        true
    }

    /// Whether a mark on the player and the suit, if there is one, is
    /// true.
    fn void_mark_holds(&self, p: usize, suit: Suit) -> (ok: bool)
        requires
            p < 4,
        ensures
            ok == (self.marked_void(p as int, suit) ==> self.hands[p as int] & suit.spec_mask()
                == 0),
    {
        let k: u64 = (p as u64) * 4 + suit.ordinal() as u64;
        let marked = ((self.void_mask as u64) >> k) & 1 == 1;
        !marked || self.hands[p] & suit.mask() == 0
    }

    /// Whether every mark of a void suit is true.
    fn voids_agree(&self) -> (ok: bool)
        ensures
            ok == self.voids_ok(),
    {
        let mut p: usize = 0;
        while p < 4
            invariant
                p <= 4,
                forall|q: int, suit: Suit|
                    0 <= q < p && #[trigger] self.marked_void(q, suit) ==> self.hands[q]
                        & suit.spec_mask() == 0,
            decreases 4 - p,
        {
            let ok = self.void_mark_holds(p, Suit::Spades) && self.void_mark_holds(p, Suit::Hearts)
                && self.void_mark_holds(p, Suit::Diamonds) && self.void_mark_holds(
                p,
                Suit::Clubs,
            );
            if !ok {
                return false;
            }
            p += 1;
        }
        true
    }

    /// Whether the state agrees with its phase.
    fn phase_agrees(&self) -> (ok: bool)
        requires
            self.turn < 4,
            self.lead_player < 4,
        ensures
            ok == self.phase_ok(),
    {
        match self.phase {
            GamePhase::Bidding => {
                let count = self.count_passed();
                self.trump.is_none() && self.tricks_played == 0 && self.cards_in_current_trick == 0
                    && self.meld[0] == 0 && self.meld[1] == 0 && count <= 3
                    && !self.passed[self.turn] && (count != 3 || self.winning_bidder == self.turn)
            },
            GamePhase::Meld => {
                self.trump.is_some() && self.tricks_played == 0 && self.cards_in_current_trick == 0
                    && self.meld[0] == 0 && self.meld[1] == 0
            },
            GamePhase::Play => {
                self.trump.is_some() && self.tricks_played < 12 && self.turn == (self.lead_player
                    + self.cards_in_current_trick as usize) % 4
            },
            GamePhase::Complete => {
                self.trump.is_some() && self.tricks_played == 12 && self.cards_in_current_trick
                    == 0
            },
        }
    }

    /// Whether the state is well-formed.
    pub fn is_well_formed(&self) -> (ok: bool)
        ensures
            ok == self.wf(),
    {
        self.turn < 4 && self.lead_player < 4 && self.winning_bidder < 4
            && self.cards_in_current_trick < 4 && self.tricks_played <= 12 && self.slots_agree()
            && self.cards_conserved() && self.hand_sizes_agree() && self.scores_agree()
            && self.voids_agree() && self.phase_agrees()
    }

    /// `Ok` for a well-formed state, `InvariantViolation` for any other.
    pub fn validate(&self) -> (r: Result<(), GameError>)
        ensures
            self.wf() ==> r == Ok::<(), GameError>(()),
            !self.wf() ==> r == Err::<(), GameError>(GameError::InvariantViolation),
    {
        if self.is_well_formed() {
            Ok(())
        } else {
            Err(GameError::InvariantViolation)
        }
    }
}

/// The word that holds the card in a slot of the trick, if there is one.
fn slot_word(slot: Option<u16>) -> (w: u64)
    requires
        slot is Some ==> slot->Some_0 < 64,
    ensures
        w == card_word(slot),
{
    match slot {
        Some(c) => 1u64 << (c as u64),
        None => 0,
    }
}

} // verus!
