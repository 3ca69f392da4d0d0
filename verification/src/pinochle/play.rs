//! Trick play: putting a card on the table and taking a full trick.

use vstd::prelude::*;
use crate::cards::bits;
use crate::cards::bits::has_bit;
use crate::cards::bits::popcount;
use crate::cards::deck;
use crate::cards::deck::is_partition;
use crate::cards::hand::PinochleHand;
use crate::cards::lemma_in_deck;
use crate::cards::lemma_index_bijection;
use crate::cards::lemma_suit_mask;
use crate::cards::rank_at;
use crate::cards::suit_at;
use crate::cards::Card;
use crate::cards::Suit;
use crate::cards::DECK;
use crate::error::GameError;
use crate::pinochle::game_state::card_word;
use crate::pinochle::game_state::with2;
use crate::pinochle::game_state::with4;
use crate::pinochle::game_state::GameState;
use crate::pinochle::trick::card_points;
use crate::pinochle::trick::determine_winner;
use crate::pinochle::trick::lemma_points_bound;
use crate::pinochle::trick::lemma_points_disjoint;
use crate::pinochle::trick::lemma_points_single;
use crate::pinochle::trick::winner;
use crate::pinochle::GamePhase;

verus! {

impl GameState {
    /// The suit of the card that was led to the trick in progress.
    pub open spec fn lead_suit(self) -> Suit {
        suit_at(self.current_trick[0]->Some_0 as int)
    }

    /// Whether the player to act has to follow suit: a card was led, and
    /// the player holds a card of its suit.
    pub open spec fn must_follow(self) -> bool {
        self.cards_in_current_trick > 0 && self.hands[self.turn as int]
            & self.lead_suit().spec_mask() != 0
    }

    /// Whether the player to act may play the card with index `c`: the
    /// player holds it, and it follows suit where the player has to.
    pub open spec fn may_play(self, c: int) -> bool {
        &&& has_bit(self.hands[self.turn as int], c)
        &&& self.must_follow() ==> suit_at(c) == self.lead_suit()
    }

    /// What becomes of a proposed play. Outside the `Play` phase it is
    /// refused with `InvalidPhaseTransition`; an index that is no card's
    /// with `InvalidIndex`; a card the player does not hold, or one that
    /// does not follow suit though the player could, with `IllegalMove`.
    pub open spec fn move_outcome(self, card_index: u16) -> Result<(), GameError> {
        if !self.wf() {
            Err(GameError::InvariantViolation)
        } else if self.phase != GamePhase::Play {
            Err(GameError::InvalidPhaseTransition)
        } else if card_index >= 48 {
            Err(GameError::InvalidIndex)
        } else if !self.may_play(card_index as int) {
            Err(GameError::IllegalMove)
        } else {
            Ok(())
        }
    }

    /// The position of the mark for a player and a suit in `void_mask`.
    pub open spec fn void_bit(p: int, suit: Suit) -> int {
        p * 4 + suit.ord()
    }

    /// The state once the player to act has put the card on the table:
    /// the card has left the hand for the next free slot of the trick, the
    /// turn has passed on, and a player who did not follow suit is marked
    /// as void in the suit led.
    pub open spec fn with_card(self, c: u16) -> GameState {
        let p = self.turn as int;
        let n = self.cards_in_current_trick as int;
        GameState {
            hands: with4(self.hands, p, self.hands[p] & !(1u64 << (c as u64))),
            current_trick: with4(self.current_trick, n, Some(c)),
            cards_in_current_trick: (n + 1) as u8,
            turn: ((p + 1) % 4) as usize,
            void_mask: if n > 0 && suit_at(c as int) != self.lead_suit() {
                self.void_mask | (1u16 << (GameState::void_bit(p, self.lead_suit()) as u16))
            } else {
                self.void_mask
            },
            ..self
        }
    }

    /// The card in slot `k` of the trick.
    pub open spec fn trick_card(self, k: int) -> Card {
        Card::at(self.current_trick[k]->Some_0 as int)
    }

    /// The four cards of a full trick, in the order played.
    pub open spec fn trick_cards(self) -> [Card; 4] {
        [self.trick_card(0), self.trick_card(1), self.trick_card(2), self.trick_card(3)]
    }

    /// The player who wins the full trick on the table.
    pub open spec fn trick_winner(self) -> int {
        (self.lead_player + winner(self.trick_cards(), self.lead_suit(), self.trump)) % 4
    }

    /// What the four cards on the table are worth.
    pub open spec fn trick_points(self) -> int {
        rank_at(self.current_trick[0]->Some_0 as int).spec_points() + rank_at(
            self.current_trick[1]->Some_0 as int,
        ).spec_points() + rank_at(self.current_trick[2]->Some_0 as int).spec_points() + rank_at(
            self.current_trick[3]->Some_0 as int,
        ).spec_points()
    }

    /// The cards on the table, as a word.
    pub open spec fn trick_word(self) -> u64 {
        card_word(self.current_trick[0]) | card_word(self.current_trick[1]) | card_word(
            self.current_trick[2],
        ) | card_word(self.current_trick[3])
    }

    /// Whether no player holds a card.
    pub open spec fn hands_empty(self) -> bool {
        self.hands[0] == 0 && self.hands[1] == 0 && self.hands[2] == 0 && self.hands[3] == 0
    }

    /// The state once the full trick on the table is taken: its cards go
    /// to the pile of the winner's team and their points to its score, the
    /// table is cleared, and the winner leads to the next trick. When the
    /// hands are empty the deal is complete.
    pub open spec fn with_trick_taken(self) -> GameState {
        let w = self.trick_winner();
        let t = w % 2;
        GameState {
            taken: with2(self.taken, t, self.taken[t] | self.trick_word()),
            scores: with2(self.scores, t, (self.scores[t] + self.trick_points()) as i32),
            current_trick: [None, None, None, None],
            cards_in_current_trick: 0,
            lead_player: w as usize,
            turn: w as usize,
            tricks_played: (self.tricks_played + 1) as u8,
            phase: if self.hands_empty() {
                GamePhase::Complete
            } else {
                GamePhase::Play
            },
            ..self
        }
    }

    /// The state after the player to act has played the card: the card is
    /// on the table, and if it is the fourth, the trick is taken.
    pub open spec fn after_move(self, c: u16) -> GameState {
        let placed = self.with_card(c);
        if placed.cards_in_current_trick == 4 {
            placed.with_trick_taken()
        } else {
            placed
        }
    }

    /// Putting a card on the table that may be played keeps every card in
    /// one place and hands, scores and marks in agreement.
    pub proof fn lemma_card_placed(self, c: u16)
        requires
            self.wf(),
            self.phase == GamePhase::Play,
            c < 48,
            self.may_play(c as int),
        ensures
            self.with_card(c).inv(),
    {
        let next = self.with_card(c);
        let p = self.turn as int;
        let n = self.cards_in_current_trick as int;
        let bit: u64 = 1u64 << (c as u64);
        let words = self.locations();
        assert(self.current_trick[n] is None);
        assert(words[p] == self.hands[p]);
        assert(words[6 + n] == 0);
        deck::lemma_partition_move(words, p, 6 + n, c as u64);
        bits::lemma_bit_zero();
        bits::lemma_bit_single(c as u64);
        bits::lemma_bit_or(0, bit);
        bits::lemma_bits_equal(0 | bit, bit);
        bits::lemma_popcount_remove(self.hands[p], c as u64);
        assert(next.locations() =~= words.update(p, words[p] & !bit).update(
            6 + n,
            words[6 + n] | bit,
        ));
        assert(next.conserved());
        assert(next.slots_ok());
        assert forall|q: int| 0 <= q < 4 implies #[trigger] next.hand_size_ok(q) by {
            assert(self.hand_size_ok(q));
            if q == p {
                assert(!self.has_played(q));
                assert(next.has_played(q));
            } else {
                assert(self.has_played(q) == next.has_played(q));
            }
        }
        assert(next.score_ok(0) && next.score_ok(1));
        assert(next.voids_ok()) by {
            if n > 0 && suit_at(c as int) != self.lead_suit() {
                bits::lemma_mark_bit(
                    self.void_mask,
                    GameState::void_bit(p, self.lead_suit()) as u16,
                );
            }
            assert forall|q: int, suit: Suit|
                0 <= q < 4 && #[trigger] next.marked_void(q, suit) implies next.hands[q]
                & suit.spec_mask() == 0 by {
                let less = next.hands[q] & suit.spec_mask();
                let more = self.hands[q] & suit.spec_mask();
                bits::lemma_bit_and_not(self.hands[p], bit);
                bits::lemma_bit_and(next.hands[q], suit.spec_mask());
                bits::lemma_bit_and(self.hands[q], suit.spec_mask());
                bits::lemma_popcount_zero(less);
                bits::lemma_popcount_zero(more);
                if self.marked_void(q, suit) {
                    assert(more == 0);
                } else {
                    assert(q == p && suit == self.lead_suit());
                    assert(!self.must_follow());
                    assert(more == 0);
                }
            }
        }
        assert(next.phase_ok());
    }

    /// An accepted play leaves the state well-formed.
    pub proof fn lemma_move_keeps_wf(self, c: u16)
        requires
            self.move_outcome(c) is Ok,
        ensures
            self.after_move(c).wf(),
    {
        self.lemma_card_placed(c);
        if self.with_card(c).cards_in_current_trick == 4 {
            self.with_card(c).lemma_trick_taken();
        }
    }

    /// Puts the card of the player to act on the table.
    fn place_card(&mut self, c: u16)
        requires
            old(self).wf(),
            old(self).phase == GamePhase::Play,
            c < 48,
            old(self).may_play(c as int),
        ensures
            *final(self) == old(self).with_card(c),
            final(self).inv(),
            final(self).phase == GamePhase::Play,
    {
        let p = self.turn;
        let n = self.cards_in_current_trick as usize;
        let bit: u64 = 1u64 << (c as u64);
        proof {
            self.lemma_card_placed(c);
        }
        if n > 0 {
            let (_, lead) = self.slot_card(0);
            let played = Card::from_index(c as u8).suit();
            proof {
                lemma_index_bijection(Card::at(0), c as int);
            }
            if !(played == lead.suit()) {
                let k: u16 = (p as u16) * 4 + lead.suit().ordinal() as u16;
                self.void_mask = self.void_mask | (1u16 << k);
            }
        }
        self.hands[p] = self.hands[p] & !bit;
        self.current_trick[n] = Some(c);
        self.cards_in_current_trick = self.cards_in_current_trick + 1;
        self.turn = (p + 1) % 4;
        proof {
            let next = old(self).with_card(c);
            assert(self.hands =~= next.hands);
            assert(self.current_trick =~= next.current_trick);
        }
    }

    /// The card in slot `k` of the trick.
    fn slot_card(&self, k: usize) -> (r: (u16, Card))
        requires
            self.slots_ok(),
            k < self.cards_in_current_trick,
            k < 4,
        ensures
            self.current_trick[k as int] == Some(r.0),
            r.0 < 48,
            r.1 == self.trick_card(k as int),
            r.1.suit() == suit_at(r.0 as int),
            r.1.rank() == rank_at(r.0 as int),
    {
        match self.current_trick[k] {
            Some(c) => {
                proof {
                    lemma_index_bijection(Card::at(0), c as int);
                }
                (c, Card::from_index(c as u8))
            },
            None => (0, Card::from_index(0)),
        }
    }

    /// Where the cards are once the full trick has gone to team `t`, and
    /// what the team's pile is then worth.
    proof fn lemma_trick_cards(self, t: int)
        requires
            self.slots_ok(),
            self.cards_in_current_trick == 4,
            self.conserved(),
            0 <= t < 2,
        ensures
            is_partition(
                self.locations().update(4 + t, self.taken[t] | self.trick_word()).update(
                    6,
                    0,
                ).update(7, 0).update(8, 0).update(9, 0),
            ),
            card_points(self.taken[t] | self.trick_word()) == card_points(self.taken[t])
                + self.trick_points(),
            card_points(self.taken[t]) <= 240,
    {
        let words = self.locations();
        let pile = self.taken[t];
        let c0 = self.current_trick[0]->Some_0;
        let c1 = self.current_trick[1]->Some_0;
        let c2 = self.current_trick[2]->Some_0;
        let c3 = self.current_trick[3]->Some_0;
        let b0 = card_word(self.current_trick[0]);
        let b1 = card_word(self.current_trick[1]);
        let b2 = card_word(self.current_trick[2]);
        let b3 = card_word(self.current_trick[3]);
        assert(self.current_trick[0] is Some && self.current_trick[1] is Some
            && self.current_trick[2] is Some && self.current_trick[3] is Some);
        assert(words[4 + t] == pile);
        let w1 = words.update(4 + t, words[4 + t] | words[6]).update(6, 0);
        let w2 = w1.update(4 + t, w1[4 + t] | w1[7]).update(7, 0);
        let w3 = w2.update(4 + t, w2[4 + t] | w2[8]).update(8, 0);
        let w4 = w3.update(4 + t, w3[4 + t] | w3[9]).update(9, 0);
        deck::lemma_partition_disjoint(words, 4 + t, 6);
        deck::lemma_partition_merge(words, 6, 4 + t);
        deck::lemma_partition_disjoint(w1, 4 + t, 7);
        deck::lemma_partition_merge(w1, 7, 4 + t);
        deck::lemma_partition_disjoint(w2, 4 + t, 8);
        deck::lemma_partition_merge(w2, 8, 4 + t);
        deck::lemma_partition_disjoint(w3, 4 + t, 9);
        deck::lemma_partition_merge(w3, 9, 4 + t);
        bits::lemma_or_four(pile, b0, b1, b2, b3);
        assert(w4[4 + t] == pile | self.trick_word());
        assert(w4 =~= words.update(4 + t, pile | self.trick_word()).update(6, 0).update(
            7,
            0,
        ).update(8, 0).update(9, 0));
        lemma_points_disjoint(pile, b0);
        lemma_points_disjoint(pile | b0, b1);
        lemma_points_disjoint((pile | b0) | b1, b2);
        lemma_points_disjoint(((pile | b0) | b1) | b2, b3);
        lemma_points_single(c0 as u64);
        lemma_points_single(c1 as u64);
        lemma_points_single(c2 as u64);
        lemma_points_single(c3 as u64);
        assert(words[4 + t] <= DECK);
        lemma_points_bound(pile);
    }

    /// After a full trick is taken each card is still in one place.
    proof fn lemma_taken_conserved(self)
        requires
            self.slots_ok(),
            self.cards_in_current_trick == 4,
            self.conserved(),
        ensures
            self.with_trick_taken().conserved(),
            self.with_trick_taken().slots_ok(),
    {
        let next = self.with_trick_taken();
        let t = self.trick_winner() % 2;
        self.lemma_trick_cards(t);
        assert(next.locations() =~= self.locations().update(
            4 + t,
            self.taken[t] | self.trick_word(),
        ).update(6, 0).update(7, 0).update(8, 0).update(9, 0));
    }

    /// After a full trick is taken each hand has the size that one more
    /// trick played calls for, and the hands are empty exactly after the
    /// twelfth trick.
    proof fn lemma_taken_sizes(self)
        requires
            self.lead_player < 4,
            self.cards_in_current_trick == 4,
            forall|p: int| 0 <= p < 4 ==> #[trigger] self.hand_size_ok(p),
        ensures
            forall|p: int| 0 <= p < 4 ==> #[trigger] self.with_trick_taken().hand_size_ok(p),
            self.hands_empty() <==> self.tricks_played == 11,
    {
        let next = self.with_trick_taken();
        assert forall|p: int| 0 <= p < 4 implies popcount(#[trigger] self.hands[p])
            + self.tricks_played + 1 == 12 by {
            assert(self.hand_size_ok(p));
            assert(self.has_played(p));
        }
        assert forall|p: int| 0 <= p < 4 implies #[trigger] next.hand_size_ok(p) by {
            assert(popcount(self.hands[p]) + self.tricks_played + 1 == 12);
            assert(!next.has_played(p));
        }
        bits::lemma_popcount_zero(self.hands[0]);
        bits::lemma_popcount_zero(self.hands[1]);
        bits::lemma_popcount_zero(self.hands[2]);
        bits::lemma_popcount_zero(self.hands[3]);
        assert(popcount(self.hands[0]) + self.tricks_played + 1 == 12);
        assert(popcount(self.hands[1]) + self.tricks_played + 1 == 12);
        assert(popcount(self.hands[2]) + self.tricks_played + 1 == 12);
        assert(popcount(self.hands[3]) + self.tricks_played + 1 == 12);
    }

    /// After a full trick is taken each team's score is still its meld
    /// plus the points of its pile.
    proof fn lemma_taken_scores(self)
        requires
            self.slots_ok(),
            self.cards_in_current_trick == 4,
            self.conserved(),
            self.score_ok(0),
            self.score_ok(1),
        ensures
            self.with_trick_taken().score_ok(0),
            self.with_trick_taken().score_ok(1),
            0 <= self.scores[0] <= 280,
            0 <= self.scores[1] <= 280,
            0 <= self.trick_points() <= 44,
    {
        let t = self.trick_winner() % 2;
        self.lemma_trick_cards(t);
        self.lemma_trick_cards(1 - t);
    }

    /// Taking a full trick leaves the state well-formed, and the scores
    /// within bounds.
    pub proof fn lemma_trick_taken(self)
        requires
            self.inv(),
            self.phase == GamePhase::Play,
            self.cards_in_current_trick == 4,
        ensures
            self.with_trick_taken().wf(),
            self.hands_empty() <==> self.tricks_played == 11,
            0 <= self.scores[0] <= 280,
            0 <= self.scores[1] <= 280,
    {
        let next = self.with_trick_taken();
        self.lemma_taken_conserved();
        self.lemma_taken_sizes();
        self.lemma_taken_scores();
        self.lemma_frame(next);
        assert(next.phase_ok());
    }

    /// Takes the full trick on the table.
    fn take_trick(&mut self)
        requires
            old(self).inv(),
            old(self).phase == GamePhase::Play,
            old(self).cards_in_current_trick == 4,
        ensures
            *final(self) == old(self).with_trick_taken(),
            final(self).wf(),
    {
        let (c0, card0) = self.slot_card(0);
        let (c1, card1) = self.slot_card(1);
        let (c2, card2) = self.slot_card(2);
        let (c3, card3) = self.slot_card(3);
        let cards = [card0, card1, card2, card3];
        assert(cards =~= self.trick_cards());
        let position = determine_winner(cards, card0.suit(), self.trump);
        let w = (self.lead_player + position) % 4;
        let t = w % 2;
        let points: i32 = (card0.rank().points() + card1.rank().points() + card2.rank().points()
            + card3.rank().points()) as i32;
        let b0: u64 = 1u64 << (c0 as u64);
        let b1: u64 = 1u64 << (c1 as u64);
        let b2: u64 = 1u64 << (c2 as u64);
        let b3: u64 = 1u64 << (c3 as u64);
        let word: u64 = b0 | b1 | b2 | b3;
        proof {
            self.lemma_trick_taken();
            assert(word == self.trick_word());
            assert(points == self.trick_points());
            assert(w == self.trick_winner());
        }
        let done = self.hands[0] == 0 && self.hands[1] == 0 && self.hands[2] == 0 && self.hands[3]
            == 0;
        self.taken[t] = self.taken[t] | word;
        self.scores[t] = self.scores[t] + points;
        self.current_trick = [None, None, None, None];
        self.cards_in_current_trick = 0;
        self.lead_player = w;
        self.turn = w;
        self.tricks_played = self.tricks_played + 1;
        if done {
            self.phase = GamePhase::Complete;
        }
        proof {
            let next = old(self).with_trick_taken();
            assert(self.taken =~= next.taken);
            assert(self.scores =~= next.scores);
            assert(self.current_trick =~= next.current_trick);
        }
    }

    /// The player to act plays the card with the given index.
    ///
    /// The card must be in the player's hand, and must follow the suit led
    /// if the player holds a card of that suit; a player who cannot follow
    /// may play any card, and is from then on marked as void in the suit
    /// led. The fourth card of a trick completes it: the trick goes to its
    /// winner's team, who leads next, and after the twelfth trick the deal
    /// is complete. A refused play leaves the state as it was.
    pub fn apply_move(&mut self, card_index: u16) -> (r: Result<(), GameError>)
        ensures
            r == old(self).move_outcome(card_index),
            r is Ok ==> *final(self) == old(self).after_move(card_index),
            r is Ok ==> final(self).wf(),
            r is Err ==> *final(self) == *old(self),
    {
        if !self.is_well_formed() {
            return Err(GameError::InvariantViolation);
        }
        if !(self.phase == GamePhase::Play) {
            return Err(GameError::InvalidPhaseTransition);
        }
        if card_index >= 48 {
            return Err(GameError::InvalidIndex);
        }
        proof {
            assert(self.locations()[self.turn as int] <= DECK);
        }
        let hand = match PinochleHand::from_bits(self.hands[self.turn]) {
            Ok(hand) => hand,
            Err(_) => {
                return Err(GameError::InvariantViolation);
            },
        };
        if !hand.contains(card_index as u8) {
            return Err(GameError::IllegalMove);
        }
        if self.cards_in_current_trick > 0 {
            let (_, lead) = self.slot_card(0);
            let legal = hand.legal_plays(lead.suit(), self.trump);
            proof {
                lemma_suit_mask(lead.suit());
                bits::lemma_bit_and(hand.bits(), lead.suit().spec_mask());
            }
            if !legal.contains(card_index as u8) {
                return Err(GameError::IllegalMove);
            }
        }
        self.place_card(card_index);
        if self.cards_in_current_trick == 4 {
            self.take_trick();
        }
        Ok(())
    }

    /// The cards the player to act may play now, as a word: the empty set
    /// outside the `Play` phase and for a state that is not well-formed.
    pub fn legal_moves(&self) -> (r: u64)
        ensures
            forall|c: u16| #[trigger] has_bit(r, c as int) <==> self.move_outcome(c) is Ok,
            r <= DECK,
    {
        proof {
            bits::lemma_bit_zero();
        }
        if !self.is_well_formed() || !(self.phase == GamePhase::Play) {
            return 0;
        }
        proof {
            assert(self.locations()[self.turn as int] <= DECK);
            lemma_in_deck(self.hands[self.turn as int]);
        }
        let hand = match PinochleHand::from_bits(self.hands[self.turn]) {
            Ok(hand) => hand,
            Err(_) => {
                return 0;
            },
        };
        if self.cards_in_current_trick == 0 {
            return hand.bits();
        }
        let (_, lead) = self.slot_card(0);
        let legal = hand.legal_plays(lead.suit(), self.trump);
        proof {
            lemma_suit_mask(lead.suit());
            bits::lemma_bit_and(hand.bits(), lead.suit().spec_mask());
        }
        legal.bits()
    }

    /// The cards played to the trick in progress, in the order played.
    pub open spec fn table(self) -> Seq<u16> {
        Seq::new(self.cards_in_current_trick as nat, |k: int| self.current_trick[k]->Some_0)
    }

    /// The cards played to the trick in progress, in the order played.
    pub fn table_cards(&self) -> (r: Vec<u16>)
        ensures
            r@.len() <= 4,
            self.slots_ok() && self.cards_in_current_trick <= 4 ==> r@ == self.table(),
            forall|k: int| 0 <= k < r@.len() ==> self.current_trick[k] == Some(#[trigger] r@[k]),
    {
        let mut cards: Vec<u16> = Vec::new();
        let mut k: usize = 0;
        while k < 4
            invariant
                k <= 4,
                cards@.len() <= k,
                self.slots_ok() && self.cards_in_current_trick <= 4 ==> cards@.len() == if k
                    <= self.cards_in_current_trick {
                    k as int
                } else {
                    self.cards_in_current_trick as int
                },
                forall|j: int|
                    0 <= j < cards@.len() ==> self.current_trick[j] == Some(#[trigger] cards@[j]),
            decreases 4 - k,
        {
            if cards.len() == k {
                match self.current_trick[k] {
                    Some(c) => {
                        cards.push(c);
                    },
                    None => {},
                }
            }
            k += 1;
        }
        proof {
            if self.slots_ok() && self.cards_in_current_trick <= 4 {
                assert(cards@ =~= self.table());
            }
        }
        cards
    }
}

} // verus!
