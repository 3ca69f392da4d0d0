//! A player's hand as a set of card indices.

use vstd::prelude::*;
use crate::cards::bits;
use crate::cards::bits::has_bit;
use crate::cards::lemma_in_deck;
use crate::cards::suit_at;
use crate::cards::Card;
use crate::cards::Rank;
use crate::cards::Suit;
use crate::cards::DECK;
use crate::error::GameError;

verus! {

/// The cards one player holds: a 64-bit word of which bit `i` is set when
/// the hand holds the card with index `i`. Only the low 48 bits are ever
/// set.
#[derive(Debug, Clone, Copy, PartialEq, Eq, Structural)]
pub struct PinochleHand {
    bits: u64,
}

impl View for PinochleHand {
    type V = Set<int>;

    /// The indices of the cards in the hand.
    open spec fn view(&self) -> Set<int> {
        bits::bit_set(self.spec_bits())
    }
}

impl Default for PinochleHand {
    /// The empty hand.
    fn default() -> (r: Self)
        ensures
            r@ == Set::<int>::empty(),
            r.spec_bits() == 0,
    {
        PinochleHand::new()
    }
}

impl PinochleHand {
    /// A hand holds cards only: no bit past the 48th is set.
    #[verifier::type_invariant]
    pub closed spec fn in_deck(self) -> bool {
        self.bits <= DECK
    }

    /// The hand as a word.
    pub closed spec fn spec_bits(self) -> u64 {
        self.bits
    }

    /// The cards of the hand that belong to `suit`.
    pub open spec fn suit_cards(self, suit: Suit) -> Set<int> {
        Set::new(|i: int| self@.contains(i) && suit_at(i) == suit)
    }

    /// The empty hand.
    pub fn new() -> (r: Self)
        ensures
            r@ == Set::<int>::empty(),
            r.spec_bits() == 0,
    {
        proof {
            bits::lemma_bit_zero();
            assert(bits::bit_set(0) =~= Set::<int>::empty());
        }
        PinochleHand { bits: 0 }
    }

    /// The hand that a word stands for, or `InvalidIndex` where the word
    /// has a bit set that is no card's index.
    pub fn from_bits(bits: u64) -> (r: Result<Self, GameError>)
        ensures
            bits <= DECK ==> r is Ok && r->Ok_0.spec_bits() == bits,
            bits > DECK ==> r == Err::<PinochleHand, GameError>(GameError::InvalidIndex),
    {
        if bits > DECK {
            Err(GameError::InvalidIndex)
        } else {
            Ok(PinochleHand { bits })
        }
    }

    /// The hand as a word.
    #[verifier::when_used_as_spec(spec_bits)]
    pub fn bits(self) -> (r: u64)
        ensures
            r == self.spec_bits(),
            r <= DECK,
            forall|i: int| self@.contains(i) ==> 0 <= i < 48,
    {
        proof {
            use_type_invariant(&self);
            lemma_in_deck(self.bits);
        }
        self.bits
    }

    /// Puts the first copy of the card of the given suit and rank into the
    /// hand. A hand that holds it already stays as it is.
    pub fn add_card(&mut self, suit: Suit, rank: Rank)
        ensures
            final(self)@ == old(self)@.insert(suit.ord() * 12 + rank.ord() * 2),
            final(self).spec_bits() == old(self).spec_bits() | (1u64 << ((suit.ord() * 12
                + rank.ord() * 2) as u64)),
    {
        let card = Card::new(suit, rank, 0);
        let bit = card.bitmask();
        let bits = self.bits | bit;
        proof {
            use_type_invariant(&*self);
            lemma_in_deck(self.bits);
            lemma_in_deck(bits);
            bits::lemma_bit_or(self.bits, bit);
            assert(bits::bit_set(bits) =~= bits::bit_set(self.bits).insert(card.index()));
        }
        self.bits = bits;
    }

    /// Whether the hand holds the card with the given index.
    pub fn contains(self, card_index: u8) -> (r: bool)
        ensures
            r == self@.contains(card_index as int),
    {
        proof {
            use_type_invariant(&self);
            lemma_in_deck(self.bits);
        }
        card_index < 48 && (self.bits >> card_index) & 1 == 1
    }

    /// The cards of the hand that belong to `suit`.
    pub fn cards_in_suit(self, suit: Suit) -> (r: Self)
        ensures
            r@ == self.suit_cards(suit),
            r.spec_bits() == self.spec_bits() & suit.spec_mask(),
    {
        let mask = suit.mask();
        let bits = self.bits & mask;
        proof {
            use_type_invariant(&self);
            lemma_in_deck(self.bits);
            lemma_in_deck(bits);
            bits::lemma_bit_and(self.bits, mask);
            assert(bits::bit_set(bits) =~= self.suit_cards(suit));
        }
        PinochleHand { bits }
    }

    /// Whether the hand holds no card of `suit`.
    pub fn is_void_in(self, suit: Suit) -> (r: bool)
        ensures
            r == (self.suit_cards(suit) == Set::<int>::empty()),
            r == (self.spec_bits() & suit.spec_mask() == 0),
    {
        let held = self.cards_in_suit(suit);
        proof {
            bits::lemma_popcount_zero(held.bits);
            if held.bits == 0 {
                assert(held@ =~= Set::<int>::empty());
            } else {
                let i = choose|i: int| has_bit(held.bits, i);
                assert(held@.contains(i));
            }
        }
        held.bits == 0
    }

    /// The cards that may be played when `lead_suit` was led: the cards of
    /// that suit if the hand holds any, else the whole hand. The trump suit
    /// does not restrict the choice.
    pub fn legal_plays(self, lead_suit: Suit, trump: Option<Suit>) -> (r: Self)
        ensures
            r@ == if self.suit_cards(lead_suit) == Set::<int>::empty() {
                self@
            } else {
                self.suit_cards(lead_suit)
            },
            r.spec_bits() == if self.spec_bits() & lead_suit.spec_mask() == 0 {
                self.spec_bits()
            } else {
                self.spec_bits() & lead_suit.spec_mask()
            },
    {
        if self.is_void_in(lead_suit) {
            self
        } else {
            self.cards_in_suit(lead_suit)
        }
    }

    /// The number of cards in the hand.
    pub fn count(self) -> (r: u32)
        ensures
            r == self@.len(),
            r == bits::popcount(self.spec_bits()),
            r <= 48,
    {
        proof {
            use_type_invariant(&self);
            bits::lemma_bit_set_len(self.bits);
            lemma_in_deck(self.bits);
            crate::cards::lemma_deck();
            bits::lemma_ones_below_subset(self.bits, DECK, 64);
        }
        self.bits.count_ones()
    }
}

} // verus!
