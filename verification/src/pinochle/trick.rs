//! Who wins a trick.

use vstd::prelude::*;
use crate::cards::bits;
use crate::cards::bits::popcount;
use crate::cards::lemma_deck;
use crate::cards::lemma_rank_mask;
use crate::cards::rank_at;
use crate::cards::Card;
use crate::cards::Rank;
use crate::cards::Suit;
use crate::cards::DECK;

verus! {

/// How strong a card is in a trick: a trump beats every card that is not
/// trump, a card of the led suit beats every card that is neither, and
/// within trump and within the led suit the higher rank is stronger. A card
/// that is neither trump nor of the led suit has no strength.
pub open spec fn strength(card: Card, lead_suit: Suit, trump: Option<Suit>) -> int {
    if trump == Some(card.suit()) {
        7 + card.rank().ord()
    } else if card.suit() == lead_suit {
        1 + card.rank().ord()
    } else {
        0
    }
}

/// Whether position `w` wins the trick: no card is stronger than the card
/// at `w`, and every card played before it is weaker. Of two cards of the
/// same strength, the one played first wins.
pub open spec fn wins(trick: [Card; 4], lead_suit: Suit, trump: Option<Suit>, w: int) -> bool {
    &&& 0 <= w < 4
    &&& forall|j: int|
        0 <= j < 4 ==> strength(#[trigger] trick[j], lead_suit, trump) <= strength(
            trick[w],
            lead_suit,
            trump,
        )
    &&& forall|j: int|
        0 <= j < w ==> strength(#[trigger] trick[j], lead_suit, trump) < strength(
            trick[w],
            lead_suit,
            trump,
        )
}

/// The position that wins the trick, given the cards in the order in which
/// they were played. Position 0 holds the card that was led.
pub open spec fn winner(trick: [Card; 4], lead_suit: Suit, trump: Option<Suit>) -> int {
    choose|w: int| wins(trick, lead_suit, trump, w)
}

/// How strong the card is in a trick.
fn card_strength(card: Card, lead_suit: Suit, trump: Option<Suit>) -> (r: u8)
    ensures
        r == strength(card, lead_suit, trump),
{
    let is_trump = match trump {
        Some(t) => t == card.suit(),
        None => false,
    };
    if is_trump {
        7 + card.rank().ordinal()
    } else if card.suit() == lead_suit {
        1 + card.rank().ordinal()
    } else {
        0
    }
}

/// The position, `0..4`, of the card that wins the trick. `trick` holds the
/// four cards in the order in which they were played.
///
/// The highest trump wins; if no trump was played, the highest card of the
/// led suit wins; ranks compare as Nine < Jack < Queen < King < Ten < Ace.
/// Where two copies of the winning card were played, the one played first
/// wins. If no card is trump or of the led suit, position 0 wins.
pub fn determine_winner(trick: [Card; 4], lead_suit: Suit, trump: Option<Suit>) -> (w: usize)
    ensures
        wins(trick, lead_suit, trump, w as int),
        w == winner(trick, lead_suit, trump),
{
    let mut best: usize = 0;
    let mut best_strength: u8 = card_strength(trick[0], lead_suit, trump);
    let mut k: usize = 1;
    while k < 4
        invariant
            1 <= k <= 4,
            best < k,
            best_strength == strength(trick[best as int], lead_suit, trump),
            forall|j: int|
                0 <= j < k ==> strength(#[trigger] trick[j], lead_suit, trump) <= best_strength,
            forall|j: int|
                0 <= j < best ==> strength(#[trigger] trick[j], lead_suit, trump) < best_strength,
        decreases 4 - k,
    {
        let s = card_strength(trick[k], lead_suit, trump);
        if s > best_strength {
            best = k;
            best_strength = s;
        }
        k += 1;
    }
    proof {
        lemma_winner_unique(trick, lead_suit, trump, best as int, winner(trick, lead_suit, trump));
    }
    best
}

/// A trick has one winner only.
pub proof fn lemma_winner_unique(
    trick: [Card; 4],
    lead_suit: Suit,
    trump: Option<Suit>,
    a: int,
    b: int,
)
    requires
        wins(trick, lead_suit, trump, a),
    ensures
        wins(trick, lead_suit, trump, b) ==> a == b,
        wins(trick, lead_suit, trump, winner(trick, lead_suit, trump)),
{
}

/// If a trump was played, a trump wins, and no trump in the trick outranks
/// the winner.
pub proof fn lemma_trump_wins(trick: [Card; 4], lead_suit: Suit, trump: Suit, w: int, j: int)
    requires
        wins(trick, lead_suit, Some(trump), w),
        0 <= j < 4,
        trick[j].suit() == trump,
    ensures
        trick[w].suit() == trump,
        trick[j].rank().ord() <= trick[w].rank().ord(),
        j < w ==> trick[j].rank().ord() < trick[w].rank().ord(),
{
}

/// If no trump was played but a card of the led suit was, a card of the
/// led suit wins, and no card of the led suit in the trick outranks it.
pub proof fn lemma_lead_suit_wins(
    trick: [Card; 4],
    lead_suit: Suit,
    trump: Option<Suit>,
    w: int,
    j: int,
)
    requires
        wins(trick, lead_suit, trump, w),
        forall|k: int| 0 <= k < 4 ==> trump != Some(#[trigger] trick[k].suit()),
        0 <= j < 4,
        trick[j].suit() == lead_suit,
    ensures
        trick[w].suit() == lead_suit,
        trick[j].rank().ord() <= trick[w].rank().ord(),
        j < w ==> trick[j].rank().ord() < trick[w].rank().ord(),
{
}

/// How many cards of the rank are among `cards`.
pub open spec fn rank_count(cards: u64, rank: Rank) -> nat {
    popcount(cards & rank.spec_mask())
}

/// What a set of cards is worth: the points of each card's rank, summed.
/// Jacks count 2, queens 3, kings 4, tens 10 and aces 11; nines count
/// nothing.
pub open spec fn card_points(cards: u64) -> nat {
    2 * rank_count(cards, Rank::Jack) + 3 * rank_count(cards, Rank::Queen) + 4 * rank_count(
        cards,
        Rank::King,
    ) + 10 * rank_count(cards, Rank::Ten) + 11 * rank_count(cards, Rank::Ace)
}

/// What a set of cards is worth.
pub fn count_points(cards: u64) -> (r: u32)
    ensures
        r == card_points(cards),
        r <= 1920,
{
    proof {
        bits::lemma_ones_below_bound(cards & Rank::Jack.spec_mask(), 64);
        bits::lemma_ones_below_bound(cards & Rank::Queen.spec_mask(), 64);
        bits::lemma_ones_below_bound(cards & Rank::King.spec_mask(), 64);
        bits::lemma_ones_below_bound(cards & Rank::Ten.spec_mask(), 64);
        bits::lemma_ones_below_bound(cards & Rank::Ace.spec_mask(), 64);
    }
    let jacks: u32 = (cards & Rank::Jack.mask()).count_ones();
    let queens: u32 = (cards & Rank::Queen.mask()).count_ones();
    let kings: u32 = (cards & Rank::King.mask()).count_ones();
    let tens: u32 = (cards & Rank::Ten.mask()).count_ones();
    let aces: u32 = (cards & Rank::Ace.mask()).count_ones();
    2 * jacks + 3 * queens + 4 * kings + 10 * tens + 11 * aces
}

/// Two sets of cards without a card in common are worth, together, the
/// sum of what each is worth.
pub proof fn lemma_points_disjoint(a: u64, b: u64)
    requires
        a & b == 0,
    ensures
        card_points(a | b) == card_points(a) + card_points(b),
{
    assert forall|rank: Rank| #[trigger]
        rank_count(a | b, rank) == rank_count(a, rank) + rank_count(b, rank) by {
        let m = rank.spec_mask();
        bits::lemma_and_distributes(a, b, m);
        bits::lemma_popcount_disjoint(a & m, b & m);
    }
}

/// One card alone is worth the points of its rank.
pub proof fn lemma_points_single(c: u64)
    requires
        c < 48,
    ensures
        card_points(1u64 << c) == rank_at(c as int).spec_points(),
{
    let bit = 1u64 << c;
    bits::lemma_bit_single(c);
    bits::lemma_popcount_single(c);
    bits::lemma_popcount_zero(0);
    assert forall|rank: Rank| #[trigger]
        rank_count(bit, rank) == if rank_at(c as int) == rank {
            1nat
        } else {
            0nat
        } by {
        let m = rank.spec_mask();
        lemma_rank_mask(rank);
        bits::lemma_bit_and(bit, m);
        bits::lemma_bit_zero();
        if rank_at(c as int) == rank {
            bits::lemma_bits_equal(bit & m, bit);
        } else {
            bits::lemma_bits_equal(bit & m, 0);
        }
    }
}

/// No cards are worth nothing, and the whole deck is worth 240 points.
pub proof fn lemma_points_deck()
    ensures
        card_points(0) == 0,
        card_points(DECK) == 240,
{
    lemma_deck();
    bits::lemma_bit_zero();
    bits::lemma_popcount_zero(0);
    assert forall|rank: Rank|
        #![trigger rank.spec_mask()]
        rank_count(0, rank) == 0 && rank_count(DECK, rank) == 8 by {
        let m = rank.spec_mask();
        lemma_rank_mask(rank);
        bits::lemma_bit_and(0, m);
        bits::lemma_bit_and(DECK, m);
        bits::lemma_bits_equal(0u64 & m, 0);
        bits::lemma_bits_equal(DECK & m, m);
    }
}

/// No set of cards is worth more than the deck.
pub proof fn lemma_points_bound(cards: u64)
    requires
        cards <= DECK,
    ensures
        card_points(cards) <= 240,
{
    let rest = DECK & !cards;
    lemma_deck();
    crate::cards::lemma_in_deck(cards);
    bits::lemma_bit_and_not(DECK, cards);
    bits::lemma_bit_or(cards, rest);
    bits::lemma_bit_and(cards, rest);
    bits::lemma_bit_zero();
    bits::lemma_bits_equal(cards | rest, DECK);
    bits::lemma_bits_equal(cards & rest, 0);
    lemma_points_disjoint(cards, rest);
    lemma_points_deck();
}

} // verus!
