//! Meld: the bonus points a hand earns for the combinations it holds.

use vstd::prelude::*;
use crate::cards::bits;
use crate::cards::bits::has_bit;
use crate::cards::bits::popcount;
use crate::cards::lemma_rank_mask;
use crate::cards::lemma_suit_mask;
use crate::cards::rank_at;
use crate::cards::suit_at;
use crate::cards::Rank;
use crate::cards::Suit;

verus! {

/// How many cards of the given suit and rank the hand holds: 0, 1 or 2.
pub open spec fn held(hand: u64, suit: Suit, rank: Rank) -> nat {
    popcount(hand & rank.spec_mask() & suit.spec_mask())
}

/// The smaller of two numbers.
pub open spec fn least(a: nat, b: nat) -> nat {
    if a <= b {
        a
    } else {
        b
    }
}

/// How many times the hand holds the rank in every suit at once: the
/// smallest of the four per-suit counts.
pub open spec fn rank_around(hand: u64, rank: Rank) -> nat {
    least(
        least(held(hand, Suit::Spades, rank), held(hand, Suit::Hearts, rank)),
        least(held(hand, Suit::Diamonds, rank), held(hand, Suit::Clubs, rank)),
    )
}

/// How many marriages the hand holds in a suit: pairs of one king and one
/// queen.
pub open spec fn marriages(hand: u64, suit: Suit) -> nat {
    least(held(hand, suit, Rank::King), held(hand, suit, Rank::Queen))
}

/// What the marriages of one suit are worth: four points each in trump, two
/// each elsewhere.
pub open spec fn suit_meld(hand: u64, trump: Option<Suit>, suit: Suit) -> nat {
    marriages(hand, suit) * if trump == Some(suit) {
        4nat
    } else {
        2nat
    }
}

/// The meld of the suits with an ordinal below `n`.
pub open spec fn meld_below(hand: u64, trump: Option<Suit>, n: int) -> nat
    decreases n,
{
    if n <= 0 {
        0
    } else {
        meld_below(hand, trump, n - 1) + suit_meld(hand, trump, Suit::of_ord(n - 1))
    }
}

/// The meld of a hand: what its marriages are worth, over all four suits.
pub open spec fn meld_points(hand: u64, trump: Option<Suit>) -> nat {
    meld_below(hand, trump, 4)
}

/// A hand holds at most both copies of a card, and holds a copy exactly
/// when one of the card's two bits is set.
pub proof fn lemma_held(hand: u64, suit: Suit, rank: Rank)
    ensures
        held(hand, suit, rank) <= 2,
        held(hand, suit, rank) > 0 <==> exists|i: int|
            0 <= i < 48 && #[trigger] has_bit(hand, i) && suit_at(i) == suit && rank_at(i) == rank,
{
    let both = rank.spec_mask() & suit.spec_mask();
    let mine = hand & rank.spec_mask() & suit.spec_mask();
    let lo = suit.ord() * 12 + rank.ord() * 2;
    lemma_rank_mask(rank);
    lemma_suit_mask(suit);
    bits::lemma_bit_and(rank.spec_mask(), suit.spec_mask());
    bits::lemma_bit_and(hand, rank.spec_mask());
    bits::lemma_bit_and(hand & rank.spec_mask(), suit.spec_mask());
    assert forall|i: int| has_bit(both, i) <==> lo <= i < lo + 2 by {
        if 0 <= i < 48 {
            assert(suit_at(i) == suit <==> i / 12 == suit.ord());
            assert(rank_at(i) == rank <==> (i % 12) / 2 == rank.ord());
        }
    }
    bits::lemma_ones_below_interval(both, lo, lo + 2, 64);
    bits::lemma_ones_below_subset(mine, both, 64);
    bits::lemma_popcount_zero(mine);
    if held(hand, suit, rank) > 0 {
        let i = choose|i: int| has_bit(mine, i);
        assert(has_bit(hand, i) && suit_at(i) == suit && rank_at(i) == rank);
    }
    if exists|i: int|
        0 <= i < 48 && #[trigger] has_bit(hand, i) && suit_at(i) == suit && rank_at(i) == rank {
        let i = choose|i: int|
            0 <= i < 48 && #[trigger] has_bit(hand, i) && suit_at(i) == suit && rank_at(i) == rank;
        assert(has_bit(mine, i));
    }
}

/// The meld of a hand is at most twenty points: two marriages in each
/// suit, of which one suit at most is trump.
pub proof fn lemma_meld_bound(hand: u64, trump: Option<Suit>)
    ensures
        meld_points(hand, trump) <= 20,
{
    reveal_with_fuel(meld_below, 5);
    lemma_held(hand, Suit::Spades, Rank::King);
    lemma_held(hand, Suit::Hearts, Rank::King);
    lemma_held(hand, Suit::Diamonds, Rank::King);
    lemma_held(hand, Suit::Clubs, Rank::King);
}

/// The empty hand has no meld, whatever the trump.
pub proof fn lemma_meld_empty(trump: Option<Suit>)
    ensures
        meld_points(0, trump) == 0,
{
    reveal_with_fuel(meld_below, 5);
    assert forall|suit: Suit| #[trigger] held(0, suit, Rank::King) == 0 by {
        let m = Rank::King.spec_mask();
        let s = suit.spec_mask();
        assert(0u64 & m & s == 0) by (bit_vector);
        bits::lemma_popcount_zero(0);
    }
}

/// How many cards of the given suit and rank the hand holds.
fn count_held(hand: u64, suit: Suit, rank: Rank) -> (r: u8)
    ensures
        r == held(hand, suit, rank),
        r <= 2,
{
    proof {
        lemma_held(hand, suit, rank);
    }
    let n: u32 = (hand & rank.mask() & suit.mask()).count_ones();
    n as u8
}

/// Whether the cards hold a marriage: a king and a queen of one suit.
pub fn has_marriage(cards: u64) -> (r: bool)
    ensures
        r == (exists|suit: Suit| #[trigger] marriages(cards, suit) > 0),
        r == (exists|suit: Suit|
            held(cards, suit, Rank::King) > 0 && #[trigger] held(cards, suit, Rank::Queen) > 0),
        r == (meld_points(cards, None) > 0),
{
    let spades = count_marriages(cards, Suit::Spades) > 0;
    let hearts = count_marriages(cards, Suit::Hearts) > 0;
    let diamonds = count_marriages(cards, Suit::Diamonds) > 0;
    let clubs = count_marriages(cards, Suit::Clubs) > 0;
    proof {
        reveal_with_fuel(meld_below, 5);
        assert(marriages(cards, Suit::Spades) > 0 <==> held(cards, Suit::Spades, Rank::King) > 0
            && held(cards, Suit::Spades, Rank::Queen) > 0);
        assert(marriages(cards, Suit::Hearts) > 0 <==> held(cards, Suit::Hearts, Rank::King) > 0
            && held(cards, Suit::Hearts, Rank::Queen) > 0);
        assert(marriages(cards, Suit::Diamonds) > 0 <==> held(cards, Suit::Diamonds, Rank::King)
            > 0 && held(cards, Suit::Diamonds, Rank::Queen) > 0);
        assert(marriages(cards, Suit::Clubs) > 0 <==> held(cards, Suit::Clubs, Rank::King) > 0
            && held(cards, Suit::Clubs, Rank::Queen) > 0);
    }
    spades || hearts || diamonds || clubs
}

/// How many marriages the hand holds in a suit.
fn count_marriages(hand: u64, suit: Suit) -> (r: u8)
    ensures
        r == marriages(hand, suit),
        r <= 2,
{
    let kings = count_held(hand, suit, Rank::King);
    let queens = count_held(hand, suit, Rank::Queen);
    if kings <= queens {
        kings
    } else {
        queens
    }
}

/// How many times the hand holds `rank` in all four suits at once: the
/// smallest number of copies it holds in any one suit.
pub fn count_rank_around(hand: u64, rank: Rank) -> (r: u8)
    ensures
        r == rank_around(hand, rank),
        r <= 2,
{
    let s = count_held(hand, Suit::Spades, rank);
    let h = count_held(hand, Suit::Hearts, rank);
    let d = count_held(hand, Suit::Diamonds, rank);
    let c = count_held(hand, Suit::Clubs, rank);
    let sh = if s <= h {
        s
    } else {
        h
    };
    let dc = if d <= c {
        d
    } else {
        c
    };
    if sh <= dc {
        sh
    } else {
        dc
    }
}

/// The meld of a hand under the given trump: for each suit, the number of
/// king-queen pairs the hand holds in it, times four in the trump suit and
/// times two in the others. The hand is read, never changed.
pub fn compute_meld(hand: u64, trump: Option<Suit>) -> (meld: u8)
    ensures
        meld == meld_points(hand, trump),
        meld <= 20,
{
    let mut meld: u8 = 0;
    let mut n: usize = 0;
    proof {
        lemma_meld_bound(hand, trump);
    }
    while n < 4
        invariant
            n <= 4,
            meld == meld_below(hand, trump, n as int),
            meld_below(hand, trump, 4) <= 20,
        decreases 4 - n,
    {
        let suit = Suit::ALL[n];
        let count = count_marriages(hand, suit);
        let multiplier: u8 = match trump {
            Some(t) => if t == suit {
                4
            } else {
                2
            },
            None => 2,
        };
        proof {
            reveal_with_fuel(meld_below, 5);
            assert(suit == Suit::of_ord(n as int));
            assert(count * multiplier == suit_meld(hand, trump, suit));
        }
        meld += count * multiplier;
        n += 1;
    }
    meld
}

} // verus!
