//! Card identities and their bit-level encoding.
//!
//! A card is a suit, a rank and a copy number. Its index is
//! `suit * 12 + rank * 2 + copy`, a number in `0..48`, and that index is also
//! the card's bit position in every set of cards.

use vstd::prelude::*;
use crate::error::GameError;
use bits::has_bit;
use bits::popcount;

pub mod bits;
pub mod deck;
pub mod hand;

pub use hand::PinochleHand;

verus! {

/// The set of all 48 cards: the low 48 bits.
pub const DECK: u64 = 0xFFFF_FFFF_FFFF;

/// One of the four suits. Each suit owns twelve consecutive bits of the
/// 48-bit card encoding.
#[derive(Debug, Clone, Copy, PartialEq, Eq, Hash, Structural)]
pub enum Suit {
    Spades,
    Hearts,
    Diamonds,
    Clubs,
}

/// One of the six ranks, in ascending order of trick-taking strength.
#[derive(Debug, Clone, Copy, PartialEq, Eq, Hash, PartialOrd, Ord, Structural)]
pub enum Rank {
    Nine,
    Jack,
    Queen,
    King,
    Ten,
    Ace,
}

/// One physical card: a suit, a rank, and which of the two copies it is.
#[derive(Debug, Clone, Copy, PartialEq, Eq, Hash, Structural)]
pub struct Card {
    copy: u8,
    rank: Rank,
    suit: Suit,
}

/// The suit of the card with index `i`.
pub open spec fn suit_at(i: int) -> Suit {
    Suit::of_ord(i / 12)
}

/// The rank of the card with index `i`.
pub open spec fn rank_at(i: int) -> Rank {
    Rank::of_ord((i % 12) / 2)
}

impl Suit {
    /// The four suits, by ordinal.
    pub const ALL: [Suit; 4] = [Suit::Spades, Suit::Hearts, Suit::Diamonds, Suit::Clubs];

    /// The cards of each suit as a word, by the suit's ordinal.
    pub const MASKS: [u64; 4] = [0xFFF, 0xFFF000, 0xFFF000000, 0xFFF000000000];

    /// The suit's ordinal, `0..4`.
    pub open spec fn ord(self) -> int {
        match self {
            Suit::Spades => 0,
            Suit::Hearts => 1,
            Suit::Diamonds => 2,
            Suit::Clubs => 3,
        }
    }

    /// The suit with the given ordinal; ordinals past the last give `Clubs`.
    pub open spec fn of_ord(o: int) -> Suit {
        if o == 0 {
            Suit::Spades
        } else if o == 1 {
            Suit::Hearts
        } else if o == 2 {
            Suit::Diamonds
        } else {
            Suit::Clubs
        }
    }

    /// The suit's cards, as a word.
    pub open spec fn spec_mask(self) -> u64 {
        Suit::MASKS[self.ord()]
    }

    /// The suit's ordinal, `0..4`.
    pub fn ordinal(self) -> (r: u8)
        ensures
            r == self.ord(),
            r < 4,
    {
        match self {
            Suit::Spades => 0,
            Suit::Hearts => 1,
            Suit::Diamonds => 2,
            Suit::Clubs => 3,
        }
    }

    /// The twelve contiguous bits of this suit's segment: the cards of the
    /// suit.
    #[verifier::when_used_as_spec(spec_mask)]
    pub fn mask(self) -> (r: u64)
        ensures
            r == self.spec_mask(),
            forall|i: int| #[trigger] has_bit(r, i) <==> 0 <= i < 48 && suit_at(i) == self,
            popcount(r) == 12,
    {
        proof {
            lemma_suit_mask(self);
        }
        Suit::MASKS[self.ordinal() as usize]
    }

    /// The position of the suit's lowest bit.
    pub fn bit_offset(self) -> (r: u32)
        ensures
            r == self.ord() * 12,
    {
        (self.ordinal() as u32) * 12
    }
}

impl Rank {
    /// The six ranks, by ordinal.
    pub const ALL: [Rank; 6] = [
        Rank::Nine,
        Rank::Jack,
        Rank::Queen,
        Rank::King,
        Rank::Ten,
        Rank::Ace,
    ];

    /// The cards of each rank as a word, by the rank's ordinal.
    pub const MASKS: [u64; 6] = [
        0x003003003003,
        0x00C00C00C00C,
        0x030030030030,
        0x0C00C00C00C0,
        0x300300300300,
        0xC00C00C00C00,
    ];

    /// The rank's ordinal, `0..6`: its trick-taking strength.
    pub open spec fn ord(self) -> int {
        match self {
            Rank::Nine => 0,
            Rank::Jack => 1,
            Rank::Queen => 2,
            Rank::King => 3,
            Rank::Ten => 4,
            Rank::Ace => 5,
        }
    }

    /// The rank with the given ordinal; ordinals past the last give `Ace`.
    pub open spec fn of_ord(o: int) -> Rank {
        if o == 0 {
            Rank::Nine
        } else if o == 1 {
            Rank::Jack
        } else if o == 2 {
            Rank::Queen
        } else if o == 3 {
            Rank::King
        } else if o == 4 {
            Rank::Ten
        } else {
            Rank::Ace
        }
    }

    /// Both copies of the rank in all four suits, as a word.
    pub open spec fn spec_mask(self) -> u64 {
        Rank::MASKS[self.ord()]
    }

    /// The points a card of this rank is worth in a trick.
    pub open spec fn spec_points(self) -> u8 {
        match self {
            Rank::Ace => 11,
            Rank::Ten => 10,
            Rank::King => 4,
            Rank::Queen => 3,
            Rank::Jack => 2,
            Rank::Nine => 0,
        }
    }

    /// The rank's ordinal, `0..6`.
    pub fn ordinal(self) -> (r: u8)
        ensures
            r == self.ord(),
            r < 6,
    {
        match self {
            Rank::Nine => 0,
            Rank::Jack => 1,
            Rank::Queen => 2,
            Rank::King => 3,
            Rank::Ten => 4,
            Rank::Ace => 5,
        }
    }

    /// The two bits of the rank with ordinal `rank_index`, repeated in each
    /// of the four suit segments.
    pub fn calculate_mask(rank_index: u64) -> (r: u64)
        requires
            rank_index < 6,
        ensures
            r == Rank::MASKS[rank_index as int],
    {
        let bits: u64 = 0b11 << (rank_index * 2);
        let r: u64 = bits | (bits << 12) | (bits << 24) | (bits << 36);
        assert(r == if rank_index == 0 {
            0x003003003003u64
        } else if rank_index == 1 {
            0x00C00C00C00Cu64
        } else if rank_index == 2 {
            0x030030030030u64
        } else if rank_index == 3 {
            0x0C00C00C00C0u64
        } else if rank_index == 4 {
            0x300300300300u64
        } else {
            0xC00C00C00C00u64
        }) by (bit_vector)
            requires
                rank_index < 6,
                bits == 3u64 << (rank_index * 2) as u64,
                r == bits | (bits << 12) | (bits << 24) | (bits << 36),
        ;
        r
    }

    /// Both copies of this rank across all suits: eight cards.
    #[verifier::when_used_as_spec(spec_mask)]
    pub fn mask(self) -> (r: u64)
        ensures
            r == self.spec_mask(),
            forall|i: int| #[trigger] has_bit(r, i) <==> 0 <= i < 48 && rank_at(i) == self,
            popcount(r) == 8,
    {
        proof {
            lemma_rank_mask(self);
        }
        Rank::MASKS[self.ordinal() as usize]
    }

    /// The position of the rank's lower bit within a suit segment.
    pub fn bit_offset(self) -> (r: u32)
        ensures
            r == self.ord() * 2,
    {
        (self.ordinal() as u32) * 2
    }

    /// The points a card of this rank is worth in a trick.
    #[verifier::when_used_as_spec(spec_points)]
    pub fn points(self) -> (r: u8)
        ensures
            r == self.spec_points(),
    {
        match self {
            Rank::Ace => 11,
            Rank::Ten => 10,
            Rank::King => 4,
            Rank::Queen => 3,
            Rank::Jack => 2,
            Rank::Nine => 0,
        }
    }
}

impl Card {
    /// A card never holds a copy number other than 0 or 1.
    #[verifier::type_invariant]
    pub closed spec fn is_valid(self) -> bool {
        self.copy <= 1
    }

    /// The card's suit.
    pub closed spec fn spec_suit(self) -> Suit {
        self.suit
    }

    /// The card's rank.
    pub closed spec fn spec_rank(self) -> Rank {
        self.rank
    }

    /// Which of the two copies the card is: 0 or 1.
    pub closed spec fn spec_copy(self) -> u8 {
        self.copy
    }

    /// The card's index: `suit * 12 + rank * 2 + copy`.
    pub open spec fn index(self) -> int {
        self.suit().ord() * 12 + self.rank().ord() * 2 + self.copy()
    }

    /// The card with index `i`.
    pub closed spec fn at(i: int) -> Card {
        Card { suit: suit_at(i), rank: rank_at(i), copy: (i % 2) as u8 }
    }

    /// The word with only this card's bit set.
    pub open spec fn spec_bitmask(self) -> u64 {
        1u64 << (self.index() as u64)
    }

    /// The given copy, 0 or 1, of the card of the given suit and rank.
    pub fn new(suit: Suit, rank: Rank, copy: u8) -> (r: Self)
        requires
            copy <= 1,
        ensures
            r.is_valid(),
            r.suit() == suit,
            r.rank() == rank,
            r.copy() == copy,
            r.index() == suit.ord() * 12 + rank.ord() * 2 + copy,
    {
        Self { suit, rank, copy }
    }

    /// The given copy of the card of the given suit and rank, or
    /// `InvalidIndex` where `copy` is neither 0 nor 1: a third copy would
    /// have the index of another card, or of none.
    pub fn try_new(suit: Suit, rank: Rank, copy: u8) -> (r: Result<Self, GameError>)
        ensures
            copy <= 1 ==> r is Ok && r->Ok_0.suit() == suit && r->Ok_0.rank() == rank
                && r->Ok_0.copy() == copy,
            copy > 1 ==> r == Err::<Card, GameError>(GameError::InvalidIndex),
    {
        if copy <= 1 {
            Ok(Card::new(suit, rank, copy))
        } else {
            Err(GameError::InvalidIndex)
        }
    }

    /// The card's position in every bitset, `0..48`.
    pub fn to_index(self) -> (r: u8)
        ensures
            r == self.index(),
            r < 48,
    {
        proof {
            use_type_invariant(&self);
        }
        (self.suit.ordinal() * 12) + (self.rank.ordinal() * 2) + self.copy
    }

    /// The card with the given index.
    pub fn from_index(index: u8) -> (r: Self)
        requires
            index < 48,
        ensures
            r == Card::at(index as int),
            r.is_valid(),
            r.index() == index,
    {
        let suit_id = index / 12;
        let rank_id = (index % 12) / 2;
        let copy = index % 2;
        Self {
            suit: match suit_id {
                0 => Suit::Spades,
                1 => Suit::Hearts,
                2 => Suit::Diamonds,
                _ => Suit::Clubs,
            },
            rank: match rank_id {
                0 => Rank::Nine,
                1 => Rank::Jack,
                2 => Rank::Queen,
                3 => Rank::King,
                4 => Rank::Ten,
                _ => Rank::Ace,
            },
            copy,
        }
    }

    /// The card with the given index, or `InvalidIndex` where no card has
    /// it.
    pub fn try_from_index(index: u8) -> (r: Result<Self, GameError>)
        ensures
            index < 48 ==> r == Ok::<Card, GameError>(Card::at(index as int)),
            index >= 48 ==> r == Err::<Card, GameError>(GameError::InvalidIndex),
    {
        if index < 48 {
            Ok(Card::from_index(index))
        } else {
            Err(GameError::InvalidIndex)
        }
    }

    /// The card's suit.
    #[verifier::when_used_as_spec(spec_suit)]
    pub fn suit(self) -> (r: Suit)
        ensures
            r == self.spec_suit(),
    {
        self.suit
    }

    /// The card's rank.
    #[verifier::when_used_as_spec(spec_rank)]
    pub fn rank(self) -> (r: Rank)
        ensures
            r == self.spec_rank(),
    {
        self.rank
    }

    /// Which of the two copies the card is: 0 or 1.
    #[verifier::when_used_as_spec(spec_copy)]
    pub fn copy(self) -> (r: u8)
        ensures
            r == self.spec_copy(),
            r <= 1,
    {
        proof {
            use_type_invariant(&self);
        }
        self.copy
    }

    /// The word with only this card's bit set.
    #[verifier::when_used_as_spec(spec_bitmask)]
    pub fn bitmask(self) -> (r: u64)
        ensures
            r == self.spec_bitmask(),
            forall|i: int| #[trigger] has_bit(r, i) <==> i == self.index(),
            popcount(r) == 1,
    {
        let index = self.to_index();
        proof {
            bits::lemma_bit_single(index as u64);
            bits::lemma_popcount_single(index as u64);
        }
        1u64 << index
    }
}

/// The bits of a suit's mask are the indices of its cards, twelve in all.
pub proof fn lemma_suit_mask(s: Suit)
    ensures
        forall|i: int| #[trigger] has_bit(s.spec_mask(), i) <==> 0 <= i < 48 && suit_at(i) == s,
        forall|i: int|
            #[trigger] has_bit(s.spec_mask(), i) <==> s.ord() * 12 <= i < s.ord() * 12 + 12,
        popcount(s.spec_mask()) == 12,
{
    let m: u64 = s.spec_mask();
    let t = s.ord() as u64;
    assert forall|i: int| #[trigger] has_bit(m, i) <==> 0 <= i < 48 && i / 12 == s.ord() by {
        if 0 <= i < 64 {
            let k = i as u64;
            assert((m >> k) & 1 == 1 <==> k < 48 && k / 12 == t) by (bit_vector)
                requires
                    t < 4,
                    k < 64,
                    m == if t == 0 {
                        0xFFFu64
                    } else if t == 1 {
                        0xFFF000u64
                    } else if t == 2 {
                        0xFFF000000u64
                    } else {
                        0xFFF000000000u64
                    },
            ;
        }
    }
    bits::lemma_ones_below_interval(m, s.ord() * 12, s.ord() * 12 + 12, 64);
}

/// The bits of a rank's mask are the indices of its cards, eight in all.
pub proof fn lemma_rank_mask(r: Rank)
    ensures
        forall|i: int| #[trigger] has_bit(r.spec_mask(), i) <==> 0 <= i < 48 && rank_at(i) == r,
        popcount(r.spec_mask()) == 8,
{
    let m: u64 = r.spec_mask();
    let t = r.ord() as u64;
    assert forall|i: int| #[trigger] has_bit(m, i) <==> 0 <= i < 48 && (i % 12) / 2 == r.ord() by {
        if 0 <= i < 64 {
            let k = i as u64;
            assert((m >> k) & 1 == 1 <==> k < 48 && (k % 12) / 2 == t) by (bit_vector)
                requires
                    t < 6,
                    k < 64,
                    m == if t == 0 {
                        0x003003003003u64
                    } else if t == 1 {
                        0x00C00C00C00Cu64
                    } else if t == 2 {
                        0x030030030030u64
                    } else if t == 3 {
                        0x0C00C00C00C0u64
                    } else if t == 4 {
                        0x300300300300u64
                    } else {
                        0xC00C00C00C00u64
                    },
            ;
        }
    }
    lemma_rank_count(m, r.ord(), 64);
}

/// How many cards of the rank with ordinal `r` have an index below `n`.
spec fn rank_count_below(r: int, n: int) -> int {
    if n <= 0 {
        0
    } else if n >= 48 {
        8
    } else {
        let t = n % 12 - 2 * r;
        2 * (n / 12) + if t <= 0 {
            0
        } else if t >= 2 {
            2
        } else {
            t
        }
    }
}

/// A rank's mask has `rank_count_below` bits set below `n`.
proof fn lemma_rank_count(m: u64, r: int, n: int)
    requires
        0 <= r < 6,
        forall|i: int| #[trigger] has_bit(m, i) <==> 0 <= i < 48 && (i % 12) / 2 == r,
    ensures
        bits::ones_below(m, n) == rank_count_below(r, n),
    decreases n,
{
    if n > 0 {
        lemma_rank_count(m, r, n - 1);
    }
}

/// The bits of the deck are the indices `0..48`.
pub proof fn lemma_deck()
    ensures
        forall|i: int| #[trigger] has_bit(DECK, i) <==> 0 <= i < 48,
        popcount(DECK) == 48,
{
    assert forall|i: int| #[trigger] has_bit(DECK, i) <==> 0 <= i < 48 by {
        if 0 <= i < 64 {
            let k = i as u64;
            assert((0xFFFF_FFFF_FFFFu64 >> k) & 1 == 1 <==> k < 48) by (bit_vector)
                requires
                    k < 64,
            ;
        }
    }
    bits::lemma_ones_below_interval(DECK, 0, 48, 64);
}

/// Index and card determine each other: decoding a card's index gives the
/// card back, and encoding the card decoded from an index in `0..48` gives
/// the index back.
pub proof fn lemma_index_bijection(card: Card, i: int)
    ensures
        card.is_valid() ==> 0 <= card.index() < 48 && Card::at(card.index()) == card,
        0 <= i < 48 ==> Card::at(i).is_valid() && Card::at(i).index() == i,
        0 <= i < 48 ==> Card::at(i).suit() == suit_at(i) && Card::at(i).rank() == rank_at(i)
            && Card::at(i).copy() == i % 2,
{
}

/// A word is at most `DECK` exactly when each of its bits is a card index.
pub proof fn lemma_in_deck(x: u64)
    ensures
        x <= DECK <==> (forall|i: int| #[trigger] has_bit(x, i) ==> 0 <= i < 48),
{
    if x <= DECK {
        assert forall|i: int| #[trigger] has_bit(x, i) implies 0 <= i < 48 by {
            let k = i as u64;
            assert(k < 48) by (bit_vector)
                requires
                    k < 64,
                    x <= 0xFFFF_FFFF_FFFFu64,
                    (x >> k) & 1 == 1,
            ;
        }
    }
    if forall|i: int| #[trigger] has_bit(x, i) ==> 0 <= i < 48 {
        lemma_deck();
        bits::lemma_bit_and(x, DECK);
        bits::lemma_bits_equal(x & DECK, x);
        assert(x & 0xFFFF_FFFF_FFFFu64 <= 0xFFFF_FFFF_FFFFu64) by (bit_vector);
    }
}

} // verus!
