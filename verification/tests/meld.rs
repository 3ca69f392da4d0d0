use zysk_pinochle::cards::Card;
use zysk_pinochle::cards::Rank;
use zysk_pinochle::cards::Suit;
use zysk_pinochle::pinochle::meld::compute_meld;
use zysk_pinochle::pinochle::meld::count_rank_around;
use zysk_pinochle::pinochle::meld::has_marriage;

fn spades_marriage() -> u64 {
    Card::new(Suit::Spades, Rank::King, 0).bitmask()
        | Card::new(Suit::Spades, Rank::Queen, 0).bitmask()
}

fn aces_around() -> u64 {
    Card::new(Suit::Spades, Rank::Ace, 0).bitmask()
        | Card::new(Suit::Clubs, Rank::Ace, 0).bitmask()
        | Card::new(Suit::Hearts, Rank::Ace, 0).bitmask()
        | Card::new(Suit::Diamonds, Rank::Ace, 0).bitmask()
}

fn aces_around_around() -> u64 {
    Card::new(Suit::Spades, Rank::Ace, 1).bitmask()
        | Card::new(Suit::Clubs, Rank::Ace, 1).bitmask()
        | Card::new(Suit::Hearts, Rank::Ace, 1).bitmask()
        | Card::new(Suit::Diamonds, Rank::Ace, 1).bitmask()
}

#[test]
fn test_marriage() {
    assert!(has_marriage(spades_marriage()));
}

#[test]
fn test_aces_around() {
    assert_eq!(count_rank_around(aces_around(), Rank::Ace), 1);
    assert_eq!(count_rank_around(aces_around() | aces_around_around(), Rank::Ace), 2);
}

#[test]
fn test_meld() {
    assert_eq!(compute_meld(spades_marriage(), Some(Suit::Hearts)), 2);
    assert_eq!(compute_meld(spades_marriage(), Some(Suit::Spades)), 4);
}

#[test]
fn the_empty_hand_has_no_meld() {
    assert_eq!(compute_meld(0, None), 0);
    for trump in Suit::ALL {
        assert_eq!(compute_meld(0, Some(trump)), 0);
    }
    assert!(!has_marriage(0));
    for rank in Rank::ALL {
        assert_eq!(count_rank_around(0, rank), 0);
    }
}

#[test]
fn a_marriage_without_trump_counts_two() {
    assert_eq!(compute_meld(spades_marriage(), None), 2);
}

#[test]
fn marriages_count_by_pairs() {
    let k0 = Card::new(Suit::Hearts, Rank::King, 0).bitmask();
    let k1 = Card::new(Suit::Hearts, Rank::King, 1).bitmask();
    let q0 = Card::new(Suit::Hearts, Rank::Queen, 0).bitmask();
    let q1 = Card::new(Suit::Hearts, Rank::Queen, 1).bitmask();
    // a king alone, a queen alone
    assert_eq!(compute_meld(k0 | k1, Some(Suit::Hearts)), 0);
    assert_eq!(compute_meld(q1, Some(Suit::Hearts)), 0);
    // two kings and one queen make one marriage
    assert_eq!(compute_meld(k0 | k1 | q1, Some(Suit::Hearts)), 4);
    assert_eq!(compute_meld(k0 | k1 | q1, Some(Suit::Clubs)), 2);
    // both copies of both make two
    assert_eq!(compute_meld(k0 | k1 | q0 | q1, Some(Suit::Hearts)), 8);
    assert_eq!(compute_meld(k0 | k1 | q0 | q1, Some(Suit::Spades)), 4);
    // a king of one suit and a queen of another make none
    let qs = Card::new(Suit::Spades, Rank::Queen, 0).bitmask();
    assert_eq!(compute_meld(k0 | qs, Some(Suit::Hearts)), 0);
}

#[test]
fn the_most_meld_is_twenty() {
    let hand = Rank::King.mask() | Rank::Queen.mask();
    for trump in Suit::ALL {
        assert_eq!(compute_meld(hand, Some(trump)), 2 * 4 + 3 * 2 * 2);
    }
    assert_eq!(compute_meld(hand, None), 16);
    assert_eq!(compute_meld(0xFFFF_FFFF_FFFF, Some(Suit::Diamonds)), 20);
}

#[test]
fn meld_reads_the_hand_and_gives_the_same_twice() {
    let hand = spades_marriage() | aces_around();
    let first = compute_meld(hand, Some(Suit::Spades));
    let second = compute_meld(hand, Some(Suit::Spades));
    assert_eq!(first, 4);
    assert_eq!(first, second);
}

#[test]
fn has_marriage_wants_a_king_and_a_queen() {
    let king = Card::new(Suit::Clubs, Rank::King, 1).bitmask();
    let queen = Card::new(Suit::Clubs, Rank::Queen, 0).bitmask();
    assert!(!has_marriage(king));
    assert!(!has_marriage(queen));
    assert!(has_marriage(king | queen));
    assert!(!has_marriage(aces_around()));
}

#[test]
fn around_needs_every_suit() {
    let three = Card::new(Suit::Spades, Rank::Ace, 0).bitmask()
        | Card::new(Suit::Clubs, Rank::Ace, 0).bitmask()
        | Card::new(Suit::Hearts, Rank::Ace, 0).bitmask();
    assert_eq!(count_rank_around(three, Rank::Ace), 0);
    assert_eq!(count_rank_around(aces_around(), Rank::King), 0);
    // both copies in three suits, one in the fourth
    let hand = aces_around() | aces_around_around();
    let short = hand & !Card::new(Suit::Diamonds, Rank::Ace, 0).bitmask();
    assert_eq!(count_rank_around(short, Rank::Ace), 1);
    assert_eq!(count_rank_around(0xFFFF_FFFF_FFFF, Rank::Jack), 2);
}

#[test]
fn a_king_and_a_queen_of_two_suits_are_no_marriage() {
    let king_of_spades = Card::new(Suit::Spades, Rank::King, 0).bitmask();
    let queen_of_hearts = Card::new(Suit::Hearts, Rank::Queen, 0).bitmask();
    assert_eq!(king_of_spades | queen_of_hearts, 0x10040);
    assert!(!has_marriage(0x10040));
    assert_eq!(compute_meld(0x10040, Some(Suit::Spades)), 0);
    let queen_of_spades = Card::new(Suit::Spades, Rank::Queen, 1).bitmask();
    assert!(has_marriage(0x10040 | queen_of_spades));
    assert!(has_marriage(0xFFFF_FFFF_FFFF));
}
