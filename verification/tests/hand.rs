use zysk_pinochle::cards::Card;
use zysk_pinochle::cards::PinochleHand;
use zysk_pinochle::cards::Rank;
use zysk_pinochle::cards::Suit;
use zysk_pinochle::error::GameError;

fn bit(suit: Suit, rank: Rank, copy: u8) -> u64 {
    Card::new(suit, rank, copy).bitmask()
}

#[test]
fn a_new_hand_is_empty() {
    let hand = PinochleHand::new();
    assert_eq!(hand.bits(), 0);
    assert_eq!(hand.count(), 0);
    assert_eq!(hand, PinochleHand::default());
    for i in 0..=255u8 {
        assert!(!hand.contains(i));
    }
}

#[test]
fn add_card_puts_in_the_first_copy() {
    let mut hand = PinochleHand::new();
    hand.add_card(Suit::Hearts, Rank::King);
    assert_eq!(hand.bits(), 1u64 << 18);
    assert!(hand.contains(18));
    assert!(!hand.contains(19));
    assert_eq!(hand.count(), 1);
    hand.add_card(Suit::Hearts, Rank::King);
    assert_eq!(hand.bits(), 1u64 << 18);
    hand.add_card(Suit::Clubs, Rank::Ace);
    assert_eq!(hand.bits(), (1u64 << 18) | (1u64 << 46));
    assert_eq!(hand.count(), 2);
}

#[test]
fn from_bits_refuses_what_is_no_card() {
    assert_eq!(PinochleHand::from_bits(1u64 << 48), Err(GameError::InvalidIndex));
    assert_eq!(PinochleHand::from_bits(u64::MAX), Err(GameError::InvalidIndex));
    let all = PinochleHand::from_bits(0xFFFF_FFFF_FFFF).unwrap();
    assert_eq!(all.count(), 48);
    assert_eq!(all.bits(), 0xFFFF_FFFF_FFFF);
}

#[test]
fn contains_tells_the_copies_apart() {
    let hand = PinochleHand::from_bits(bit(Suit::Spades, Rank::Ace, 1)).unwrap();
    assert!(hand.contains(11));
    assert!(!hand.contains(10));
    assert!(!hand.contains(48));
    assert!(!hand.contains(64));
    assert!(!hand.contains(75));
}

#[test]
fn cards_in_suit_keeps_that_suit_only() {
    let spades = bit(Suit::Spades, Rank::Nine, 0) | bit(Suit::Spades, Rank::Ace, 1);
    let clubs = bit(Suit::Clubs, Rank::Ten, 0);
    let hand = PinochleHand::from_bits(spades | clubs).unwrap();
    assert_eq!(hand.cards_in_suit(Suit::Spades).bits(), spades);
    assert_eq!(hand.cards_in_suit(Suit::Clubs).bits(), clubs);
    assert_eq!(hand.cards_in_suit(Suit::Hearts).bits(), 0);
    assert!(!hand.is_void_in(Suit::Spades));
    assert!(!hand.is_void_in(Suit::Clubs));
    assert!(hand.is_void_in(Suit::Hearts));
    assert!(hand.is_void_in(Suit::Diamonds));
    assert_eq!(hand.count(), 3);
}

#[test]
fn legal_plays_follow_suit_when_possible() {
    let spades = bit(Suit::Spades, Rank::Nine, 0) | bit(Suit::Spades, Rank::Ace, 1);
    let clubs = bit(Suit::Clubs, Rank::Ten, 0);
    let hand = PinochleHand::from_bits(spades | clubs).unwrap();
    assert_eq!(hand.legal_plays(Suit::Spades, Some(Suit::Clubs)).bits(), spades);
    assert_eq!(hand.legal_plays(Suit::Clubs, None).bits(), clubs);
    // Nothing to follow with: the whole hand, trump or not.
    assert_eq!(hand.legal_plays(Suit::Hearts, Some(Suit::Clubs)).bits(), spades | clubs);
    assert_eq!(hand.legal_plays(Suit::Diamonds, Some(Suit::Diamonds)).bits(), spades | clubs);
    assert_eq!(PinochleHand::new().legal_plays(Suit::Spades, None).bits(), 0);
}
