use zysk_pinochle::cards::deck::first_card;
use zysk_pinochle::cards::deck::splits_deck;
use zysk_pinochle::cards::Suit;
use zysk_pinochle::error::GameError;
use zysk_pinochle::pinochle::GamePhase;
use zysk_pinochle::pinochle::GameState;

/// Each player holds one whole suit.
fn deal_by_suit() -> [u64; 4] {
    [0xFFF, 0xFFF << 12, 0xFFF << 24, 0xFFF << 36]
}

/// Player `p` holds the cards whose index leaves `p` when divided by 4.
fn deal_round_robin() -> [u64; 4] {
    let mut hands = [0u64; 4];
    for i in 0..48 {
        hands[i % 4] |= 1u64 << i;
    }
    hands
}

/// A deal in `Play`: players 0, 1 and 2 pass, player 3 names the trump.
fn in_play(hands: [u64; 4], trump: Suit) -> GameState {
    let mut game = GameState::deal(hands).unwrap();
    assert_eq!(game.pass_bid(), Ok(()));
    assert_eq!(game.pass_bid(), Ok(()));
    assert_eq!(game.pass_bid(), Ok(()));
    assert_eq!(game.choose_trump(trump), Ok(()));
    assert_eq!(game.score_meld(), Ok(()));
    game
}

fn cards_accounted_for(game: &GameState) -> u32 {
    let in_hands: u32 = game.hands.iter().map(|h| h.count_ones()).sum();
    let taken: u32 = game.taken.iter().map(|t| t.count_ones()).sum();
    in_hands + game.cards_in_current_trick as u32 + taken
}

#[test]
fn a_new_state_is_blank() {
    let game = GameState::new();
    assert_eq!(game.hands, [0, 0, 0, 0]);
    assert_eq!(game.current_trick, [None, None, None, None]);
    assert_eq!(game.cards_in_current_trick, 0);
    assert_eq!(game.trump, None);
    assert_eq!(game.turn, 0);
    assert_eq!(game.lead_player, 0);
    assert_eq!(game.scores, [0, 0]);
    assert_eq!(game.current_bid, 0);
    assert_eq!(game.winning_bidder, 0);
    assert_eq!(game.void_mask, 0);
    assert_eq!(game.phase, GamePhase::Bidding);
    assert_eq!(game.passed, [false, false, false, false]);
    assert_eq!(game.taken, [0, 0]);
    assert_eq!(game.meld, [0, 0]);
    assert_eq!(game.tricks_played, 0);
    assert!(!game.is_over());
    assert_eq!(game.current_turn(), 0);
}

#[test]
fn a_state_without_cards_is_refused() {
    let mut game = GameState::new();
    assert!(!game.is_well_formed());
    assert_eq!(game.validate(), Err(GameError::InvariantViolation));
    assert_eq!(game.raise_bid(10), Err(GameError::InvariantViolation));
    assert_eq!(game.pass_bid(), Err(GameError::InvariantViolation));
    assert_eq!(game.choose_trump(Suit::Spades), Err(GameError::InvariantViolation));
    assert_eq!(game.score_meld(), Err(GameError::InvariantViolation));
    assert_eq!(game.apply_move(0), Err(GameError::InvariantViolation));
    assert_eq!(game.legal_moves(), 0);
    assert_eq!(game, GameState::new());
}

#[test]
fn the_dealer_may_fill_in_the_hands() {
    let mut game = GameState::new();
    game.hands = deal_round_robin();
    assert!(game.is_well_formed());
    assert_eq!(game.validate(), Ok(()));
    assert_eq!(game, GameState::deal(deal_round_robin()).unwrap());
}

#[test]
fn deal_takes_a_deal_and_nothing_else() {
    let game = GameState::deal(deal_by_suit()).unwrap();
    assert_eq!(game.hands, deal_by_suit());
    assert_eq!(game.phase, GamePhase::Bidding);
    assert_eq!(game.get_hand(2), 0xFFF << 24);
    assert_eq!(game.get_score(0), 0);
    assert_eq!(game.get_score(1), 0);
    assert_eq!(cards_accounted_for(&game), 48);

    // a bit that is no card
    let mut hands = deal_by_suit();
    hands[1] |= 1u64 << 48;
    assert_eq!(GameState::deal(hands), Err(GameError::InvalidIndex));
    // a card in two hands, and one in none
    let mut hands = deal_by_suit();
    hands[0] = (hands[0] & !1) | (1u64 << 12);
    assert_eq!(GameState::deal(hands), Err(GameError::InvariantViolation));
    // every card once, but thirteen and eleven
    let mut hands = deal_by_suit();
    hands[0] |= 1u64 << 12;
    hands[1] &= !(1u64 << 12);
    assert_eq!(GameState::deal(hands), Err(GameError::InvariantViolation));
    // a card missing
    let mut hands = deal_by_suit();
    hands[3] &= !(1u64 << 47);
    assert_eq!(GameState::deal(hands), Err(GameError::InvariantViolation));
    assert_eq!(GameState::deal([0, 0, 0, 0]), Err(GameError::InvariantViolation));
}

#[test]
fn splits_deck_wants_every_card_once() {
    assert!(splits_deck(&deal_by_suit()));
    assert!(splits_deck(&deal_round_robin()));
    assert!(splits_deck(&[0xFFFF_FFFF_FFFF]));
    assert!(splits_deck(&[0xFFFF_FFFF_FFFE, 0, 1]));
    assert!(!splits_deck(&[0xFFFF_FFFF_FFFF, 1]));
    assert!(!splits_deck(&[0xFFFF_FFFF_FFFE]));
    assert!(!splits_deck(&[0xFFFF_FFFF_FFFF, 1u64 << 48]));
    assert!(!splits_deck(&[]));
}

#[test]
fn first_card_is_the_lowest() {
    assert_eq!(first_card(0), None);
    assert_eq!(first_card(1), Some(0));
    assert_eq!(first_card(0b1010_0000), Some(5));
    assert_eq!(first_card(1u64 << 47), Some(47));
    assert_eq!(first_card(1u64 << 63), Some(63));
}

#[test]
fn bids_must_rise() {
    let mut game = GameState::deal(deal_round_robin()).unwrap();
    assert_eq!(game.raise_bid(0), Err(GameError::IllegalMove));
    assert_eq!(game.raise_bid(20), Ok(()));
    assert_eq!(game.current_bid, 20);
    assert_eq!(game.winning_bidder, 0);
    assert_eq!(game.turn, 1);
    let before = game;
    assert_eq!(game.raise_bid(20), Err(GameError::IllegalMove));
    assert_eq!(game.raise_bid(19), Err(GameError::IllegalMove));
    assert_eq!(game, before);
    assert_eq!(game.raise_bid(21), Ok(()));
    assert_eq!(game.current_bid, 21);
    assert_eq!(game.winning_bidder, 1);
    assert_eq!(game.turn, 2);
}

#[test]
fn the_last_bidder_standing_wins() {
    let mut game = GameState::deal(deal_round_robin()).unwrap();
    assert_eq!(game.raise_bid(20), Ok(())); // player 0
    assert_eq!(game.pass_bid(), Ok(())); // player 1
    assert_eq!(game.raise_bid(25), Ok(())); // player 2
    assert_eq!(game.turn, 3);
    assert_eq!(game.pass_bid(), Ok(())); // player 3
    // player 1 has passed and is skipped
    assert_eq!(game.turn, 0);
    assert_eq!(game.choose_trump(Suit::Hearts), Err(GameError::InvalidPhaseTransition));
    assert_eq!(game.pass_bid(), Ok(())); // player 0
    assert_eq!(game.passed, [true, true, false, true]);
    assert_eq!(game.count_passed(), 3);
    assert_eq!(game.turn, 2);
    assert_eq!(game.winning_bidder, 2);
    assert_eq!(game.current_bid, 25);
    assert_eq!(game.phase, GamePhase::Bidding);
    // the bid is locked
    assert_eq!(game.raise_bid(30), Err(GameError::InvalidPhaseTransition));
    assert_eq!(game.pass_bid(), Err(GameError::InvalidPhaseTransition));
    assert_eq!(game.current_bid, 25);
    assert_eq!(game.choose_trump(Suit::Hearts), Ok(()));
    assert_eq!(game.trump, Some(Suit::Hearts));
    assert_eq!(game.phase, GamePhase::Meld);
    assert_eq!(game.choose_trump(Suit::Clubs), Err(GameError::InvalidPhaseTransition));
    assert_eq!(game.trump, Some(Suit::Hearts));
}

#[test]
fn each_phase_refuses_the_moves_of_the_others() {
    let mut game = GameState::deal(deal_by_suit()).unwrap();
    assert_eq!(game.apply_move(0), Err(GameError::InvalidPhaseTransition));
    assert_eq!(game.score_meld(), Err(GameError::InvalidPhaseTransition));
    assert_eq!(game.legal_moves(), 0);
    game.pass_bid().unwrap();
    game.pass_bid().unwrap();
    game.pass_bid().unwrap();
    assert_eq!(game.apply_move(36), Err(GameError::InvalidPhaseTransition));
    game.choose_trump(Suit::Clubs).unwrap();
    assert_eq!(game.raise_bid(10), Err(GameError::InvalidPhaseTransition));
    assert_eq!(game.pass_bid(), Err(GameError::InvalidPhaseTransition));
    assert_eq!(game.apply_move(36), Err(GameError::InvalidPhaseTransition));
    game.score_meld().unwrap();
    assert_eq!(game.phase, GamePhase::Play);
    assert_eq!(game.raise_bid(10), Err(GameError::InvalidPhaseTransition));
    assert_eq!(game.pass_bid(), Err(GameError::InvalidPhaseTransition));
    assert_eq!(game.choose_trump(Suit::Clubs), Err(GameError::InvalidPhaseTransition));
    assert_eq!(game.score_meld(), Err(GameError::InvalidPhaseTransition));
}

#[test]
fn meld_goes_to_the_team() {
    let mut game = GameState::deal(deal_by_suit()).unwrap();
    game.raise_bid(10).unwrap();
    game.pass_bid().unwrap();
    game.pass_bid().unwrap();
    game.pass_bid().unwrap();
    assert_eq!(game.winning_bidder, 0);
    game.choose_trump(Suit::Hearts).unwrap();
    game.score_meld().unwrap();
    // two marriages each: spades 4 and diamonds 4; hearts, trump, 8 and clubs 4
    assert_eq!(game.meld, [8, 12]);
    assert_eq!(game.scores, [8, 12]);
    assert_eq!(game.get_score(0), 8);
    assert_eq!(game.get_score(1), 12);
    assert_eq!(game.phase, GamePhase::Play);
    assert_eq!(game.lead_player, 0);
    assert_eq!(game.turn, 0);
    assert_eq!(game.hands, deal_by_suit());
}

#[test]
fn a_player_who_can_follow_suit_must() {
    let mut game = in_play(deal_round_robin(), Suit::Clubs);
    assert_eq!(game.turn, 3);
    assert_eq!(game.scores, [0, 0]);
    // player 3 leads the ace of spades
    assert_eq!(game.apply_move(11), Ok(()));
    assert_eq!(game.turn, 0);
    assert_eq!(game.table_cards(), vec![11]);
    let before = game;
    // player 0 holds the nine, queen and ten of spades
    assert_eq!(game.legal_moves(), (1 << 0) | (1 << 4) | (1 << 8));
    assert_eq!(game.apply_move(12), Err(GameError::IllegalMove)); // nine of hearts
    assert_eq!(game.apply_move(36), Err(GameError::IllegalMove)); // nine of clubs, trump
    assert_eq!(game.apply_move(1), Err(GameError::IllegalMove)); // not in the hand
    assert_eq!(game.apply_move(11), Err(GameError::IllegalMove)); // on the table
    assert_eq!(game.apply_move(48), Err(GameError::InvalidIndex));
    assert_eq!(game.apply_move(u16::MAX), Err(GameError::InvalidIndex));
    assert_eq!(game, before);
    assert_eq!(game.apply_move(8), Ok(()));
    assert_eq!(game.hands[0], before.hands[0] & !(1 << 8));
    assert_eq!(game.current_trick, [Some(11), Some(8), None, None]);
    assert_eq!(game.cards_in_current_trick, 2);
    assert_eq!(game.turn, 1);
    assert_eq!(game.void_mask, 0);
    assert_eq!(cards_accounted_for(&game), 48);
}

#[test]
fn the_first_of_two_aces_takes_the_trick() {
    let mut game = in_play(deal_round_robin(), Suit::Clubs);
    game.apply_move(11).unwrap(); // player 3: ace of spades
    game.apply_move(8).unwrap(); // player 0: ten of spades
    game.apply_move(9).unwrap(); // player 1: ten of spades
    game.apply_move(10).unwrap(); // player 2: the other ace of spades
    assert_eq!(game.tricks_played, 1);
    assert_eq!(game.current_trick, [None, None, None, None]);
    assert_eq!(game.cards_in_current_trick, 0);
    assert_eq!(game.lead_player, 3);
    assert_eq!(game.turn, 3);
    assert_eq!(game.scores, [0, 11 + 10 + 10 + 11]);
    assert_eq!(game.taken, [0, (1 << 8) | (1 << 9) | (1 << 10) | (1 << 11)]);
    assert_eq!(game.phase, GamePhase::Play);
    assert_eq!(cards_accounted_for(&game), 48);
    assert!(game.is_well_formed());
}

#[test]
fn a_player_who_cannot_follow_is_marked_void() {
    let mut game = GameState::deal(deal_by_suit()).unwrap();
    game.raise_bid(10).unwrap();
    game.pass_bid().unwrap();
    game.pass_bid().unwrap();
    game.pass_bid().unwrap();
    game.choose_trump(Suit::Hearts).unwrap();
    game.score_meld().unwrap();
    // player 0 leads the ace of spades; nobody else holds a spade
    assert_eq!(game.apply_move(10), Ok(()));
    assert_eq!(game.legal_moves(), 0xFFF << 12);
    assert_eq!(game.apply_move(12), Ok(())); // nine of hearts, a trump
    assert_eq!(game.void_mask, 1 << 4);
    assert_eq!(game.apply_move(24), Ok(())); // nine of diamonds
    assert_eq!(game.void_mask, (1 << 4) | (1 << 8));
    assert_eq!(game.apply_move(36), Ok(())); // nine of clubs
    assert_eq!(game.void_mask, (1 << 4) | (1 << 8) | (1 << 12));
    // the trump takes the trick for team 1
    assert_eq!(game.lead_player, 1);
    assert_eq!(game.turn, 1);
    assert_eq!(game.scores, [8, 12 + 11]);
    assert_eq!(game.taken, [0, (1 << 10) | (1 << 12) | (1 << 24) | (1 << 36)]);
    // the marks stay
    assert_eq!(game.apply_move(13), Ok(()));
    assert_eq!(game.void_mask & ((1 << 4) | (1 << 8) | (1 << 12)), (1 << 4) | (1 << 8) | (1 << 12));
}

#[test]
fn a_deal_takes_forty_eight_plays_and_twelve_tricks() {
    for trump in Suit::ALL {
        let mut game = in_play(deal_round_robin(), trump);
        let meld = game.meld[0] + game.meld[1];
        let mut plays = 0;
        while !game.is_over() {
            assert_eq!(game.phase, GamePhase::Play);
            assert_eq!(game.tricks_played as u32, plays / 4);
            assert_eq!(game.cards_in_current_trick as u32, plays % 4);
            assert_eq!(cards_accounted_for(&game), 48);
            let legal = game.legal_moves();
            assert_ne!(legal, 0);
            // the highest card that may be played
            let card = 63 - legal.leading_zeros() as u16;
            assert_eq!(game.apply_move(card), Ok(()));
            assert!(game.is_well_formed());
            plays += 1;
        }
        assert_eq!(plays, 48);
        assert_eq!(game.phase, GamePhase::Complete);
        assert_eq!(game.tricks_played, 12);
        assert_eq!(game.hands, [0, 0, 0, 0]);
        assert_eq!(game.taken[0] | game.taken[1], 0xFFFF_FFFF_FFFF);
        assert_eq!(game.taken[0] & game.taken[1], 0);
        assert_eq!(cards_accounted_for(&game), 48);
        assert_eq!(game.scores[0] + game.scores[1], 240 + meld);
    }
}

#[test]
fn scores_add_up_to_the_cards_and_the_meld() {
    let mut game = GameState::deal(deal_by_suit()).unwrap();
    game.raise_bid(10).unwrap();
    game.pass_bid().unwrap();
    game.pass_bid().unwrap();
    game.pass_bid().unwrap();
    game.choose_trump(Suit::Spades).unwrap();
    game.score_meld().unwrap();
    assert_eq!(game.meld, [8 + 4, 4 + 4]);
    while !game.is_over() {
        let card = first_card(game.legal_moves()).unwrap();
        game.apply_move(card).unwrap();
    }
    // player 0 holds every trump and takes every trick
    assert_eq!(game.scores, [240 + 12, 8]);
    assert_eq!(game.scores[0] + game.scores[1], 240 + game.meld[0] + game.meld[1]);
    assert_eq!(game.taken, [0xFFFF_FFFF_FFFF, 0]);
    assert_eq!(game.tricks_played, 12);
}

#[test]
fn a_complete_deal_takes_no_more_moves() {
    let mut game = in_play(deal_by_suit(), Suit::Diamonds);
    while !game.is_over() {
        let card = first_card(game.legal_moves()).unwrap();
        game.apply_move(card).unwrap();
    }
    let end = game;
    assert_eq!(game.apply_move(0), Err(GameError::InvalidPhaseTransition));
    assert_eq!(game.raise_bid(100), Err(GameError::InvalidPhaseTransition));
    assert_eq!(game.pass_bid(), Err(GameError::InvalidPhaseTransition));
    assert_eq!(game.choose_trump(Suit::Spades), Err(GameError::InvalidPhaseTransition));
    assert_eq!(game.score_meld(), Err(GameError::InvalidPhaseTransition));
    assert_eq!(game.legal_moves(), 0);
    assert_eq!(game, end);
}

#[test]
fn a_card_in_two_places_stops_the_deal() {
    let mut game = in_play(deal_round_robin(), Suit::Clubs);
    game.apply_move(11).unwrap();
    // the card on the table is back in a hand
    let mut broken = game;
    broken.hands[3] |= 1 << 11;
    assert_eq!(broken.validate(), Err(GameError::InvariantViolation));
    assert_eq!(broken.apply_move(8), Err(GameError::InvariantViolation));
    // a card has gone missing
    let mut broken = game;
    broken.hands[1] &= !(1 << 9);
    assert_eq!(broken.apply_move(8), Err(GameError::InvariantViolation));
    // the score does not match the tricks taken
    let mut broken = game;
    broken.scores[0] += 1;
    assert_eq!(broken.apply_move(8), Err(GameError::InvariantViolation));
    // a mark of a void suit that is not true
    let mut broken = game;
    broken.void_mask = 1;
    assert_eq!(broken.apply_move(8), Err(GameError::InvariantViolation));
    // the turn is not the next player's
    let mut broken = game;
    broken.turn = 2;
    assert_eq!(broken.apply_move(10), Err(GameError::InvariantViolation));
    assert_eq!(game.apply_move(8), Ok(()));
}
