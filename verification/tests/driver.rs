use zysk_pinochle::agent::PinochleAgent;
use zysk_pinochle::cards::Suit;
use zysk_pinochle::error::GameError;
use zysk_pinochle::pinochle::driver::bid_proposed;
use zysk_pinochle::pinochle::driver::longest_suit;
use zysk_pinochle::pinochle::driver::play_proposed;
use zysk_pinochle::pinochle::driver::play_deal;
use zysk_pinochle::pinochle::driver::run_bidding;
use zysk_pinochle::pinochle::driver::run_match;
use zysk_pinochle::pinochle::driver::run_play;
use zysk_pinochle::pinochle::meld::compute_meld;
use zysk_pinochle::pinochle::GamePhase;
use zysk_pinochle::pinochle::GameState;

/// Never bids, and plays the lowest card of the hand, legal or not.
struct Meek;

impl PinochleAgent for Meek {
    fn choose_bid(&self, _hand: u64, _current_bid: u16) -> u16 {
        0
    }

    fn play_card(&self, hand: u64, _current_card: &[u16]) -> u16 {
        hand.trailing_zeros() as u16
    }
}

/// Raises by one up to a limit, and plays the highest card of the hand.
struct Bold(u16);

impl PinochleAgent for Bold {
    fn choose_bid(&self, _hand: u64, current_bid: u16) -> u16 {
        if current_bid < self.0 {
            current_bid + 1
        } else {
            0
        }
    }

    fn play_card(&self, hand: u64, _current_card: &[u16]) -> u16 {
        63 - hand.leading_zeros() as u16
    }
}

/// Answers with what is no card and no bid.
struct Broken;

impl PinochleAgent for Broken {
    fn choose_bid(&self, _hand: u64, current_bid: u16) -> u16 {
        current_bid
    }

    fn play_card(&self, _hand: u64, _current_card: &[u16]) -> u16 {
        999
    }
}

fn deal_by_suit() -> [u64; 4] {
    [0xFFF, 0xFFF << 12, 0xFFF << 24, 0xFFF << 36]
}

fn deal_round_robin() -> [u64; 4] {
    let mut hands = [0u64; 4];
    for i in 0..48 {
        hands[i % 4] |= 1u64 << i;
    }
    hands
}

#[test]
fn the_longest_suit_is_the_first_of_the_longest() {
    assert_eq!(longest_suit(0), Suit::Spades);
    assert_eq!(longest_suit(0xFFFF_FFFF_FFFF), Suit::Spades);
    assert_eq!(longest_suit(0xFFF << 36), Suit::Clubs);
    assert_eq!(longest_suit((0b11 << 12) | (0b111 << 24) | (0b111 << 36)), Suit::Diamonds);
    assert_eq!(longest_suit(1 | (0b11 << 12) | (0b1 << 24)), Suit::Hearts);
}

#[test]
fn when_nobody_bids_the_last_player_wins_the_bidding() {
    let end = play_deal(deal_by_suit(), &Meek, &Meek, &Meek, &Meek).unwrap();
    assert_eq!(end.winning_bidder, 3);
    assert_eq!(end.current_bid, 0);
    assert_eq!(end.trump, Some(Suit::Clubs));
    assert_eq!(end.meld, [4 + 4, 4 + 8]);
    // player 3 holds every trump and takes every trick
    assert_eq!(end.scores, [8, 12 + 240]);
    assert_eq!(end.phase, GamePhase::Complete);
    assert_eq!(end.tricks_played, 12);
    assert_eq!(run_match(deal_by_suit(), &Meek, &Meek, &Meek, &Meek), Ok(8));
}

#[test]
fn the_highest_bidder_names_the_trump() {
    let end = play_deal(deal_by_suit(), &Bold(30), &Meek, &Bold(40), &Meek).unwrap();
    assert_eq!(end.winning_bidder, 2);
    assert_eq!(end.current_bid, 30);
    assert_eq!(end.trump, Some(Suit::Diamonds));
    assert_eq!(end.meld, [4 + 8, 4 + 4]);
    assert_eq!(end.scores, [12 + 240, 8]);
    assert_eq!(run_match(deal_by_suit(), &Bold(30), &Meek, &Bold(40), &Meek), Ok(252));
}

#[test]
fn answers_that_make_no_sense_do_not_stop_the_deal() {
    let hands = deal_round_robin();
    let end = play_deal(hands, &Broken, &Broken, &Broken, &Broken).unwrap();
    assert_eq!(end.phase, GamePhase::Complete);
    assert_eq!(end.tricks_played, 12);
    assert_eq!(end.hands, [0, 0, 0, 0]);
    assert_eq!(end.winning_bidder, 3);
    let trump = end.trump;
    assert_eq!(trump, Some(longest_suit(hands[3])));
    assert_eq!(end.meld[0], (compute_meld(hands[0], trump) + compute_meld(hands[2], trump)) as i32);
    assert_eq!(end.meld[1], (compute_meld(hands[1], trump) + compute_meld(hands[3], trump)) as i32);
    assert_eq!(end.scores[0] + end.scores[1], 240 + end.meld[0] + end.meld[1]);
    assert!(end.is_well_formed());
}

#[test]
fn mixed_agents_finish_the_deal() {
    let hands = deal_round_robin();
    let end = play_deal(hands, &Bold(25), &Meek, &Broken, &Bold(27)).unwrap();
    assert_eq!(end.winning_bidder, 3);
    assert_eq!(end.current_bid, 26);
    assert_eq!(end.phase, GamePhase::Complete);
    assert_eq!(end.tricks_played, 12);
    assert_eq!(end.scores[0] + end.scores[1], 240 + end.meld[0] + end.meld[1]);
    let score = run_match(hands, &Bold(25), &Meek, &Broken, &Bold(27)).unwrap();
    assert_eq!(score, end.scores[0]);
    assert!(0 <= score && score <= 280);
}

#[test]
fn what_is_no_deal_is_not_played() {
    let mut hands = deal_by_suit();
    hands[2] |= 1 << 50;
    assert_eq!(run_match(hands, &Meek, &Meek, &Meek, &Meek), Err(GameError::InvalidIndex));
    assert_eq!(play_deal(hands, &Meek, &Meek, &Meek, &Meek), Err(GameError::InvalidIndex));
    let mut hands = deal_by_suit();
    hands[2] |= 1;
    assert_eq!(run_match(hands, &Meek, &Meek, &Meek, &Meek), Err(GameError::InvariantViolation));
    assert_eq!(
        run_match([0, 0, 0, 0], &Meek, &Meek, &Meek, &Meek),
        Err(GameError::InvariantViolation)
    );
}

#[test]
fn bidding_and_play_run_in_their_own_phase_only() {
    let mut game = GameState::new();
    assert_eq!(
        run_bidding(&mut game, &Meek, &Meek, &Meek, &Meek),
        Err(GameError::InvariantViolation)
    );
    assert_eq!(run_play(&mut game, &Meek, &Meek, &Meek, &Meek), Err(GameError::InvariantViolation));
    let mut game = GameState::deal(deal_round_robin()).unwrap();
    assert_eq!(
        run_play(&mut game, &Meek, &Meek, &Meek, &Meek),
        Err(GameError::InvalidPhaseTransition)
    );
    assert_eq!(run_bidding(&mut game, &Bold(22), &Bold(21), &Meek, &Meek), Ok(()));
    assert_eq!(game.current_bid, 21);
    assert_eq!(game.winning_bidder, 0);
    assert_eq!(game.turn, 0);
    assert_eq!(game.count_passed(), 3);
    assert_eq!(game.hands, deal_round_robin());
    // the bidding is closed: running it again changes nothing
    let closed = game;
    assert_eq!(run_bidding(&mut game, &Bold(50), &Bold(50), &Bold(50), &Bold(50)), Ok(()));
    assert_eq!(game, closed);
    game.choose_trump(Suit::Hearts).unwrap();
    assert_eq!(
        run_bidding(&mut game, &Meek, &Meek, &Meek, &Meek),
        Err(GameError::InvalidPhaseTransition)
    );
    game.score_meld().unwrap();
    assert_eq!(run_play(&mut game, &Meek, &Bold(0), &Broken, &Meek), Ok(()));
    assert!(game.is_over());
    assert_eq!(game.trump, Some(Suit::Hearts));
    assert_eq!(game.current_bid, 21);
    assert_eq!(
        run_play(&mut game, &Meek, &Meek, &Meek, &Meek),
        Err(GameError::InvalidPhaseTransition)
    );
}

#[test]
fn an_answer_that_does_not_raise_is_a_pass() {
    let mut game = GameState::deal(deal_round_robin()).unwrap();
    assert_eq!(bid_proposed(&mut game, 15), Ok(true));
    assert_eq!(game.current_bid, 15);
    assert_eq!(game.winning_bidder, 0);
    assert_eq!(game.passed, [false, false, false, false]);
    assert_eq!(bid_proposed(&mut game, 15), Ok(false));
    assert_eq!(game.current_bid, 15);
    assert_eq!(game.passed, [false, true, false, false]);
    assert_eq!(bid_proposed(&mut game, 0), Ok(false));
    assert_eq!(bid_proposed(&mut game, 14), Ok(false));
    assert_eq!(game.passed, [false, true, true, true]);
    assert_eq!(game.turn, 0);
    assert_eq!(game.winning_bidder, 0);
    // the bidding is closed
    let closed = game;
    assert_eq!(bid_proposed(&mut game, 50), Err(GameError::InvalidPhaseTransition));
    assert_eq!(bid_proposed(&mut game, 0), Err(GameError::InvalidPhaseTransition));
    assert_eq!(game, closed);
    let mut blank = GameState::new();
    assert_eq!(bid_proposed(&mut blank, 50), Err(GameError::InvariantViolation));
}

#[test]
fn a_card_that_may_not_be_played_gives_way_to_the_lowest_that_may() {
    let mut game = GameState::deal(deal_round_robin()).unwrap();
    assert_eq!(play_proposed(&mut game, 3), Err(GameError::InvalidPhaseTransition));
    game.pass_bid().unwrap();
    game.pass_bid().unwrap();
    game.pass_bid().unwrap();
    game.choose_trump(Suit::Clubs).unwrap();
    game.score_meld().unwrap();
    // player 3 leads: the king of hearts, as proposed
    assert_eq!(play_proposed(&mut game, 19), Ok(19));
    // player 0 proposes a spade but holds hearts: the lowest heart
    assert_eq!(play_proposed(&mut game, 0), Ok(12));
    // player 1 proposes what is no card
    assert_eq!(play_proposed(&mut game, 4000), Ok(13));
    // player 2 proposes a card of player 1
    assert_eq!(play_proposed(&mut game, 17), Ok(14));
    assert_eq!(game.tricks_played, 1);
    assert_eq!(game.taken, [0, (1 << 19) | (1 << 12) | (1 << 13) | (1 << 14)]);
    // the king counts 4 and the jack 2
    assert_eq!(game.scores, [0, 4 + 2]);
    assert_eq!(game.turn, 3);
    let mut blank = GameState::new();
    assert_eq!(play_proposed(&mut blank, 0), Err(GameError::InvariantViolation));
}
