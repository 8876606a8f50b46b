use jokeripokeri::card::{CLUBS, DIAMONDS, HEARTS, SPADES};
use jokeripokeri::prize::payout;
use jokeripokeri::{Card, Hand, HandError, Prize};

fn hand_of(cards: [(u8, char); 5]) -> Hand {
    let mut hand = Hand::new();
    for (slot, (value, suit)) in cards.into_iter().enumerate() {
        hand.cards[slot] = Some(Card::new(value, suit));
    }
    hand
}

#[test]
fn straight_flush_pays_forty_times_the_bet() {
    let hand = hand_of([(2, SPADES), (3, SPADES), (4, SPADES), (5, SPADES), (6, SPADES)]);
    assert_eq!(hand.classify(), Ok(Some(Prize::StraightFlush)));
    assert_eq!(payout(hand.classify().unwrap(), 20), 800);
    assert_eq!(payout(hand.classify().unwrap(), 100), 4000);
}

#[test]
fn four_of_a_kind_pays_fifteen_times_the_bet() {
    let hand = hand_of([(2, SPADES), (2, HEARTS), (2, CLUBS), (2, DIAMONDS), (6, SPADES)]);
    assert_eq!(hand.classify(), Ok(Some(Prize::FourOfAKind)));
    assert_eq!(payout(hand.classify().unwrap(), 20), 300);
}

#[test]
fn full_house_pays_seven_times_the_bet() {
    let hand = hand_of([(2, SPADES), (2, HEARTS), (2, CLUBS), (4, DIAMONDS), (4, SPADES)]);
    assert_eq!(hand.classify(), Ok(Some(Prize::FullHouse)));
    assert_eq!(payout(hand.classify().unwrap(), 40), 280);
}

#[test]
fn flush_pays_four_times_the_bet() {
    let hand = hand_of([(10, SPADES), (6, SPADES), (4, SPADES), (13, SPADES), (9, SPADES)]);
    assert_eq!(hand.classify(), Ok(Some(Prize::Flush)));
    assert_eq!(payout(hand.classify().unwrap(), 60), 240);
}

#[test]
fn straight_pays_three_times_the_bet() {
    let hand = hand_of([(9, SPADES), (7, HEARTS), (8, CLUBS), (6, DIAMONDS), (5, SPADES)]);
    assert_eq!(hand.classify(), Ok(Some(Prize::Straight)));
    assert_eq!(payout(hand.classify().unwrap(), 80), 240);
}

#[test]
fn three_of_a_kind_pays_twice_the_bet() {
    let hand = hand_of([(2, SPADES), (2, HEARTS), (2, CLUBS), (12, DIAMONDS), (6, SPADES)]);
    assert_eq!(hand.classify(), Ok(Some(Prize::ThreeOfAKind)));
    assert_eq!(payout(hand.classify().unwrap(), 100), 200);
}

#[test]
fn two_pairs_pay_twice_the_bet() {
    let hand = hand_of([(2, SPADES), (2, HEARTS), (4, CLUBS), (4, DIAMONDS), (6, SPADES)]);
    assert_eq!(hand.classify(), Ok(Some(Prize::TwoPairs)));
    assert_eq!(payout(hand.classify().unwrap(), 20), 40);
}

#[test]
fn no_win_pays_nothing() {
    let hand = hand_of([(2, SPADES), (2, HEARTS), (4, CLUBS), (9, DIAMONDS), (6, SPADES)]);
    assert_eq!(hand.classify(), Ok(None));
    assert_eq!(payout(None, 100), 0);
}

#[test]
fn flush_and_straight_together_are_a_straight_flush() {
    let hand = hand_of([(13, HEARTS), (11, HEARTS), (12, HEARTS), (9, HEARTS), (10, HEARTS)]);
    assert!(hand.is_flush());
    assert!(hand.is_straight());
    assert_eq!(hand.classify(), Ok(Some(Prize::StraightFlush)));
}

#[test]
fn four_of_a_kind_is_never_a_full_house() {
    let hand = hand_of([(7, SPADES), (7, HEARTS), (3, CLUBS), (7, DIAMONDS), (7, CLUBS)]);
    // the full house's conditions hold of it too
    assert!(hand.is_three_of_a_kind());
    assert!(hand.is_full_house());
    assert!(!hand.is_straight());
    assert_eq!(hand.classify(), Ok(Some(Prize::FourOfAKind)));
}

#[test]
fn full_house_outranks_three_of_a_kind_and_two_pairs() {
    let hand = hand_of([(5, SPADES), (9, HEARTS), (5, CLUBS), (9, DIAMONDS), (9, CLUBS)]);
    assert!(hand.is_three_of_a_kind());
    assert!(hand.is_two_pairs());
    assert_eq!(hand.classify(), Ok(Some(Prize::FullHouse)));
}

#[test]
fn the_highest_rank_is_not_adjacent_to_the_lowest() {
    let hand = hand_of([(10, SPADES), (11, HEARTS), (12, CLUBS), (13, DIAMONDS), (1, SPADES)]);
    assert!(!hand.is_straight());
    assert_eq!(hand.classify(), Ok(None));
    let low = hand_of([(1, SPADES), (2, HEARTS), (3, CLUBS), (4, DIAMONDS), (5, SPADES)]);
    assert!(low.is_straight());
    let high = hand_of([(13, SPADES), (9, HEARTS), (11, CLUBS), (12, DIAMONDS), (10, SPADES)]);
    assert!(high.is_straight());
}

#[test]
fn a_pair_is_no_straight_and_no_two_pairs() {
    let hand = hand_of([(3, SPADES), (4, HEARTS), (4, CLUBS), (5, DIAMONDS), (6, SPADES)]);
    assert!(!hand.is_straight());
    assert!(!hand.is_two_pairs());
    assert!(!hand.is_three_of_a_kind());
    assert_eq!(hand.classify(), Ok(None));
}

#[test]
fn three_of_a_kind_alone_is_not_two_pairs() {
    let hand = hand_of([(8, SPADES), (8, HEARTS), (8, CLUBS), (5, DIAMONDS), (6, SPADES)]);
    assert!(!hand.is_two_pairs());
    assert!(!hand.is_full_house());
}

#[test]
fn pairs_are_found_in_any_slots() {
    let hand = hand_of([(4, SPADES), (9, HEARTS), (4, CLUBS), (6, DIAMONDS), (9, SPADES)]);
    assert!(hand.is_two_pairs());
    let hand = hand_of([(6, SPADES), (9, HEARTS), (4, CLUBS), (4, DIAMONDS), (9, SPADES)]);
    assert!(hand.is_two_pairs());
}

#[test]
fn a_pair_of_rank_zero_counts_as_a_pair() {
    let hand = hand_of([(0, SPADES), (0, HEARTS), (5, CLUBS), (5, DIAMONDS), (7, SPADES)]);
    assert!(hand.is_two_pairs());
}

#[test]
fn an_incomplete_hand_has_no_classification() {
    let mut hand = hand_of([(2, SPADES), (3, SPADES), (4, SPADES), (5, SPADES), (6, SPADES)]);
    hand.cards[3] = None;
    assert!(hand.has_nones());
    assert_eq!(hand.classify(), Err(HandError::Incomplete));
    assert!(!hand.is_straight_flush());
    assert!(!hand.is_straight());
    assert!(!hand.is_flush());
    assert!(!hand.is_four_of_a_kind());
    assert!(!hand.is_full_house());
    assert!(!hand.is_three_of_a_kind());
    assert!(!hand.is_two_pairs());
    assert_eq!(Hand::new().classify(), Err(HandError::Incomplete));
}

#[test]
fn a_new_hand_is_empty() {
    let hand = Hand::new();
    assert!(hand.has_nones());
    assert!(hand.cards.iter().all(|slot| slot.is_none()));
}

#[test]
fn the_paytable_is_fixed() {
    assert_eq!(Prize::StraightFlush.multiplier(), 40);
    assert_eq!(Prize::FourOfAKind.multiplier(), 15);
    assert_eq!(Prize::FullHouse.multiplier(), 7);
    assert_eq!(Prize::Flush.multiplier(), 4);
    assert_eq!(Prize::Straight.multiplier(), 3);
    assert_eq!(Prize::ThreeOfAKind.multiplier(), 2);
    assert_eq!(Prize::TwoPairs.multiplier(), 2);
}

#[test]
fn the_categories_have_their_names() {
    assert_eq!(Prize::StraightFlush.as_str(), "Straight flush");
    assert_eq!(Prize::FourOfAKind.as_str(), "Four-of-a-kind");
    assert_eq!(Prize::FullHouse.as_str(), "Full house");
    assert_eq!(Prize::Flush.as_str(), "Flush");
    assert_eq!(Prize::Straight.as_str(), "Straight");
    assert_eq!(Prize::ThreeOfAKind.as_str(), "Three-of-a-kind");
    assert_eq!(Prize::TwoPairs.as_str(), "Two pairs");
}

#[test]
fn cards_are_equal_by_rank_and_suit() {
    assert_eq!(Card::new(7, HEARTS), Card::new(7, HEARTS));
    assert_ne!(Card::new(7, HEARTS), Card::new(7, SPADES));
    assert_ne!(Card::new(7, HEARTS), Card::new(8, HEARTS));
    let card = Card::new(13, CLUBS);
    assert_eq!(card.value, 13);
    assert_eq!(card.suit, '\u{2663}');
}
