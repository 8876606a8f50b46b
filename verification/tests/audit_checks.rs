use jokeripokeri::audit::standard_position;
use jokeripokeri::card::{CLUBS, DIAMONDS, HEARTS, SPADES};
use jokeripokeri::input::{asks_to_quit, names_quit};
use jokeripokeri::{Card, GameState, Hand, Intent, JokeriPokeri};

#[test]
fn each_card_has_its_position_in_the_canonical_order() {
    assert_eq!(standard_position(&Card::new(1, SPADES)), Some(0));
    assert_eq!(standard_position(&Card::new(1, HEARTS)), Some(1));
    assert_eq!(standard_position(&Card::new(1, DIAMONDS)), Some(2));
    assert_eq!(standard_position(&Card::new(1, CLUBS)), Some(3));
    assert_eq!(standard_position(&Card::new(2, SPADES)), Some(4));
    assert_eq!(standard_position(&Card::new(13, CLUBS)), Some(51));
    assert_eq!(standard_position(&Card::new(0, SPADES)), None);
    assert_eq!(standard_position(&Card::new(14, SPADES)), None);
    assert_eq!(standard_position(&Card::new(255, CLUBS)), None);
    assert_eq!(standard_position(&Card::new(5, 'J')), None);
    // the filled suit symbols are none of the four
    assert_eq!(standard_position(&Card::new(5, '\u{2665}')), None);
    let mut seen = [false; 52];
    for value in 1..=13u8 {
        for suit in [SPADES, HEARTS, DIAMONDS, CLUBS] {
            let position = standard_position(&Card::new(value, suit)).unwrap();
            assert!(!seen[position]);
            seen[position] = true;
        }
    }
    assert!(seen.iter().all(|&met| met));
}

#[test]
fn the_identity_set_is_looked_for_in_all_three_piles() {
    let mut game = JokeriPokeri::new();
    assert!(game.holds_identity_set());
    game.deal();
    assert!(game.holds_identity_set());
    game.selected[1] = true;
    game.deal();
    assert_eq!(game.discarded.len(), 4);
    assert!(game.holds_identity_set());
    // a card of the hand comes again in the discard pile
    let held = game.hand.cards[1].take().unwrap();
    let twin = Card::new(held.value, held.suit);
    game.hand.cards[1] = Some(held);
    let first = std::mem::replace(&mut game.discarded[0], twin);
    assert!(!game.holds_identity_set());
    game.discarded[0] = first;
    assert!(game.holds_identity_set());
    // a card of the hand is missing
    let card = game.hand.cards[4].take().unwrap();
    assert!(!game.holds_identity_set());
    // and is back in another pile
    game.deck.cards.push(card);
    assert!(game.holds_identity_set());
    // one card too many
    game.discarded.push(Card::new(9, HEARTS));
    assert!(!game.holds_identity_set());
}

#[test]
fn a_valid_game_need_not_be_coherent() {
    let mut game = JokeriPokeri::new();
    game.deal();
    assert!(game.is_well_formed());
    assert!(!game.is_coherent());
    game.bet_amount = 101;
    assert!(!game.is_well_formed());
    game.bet_amount = 100;
    game.selector = 4;
    assert!(game.is_well_formed());
}

#[test]
fn the_sums_of_a_request_are_checked_against_the_integers() {
    let mut game = JokeriPokeri::new();
    game.funds = u32::MAX;
    game.round = u32::MAX;
    // only the draw and the next round add anything
    assert!(game.is_within_limits(Intent::Confirm));
    game.state = GameState::HandSelection;
    assert!(game.is_within_limits(Intent::ToggleHold));
    assert!(game.is_within_limits(Intent::Quit));
    assert!(!game.is_within_limits(Intent::Confirm));
    game.funds = u32::MAX - 800;
    assert!(game.is_within_limits(Intent::Confirm));
    game.funds = u32::MAX - 799;
    assert!(!game.is_within_limits(Intent::Confirm));
    game.bet_amount = u32::MAX;
    game.funds = 0;
    assert!(!game.is_within_limits(Intent::Confirm));
    game.state = GameState::PayOut;
    assert!(game.is_within_limits(Intent::Confirm));
    game.funds = 20;
    assert!(!game.is_within_limits(Intent::Confirm));
    game.round = u32::MAX - 1;
    assert!(game.is_within_limits(Intent::Confirm));
    game.state = GameState::GameOver;
    game.round = u32::MAX;
    assert!(game.is_within_limits(Intent::Confirm));
    assert!(game.is_within_limits(Intent::NewGame));
}

#[test]
fn a_hand_is_vacant_without_any_card() {
    let mut hand = Hand::new();
    assert!(hand.is_vacant());
    hand.cards[4] = Some(Card::new(3, CLUBS));
    assert!(!hand.is_vacant());
    assert!(hand.has_nones());
}

#[test]
fn quit_words_are_told_from_other_words() {
    assert!(names_quit(&"quit".to_string()));
    assert!(names_quit(&"exit".to_string()));
    assert!(!names_quit(&"QUIT".to_string()));
    assert!(!names_quit(&"quit!".to_string()));
    assert!(!names_quit(&"".to_string()));
    assert!(asks_to_quit(&"QuIt".to_string()));
    assert!(asks_to_quit(&"EXIT".to_string()));
    assert!(!asks_to_quit(&"exit now".to_string()));
}
