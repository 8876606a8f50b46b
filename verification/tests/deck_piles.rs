use jokeripokeri::card::{suit_symbol, CLUBS, DIAMONDS, HEARTS, SPADES};
use jokeripokeri::ranks::insert_ascending;
use jokeripokeri::{Card, Deck};

fn canonical() -> Vec<(u8, char)> {
    let mut cards = Vec::new();
    for value in 1..=13u8 {
        for suit in [SPADES, HEARTS, DIAMONDS, CLUBS] {
            cards.push((value, suit));
        }
    }
    cards
}

fn faces(cards: &Vec<Card>) -> Vec<(u8, char)> {
    cards.iter().map(|card| (card.value, card.suit)).collect()
}

#[test]
fn the_suits_come_in_canonical_order() {
    assert_eq!(suit_symbol(0), char::from_u32(0x2660).unwrap());
    assert_eq!(suit_symbol(1), char::from_u32(0x2661).unwrap());
    assert_eq!(suit_symbol(2), char::from_u32(0x2662).unwrap());
    assert_eq!(suit_symbol(3), char::from_u32(0x2663).unwrap());
}

#[test]
fn a_new_deck_holds_each_card_once() {
    let deck = Deck::new();
    assert_eq!(deck.cards.len(), 52);
    let mut found = faces(&deck.cards);
    found.sort();
    let mut expected = canonical();
    expected.sort();
    assert_eq!(found, expected);
}

#[test]
fn a_new_deck_is_shuffled() {
    // one deck in canonical order could be chance; three are not
    let unshuffled = (0..3).all(|_| faces(&Deck::new().cards) == canonical());
    assert!(!unshuffled);
}

#[test]
fn fill_deck_appends_the_canonical_order() {
    let mut deck = Deck::new();
    let shuffled = faces(&deck.cards);
    deck.fill_deck();
    assert_eq!(deck.cards.len(), 104);
    assert_eq!(faces(&deck.cards)[..52].to_vec(), shuffled);
    assert_eq!(faces(&deck.cards)[52..].to_vec(), canonical());
    assert_eq!(deck.cards[52], Card::new(1, SPADES));
    assert_eq!(deck.cards[57], Card::new(2, HEARTS));
    assert_eq!(deck.cards[103], Card::new(13, CLUBS));
}

#[test]
fn shuffle_keeps_the_cards_of_a_deck_that_is_not_full() {
    let mut deck = Deck::new();
    for _ in 0..40 {
        deck.draw_top();
    }
    let mut before = faces(&deck.cards);
    deck.shuffle_deck();
    let mut after = faces(&deck.cards);
    assert_eq!(after.len(), 12);
    before.sort();
    after.sort();
    assert_eq!(before, after);
}

#[test]
fn draw_top_takes_the_first_card() {
    let mut deck = Deck::new();
    let before = faces(&deck.cards);
    let card = deck.draw_top();
    assert_eq!((card.value, card.suit), before[0]);
    assert_eq!(faces(&deck.cards), before[1..].to_vec());
}

#[test]
fn shuffles_spread_a_card_over_all_positions() {
    // The first card of the canonical order should land in each of the 52
    // positions about once in 52 shuffles: 100 times in 5200.
    let mut counts = [0u32; 52];
    let mut deck = Deck::new();
    for _ in 0..5200 {
        deck.shuffle_deck();
        let position = deck
            .cards
            .iter()
            .position(|card| card.value == 1 && card.suit == SPADES)
            .unwrap();
        counts[position] += 1;
    }
    assert_eq!(counts.iter().sum::<u32>(), 5200);
    for count in counts {
        assert!(count > 40 && count < 180, "a position was hit {} times", count);
    }
    let mean = 100.0f64;
    let chi_square: f64 = counts
        .iter()
        .map(|&count| (count as f64 - mean) * (count as f64 - mean) / mean)
        .sum();
    // 51 degrees of freedom: the value stays below 120 but for one shuffle
    // series in millions
    assert!(chi_square < 120.0, "chi-square {}", chi_square);
}

#[test]
fn insert_ascending_keeps_the_order() {
    let mut sorted: Vec<u8> = Vec::new();
    for value in [9u8, 3, 12, 3, 1, 13] {
        insert_ascending(&mut sorted, value);
    }
    assert_eq!(sorted, vec![1, 3, 3, 9, 12, 13]);
}
