use jokeripokeri::{Card, Hand};

#[test]
fn straight() {
    let mut hand = Hand::new();
    let uni_spade = char::from_u32(0x2660).unwrap();
    let uni_hearts = char::from_u32(0x2661).unwrap();
    let _uni_diamond = char::from_u32(0x2662).unwrap();
    let uni_clubs = char::from_u32(0x2663).unwrap();

    hand.cards[0] = Some(Card::new(2, uni_spade));
    hand.cards[1] = Some(Card::new(3, uni_hearts));
    hand.cards[2] = Some(Card::new(4, uni_clubs));
    hand.cards[3] = Some(Card::new(5, uni_clubs));
    hand.cards[4] = Some(Card::new(6, uni_clubs));

    assert_eq!(hand.is_straight(), true);

    hand.cards[0] = Some(Card::new(10, uni_spade));

    assert_eq!(hand.is_straight(), false);
}

#[test]
fn flush() {
    let mut hand = Hand::new();
    let uni_spade = char::from_u32(0x2660).unwrap();
    let uni_hearts = char::from_u32(0x2661).unwrap();
    let _uni_diamond = char::from_u32(0x2662).unwrap();
    let _uni_clubs = char::from_u32(0x2663).unwrap();

    hand.cards[0] = Some(Card::new(10, uni_spade));
    hand.cards[1] = Some(Card::new(6, uni_spade));
    hand.cards[2] = Some(Card::new(4, uni_spade));
    hand.cards[3] = Some(Card::new(13, uni_spade));
    hand.cards[4] = Some(Card::new(6, uni_spade));

    assert_eq!(hand.is_flush(), true);

    hand.cards[0] = Some(Card::new(10, uni_spade));
    hand.cards[1] = Some(Card::new(6, uni_spade));
    hand.cards[2] = Some(Card::new(4, uni_hearts));
    hand.cards[3] = Some(Card::new(13, uni_spade));
    hand.cards[4] = Some(Card::new(6, uni_spade));

    assert_eq!(hand.is_flush(), false);
}

#[test]
fn straight_flush() {
    let mut hand = Hand::new();
    let uni_spade = char::from_u32(0x2660).unwrap();
    let uni_hearts = char::from_u32(0x2661).unwrap();
    let _uni_diamond = char::from_u32(0x2662).unwrap();
    let _uni_clubs = char::from_u32(0x2663).unwrap();

    hand.cards[0] = Some(Card::new(2, uni_spade));
    hand.cards[1] = Some(Card::new(3, uni_spade));
    hand.cards[2] = Some(Card::new(4, uni_spade));
    hand.cards[3] = Some(Card::new(5, uni_spade));
    hand.cards[4] = Some(Card::new(6, uni_spade));

    assert_eq!(hand.is_straight_flush(), true);

    hand.cards[0] = Some(Card::new(2, uni_spade));
    hand.cards[1] = Some(Card::new(3, uni_spade));
    hand.cards[2] = Some(Card::new(4, uni_hearts));
    hand.cards[3] = Some(Card::new(5, uni_spade));
    hand.cards[4] = Some(Card::new(6, uni_spade));

    assert_eq!(hand.is_straight_flush(), false);

    hand.cards[0] = Some(Card::new(2, uni_spade));
    hand.cards[1] = Some(Card::new(3, uni_spade));
    hand.cards[2] = Some(Card::new(10, uni_spade));
    hand.cards[3] = Some(Card::new(5, uni_spade));
    hand.cards[4] = Some(Card::new(6, uni_spade));

    assert_eq!(hand.is_straight_flush(), false);
}

#[test]
fn four_of_a_kind() {
    let mut hand = Hand::new();
    let uni_spade = char::from_u32(0x2660).unwrap();
    let uni_hearts = char::from_u32(0x2661).unwrap();
    let uni_diamond = char::from_u32(0x2662).unwrap();
    let uni_clubs = char::from_u32(0x2663).unwrap();

    hand.cards[0] = Some(Card::new(2, uni_spade));
    hand.cards[1] = Some(Card::new(2, uni_hearts));
    hand.cards[2] = Some(Card::new(2, uni_clubs));
    hand.cards[3] = Some(Card::new(2, uni_diamond));
    hand.cards[4] = Some(Card::new(6, uni_spade));

    assert_eq!(hand.is_four_of_a_kind(), true);

    hand.cards[2] = Some(Card::new(5, uni_clubs));

    assert_eq!(hand.is_four_of_a_kind(), false);
}

#[test]
fn three_of_a_kind() {
    let mut hand = Hand::new();
    let uni_spade = char::from_u32(0x2660).unwrap();
    let uni_hearts = char::from_u32(0x2661).unwrap();
    let uni_diamond = char::from_u32(0x2662).unwrap();
    let uni_clubs = char::from_u32(0x2663).unwrap();

    hand.cards[0] = Some(Card::new(2, uni_spade));
    hand.cards[1] = Some(Card::new(2, uni_hearts));
    hand.cards[2] = Some(Card::new(2, uni_clubs));
    hand.cards[3] = Some(Card::new(12, uni_diamond));
    hand.cards[4] = Some(Card::new(6, uni_spade));

    assert_eq!(hand.is_three_of_a_kind(), true);

    hand.cards[2] = Some(Card::new(5, uni_clubs));

    assert_eq!(hand.is_three_of_a_kind(), false);
}

#[test]
fn full_house() {
    let mut hand = Hand::new();
    let uni_spade = char::from_u32(0x2660).unwrap();
    let uni_hearts = char::from_u32(0x2661).unwrap();
    let uni_diamond = char::from_u32(0x2662).unwrap();
    let uni_clubs = char::from_u32(0x2663).unwrap();

    hand.cards[0] = Some(Card::new(2, uni_spade));
    hand.cards[1] = Some(Card::new(2, uni_hearts));
    hand.cards[2] = Some(Card::new(2, uni_clubs));
    hand.cards[3] = Some(Card::new(4, uni_diamond));
    hand.cards[4] = Some(Card::new(4, uni_spade));

    assert_eq!(hand.is_full_house(), true);

    hand.cards[4] = Some(Card::new(5, uni_clubs));

    assert_eq!(hand.is_full_house(), false);
}

#[test]
fn two_pairs() {
    let mut hand = Hand::new();
    let uni_spade = char::from_u32(0x2660).unwrap();
    let uni_hearts = char::from_u32(0x2661).unwrap();
    let uni_diamond = char::from_u32(0x2662).unwrap();
    let uni_clubs = char::from_u32(0x2663).unwrap();

    hand.cards[0] = Some(Card::new(2, uni_spade));
    hand.cards[1] = Some(Card::new(2, uni_hearts));
    hand.cards[2] = Some(Card::new(4, uni_clubs));
    hand.cards[3] = Some(Card::new(4, uni_diamond));
    hand.cards[4] = Some(Card::new(6, uni_spade));

    assert_eq!(hand.is_two_pairs(), true);

    hand.cards[0] = Some(Card::new(7, uni_clubs));

    assert_eq!(hand.is_two_pairs(), false);
}
