use jokeripokeri::JokeriPokeri;

#[test]
fn deal() {
    let mut game = JokeriPokeri::new();
    // hand must be empty before deal
    for option_card in &game.hand.cards {
        match option_card {
            Some(..) => {
                panic!("Cards in hand before deal");
            }
            None => {}
        }
    }
    // has_nones
    assert_eq!(game.hand.has_nones(), true);

    let deck_len_before_deal = game.deck.cards.len();
    // deal
    game.deal();
    assert_eq!(game.hand.has_nones(), false);

    let deck_len_after_deal = game.deck.cards.len();
    assert_eq!(deck_len_before_deal - deck_len_after_deal, game.hand.cards.len());
    assert_eq!(game.discarded.len(), 0);

    game.selected[2] = true;
    game.selected[3] = true;

    game.deal();
    // discarding from hand
    assert_eq!(game.discarded.len(), game.hand.cards.len() - 2);
    let deck_len_after_hand_selection_deal = game.deck.cards.len();
    assert_eq!(
        deck_len_after_deal - deck_len_after_hand_selection_deal,
        game.hand.cards.len() - 2
    );
}

#[test]
fn reset_deck_and_hand() {
    let mut game = JokeriPokeri::new();
    let deck_size_before_deal = game.deck.cards.len();
    game.deal();
    game.selected[1] = true;
    game.selected[2] = true;
    game.deal();
    game.reset_deck_and_hand();
    assert_eq!(deck_size_before_deal, game.deck.cards.len());
    assert_eq!(game.discarded.len(), 0);
}
