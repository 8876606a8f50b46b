//! Cards and the fifty-two card identity set.

use vstd::prelude::*;

verus! {

/// The black spade suit symbol.
pub const SPADES: char = '\u{2660}';

/// The white heart suit symbol.
pub const HEARTS: char = '\u{2661}';

/// The white diamond suit symbol.
pub const DIAMONDS: char = '\u{2662}';

/// The black club suit symbol.
pub const CLUBS: char = '\u{2663}';

/// The lowest rank of the identity set.
pub const MIN_RANK: u8 = 1;

/// The highest rank of the identity set.
pub const MAX_RANK: u8 = 13;

/// The number of cards of the identity set.
pub const DECK_SIZE: usize = 52;

/// A playing card: a rank and a suit symbol.
///
/// Two cards are equal exactly when rank and suit are both equal. A card is
/// neither `Clone` nor `Copy`: it moves between the deck, the hand and the
/// discard pile, and is owned by one of them at a time.
#[derive(PartialEq, Eq, Structural, Debug)]
pub struct Card {
    pub value: u8,
    pub suit: char,
}

/// The suit with the given index in the canonical suit order.
pub open spec fn suit_at(index: int) -> char {
    if index == 0 {
        SPADES
    } else if index == 1 {
        HEARTS
    } else if index == 2 {
        DIAMONDS
    } else {
        CLUBS
    }
}

/// Whether `suit` is one of the four suit symbols.
pub open spec fn is_suit(suit: char) -> bool {
    suit == SPADES || suit == HEARTS || suit == DIAMONDS || suit == CLUBS
}

/// The card at position `index` of the canonical order: rank-major,
/// suit-minor, starting at the lowest rank.
pub open spec fn standard_card(index: int) -> Card {
    Card { value: (index / 4 + 1) as u8, suit: suit_at(index % 4) }
}

/// The identity set in canonical order: thirteen ranks times four suits.
pub open spec fn standard_deck() -> Seq<Card> {
    Seq::new(DECK_SIZE as nat, |index: int| standard_card(index))
}

impl Card {
    /// Whether the card belongs to the identity set: a rank from 1 to 13
    /// and one of the four suit symbols.
    pub open spec fn is_standard(self) -> bool {
        MIN_RANK <= self.value <= MAX_RANK && is_suit(self.suit)
    }

    /// Makes the card with the given rank and suit.
    pub fn new(value: u8, suit: char) -> (card: Card)
        ensures
            card == (Card { value: value, suit: suit }),
    {
        Card { value: value, suit: suit }
    }
}

/// The suit symbol with the given index in the canonical suit order.
pub fn suit_symbol(index: u8) -> (suit: char)
    requires
        index < 4,
    ensures
        suit == suit_at(index as int),
{
    if index == 0 {
        SPADES
    } else if index == 1 {
        HEARTS
    } else if index == 2 {
        DIAMONDS
    } else {
        CLUBS
    }
}

/// The canonical order holds exactly the cards of the identity set: those
/// with a rank from 1 to 13 and one of the four suit symbols.
pub proof fn lemma_standard_deck_members(card: Card)
    ensures
        standard_deck().contains(card) <==> card.is_standard(),
{
    if card.is_standard() {
        let s: int = if card.suit == SPADES {
            0
        } else if card.suit == HEARTS {
            1
        } else if card.suit == DIAMONDS {
            2
        } else {
            3
        };
        let index = (card.value - 1) * 4 + s;
        assert(standard_deck()[index] == card);
    }
}

/// No card occurs twice in the identity set.
pub proof fn lemma_standard_deck_distinct()
    ensures
        standard_deck().len() == 52,
        standard_deck().no_duplicates(),
{
    let deck = standard_deck();
    assert forall|i: int, j: int| 0 <= i < deck.len() && 0 <= j < deck.len() && i != j implies deck[i]
        != deck[j] by {
        // cards of one rank and one suit stand at one position
        assert(standard_card(i) == standard_card(j) ==> i / 4 == j / 4 && i % 4 == j % 4);
    }
}

} // verus!
