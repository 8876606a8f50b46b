//! The deck: an ordered pile of cards with its shuffle source.

use rand::rngs::ThreadRng;
use rand::seq::SliceRandom;
use vstd::prelude::*;
use vstd::seq_lib::to_multiset_len;
use crate::card::{standard_deck, suit_symbol, Card};

verus! {

/// `rand::rngs::ThreadRng`, the handle to the thread-local generator. The
/// library carries it from one shuffle to the next and never looks inside.
#[verifier::external_type_specification]
#[verifier::external_body]
pub struct ExThreadRng(ThreadRng);

/// `rand::thread_rng` hands out a handle to the thread-local generator,
/// which the system seeds on first use. Nothing is claimed of the handle.
/// Where the system has no seed to give, the call does not return.
pub assume_specification[ rand::thread_rng ]() -> (rng: ThreadRng)
;

/// `rand::seq::SliceRandom::shuffle` on the cards, with the given
/// generator. The order that comes out depends on the generator, so the
/// contract claims only what holds of every outcome: the cards after the
/// call are the cards before it, each as often as before. The method does
/// nothing to the slice but swap pairs of its elements.
#[verifier::external_body]
fn shuffle_cards(cards: &mut Vec<Card>, rng: &mut ThreadRng)
    ensures
        final(cards)@.to_multiset() == old(cards)@.to_multiset(),
{
    cards.shuffle(rng);
}

/// An ordered pile of cards, the top card first, and the generator that
/// shuffles it.
pub struct Deck {
    pub cards: Vec<Card>,
    pub rng: ThreadRng,
}

impl Deck {
    /// Whether the deck holds the identity set: each of the fifty-two
    /// cards once, in some order.
    pub open spec fn is_full(self) -> bool {
        self.cards@.to_multiset() == standard_deck().to_multiset()
    }

    /// Creates a filled and shuffled deck.
    pub fn new() -> (deck: Deck)
        ensures
            deck.is_full(),
            deck.cards@.len() == 52,
    {
        let mut deck = Deck { cards: Vec::new(), rng: rand::thread_rng() };
        deck.fill_deck();
        deck.shuffle_deck();
        proof {
            to_multiset_len(deck.cards@);
            to_multiset_len(standard_deck());
        }
        deck
    }

    /// Re-randomizes the order of the cards in place. The deck need not be
    /// full.
    pub fn shuffle_deck(&mut self)
        ensures
            final(self).cards@.to_multiset() == old(self).cards@.to_multiset(),
    {
        shuffle_cards(&mut self.cards, &mut self.rng);
    }

    /// Puts the identity set below the cards of the deck, in canonical
    /// order: rank-major, suit-minor.
    pub fn fill_deck(&mut self)
        ensures
            final(self).cards@ == old(self).cards@ + standard_deck(),
            final(self).rng == old(self).rng,
    {
        let mut value: u8 = 1;
        while value <= 13
            invariant
                1 <= value <= 14,
                self.cards@ == old(self).cards@ + standard_deck().take((value - 1) * 4),
                self.rng == old(self).rng,
            decreases 14 - value,
        {
            let mut index: u8 = 0;
            while index < 4
                invariant
                    1 <= value <= 13,
                    index <= 4,
                    self.cards@ == old(self).cards@ + standard_deck().take((value - 1) * 4 + index),
                    self.rng == old(self).rng,
                decreases 4 - index,
            {
                let ghost position = (value - 1) * 4 + index;
                self.cards.push(Card::new(value, suit_symbol(index)));
                assert(standard_deck().take(position + 1) =~= standard_deck().take(position).push(
                    standard_deck()[position],
                ));
                index += 1;
            }
            value += 1;
        }
    }

    /// Removes the top card and hands it to the caller.
    pub fn draw_top(&mut self) -> (card: Card)
        requires
            old(self).cards@.len() > 0,
        ensures
            card == old(self).cards@.first(),
            final(self).cards@ == old(self).cards@.drop_first(),
            final(self).rng == old(self).rng,
    {
        self.cards.remove(0)
    }
}

} // verus!
