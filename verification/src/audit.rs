//! Checking a game while it runs: whether the deck, the hand and the
//! discard pile hold each of the fifty-two cards once, and whether the
//! piles are as the state has them.

use vstd::multiset::Multiset;
use vstd::prelude::*;
use vstd::seq_lib::{
    lemma_multiset_commutative, to_multiset_build, to_multiset_contains, to_multiset_len,
};
use crate::card::{
    lemma_standard_deck_distinct, lemma_standard_deck_members, standard_card, standard_deck, Card,
    CLUBS, DIAMONDS, HEARTS, MAX_RANK, MIN_RANK, SPADES,
};
use crate::game::JokeriPokeri;
use crate::hand::Hand;
use crate::input::{Intent, Outcome};
use crate::prize::MAX_MULTIPLIER;
use crate::table::{is_arrangement, GameState, Table, MAX_BET};

verus! {

/// The position of a card of the identity set in the canonical order; none
/// for any other card.
pub fn standard_position(card: &Card) -> (position: Option<usize>)
    ensures
        match position {
            Some(position) => position < 52 && standard_card(position as int) == *card,
            None => !card.is_standard(),
        },
{
    if card.value < MIN_RANK || card.value > MAX_RANK {
        return None;
    }
    let suit_index: usize = if card.suit == SPADES {
        0
    } else if card.suit == HEARTS {
        1
    } else if card.suit == DIAMONDS {
        2
    } else if card.suit == CLUBS {
        3
    } else {
        return None;
    };
    let rank_index: usize = (card.value - MIN_RANK) as usize;
    Some(rank_index * 4 + suit_index)
}

/// What a count of cards knows after it has met the cards `met`: all of
/// them belong to the identity set, none came twice, and `seen` marks the
/// positions of those that came.
pub open spec fn census(seen: Seq<bool>, met: Seq<Card>) -> bool {
    &&& seen.len() == 52
    &&& met.no_duplicates()
    &&& forall|j: int| 0 <= j < met.len() ==> (#[trigger] met[j]).is_standard()
    &&& forall|k: int| 0 <= k < 52 ==> (#[trigger] seen[k] <==> met.contains(standard_card(k)))
}

/// Adds a card to the count. Says whether the card may be there: it
/// belongs to the identity set and has not come before.
fn record(seen: &mut [bool; 52], card: &Card, Ghost(met): Ghost<Seq<Card>>) -> (fresh: bool)
    requires
        census(old(seen)@, met),
    ensures
        fresh == (card.is_standard() && !met.contains(*card)),
        fresh ==> census(final(seen)@, met.push(*card)),
{
    match standard_position(card) {
        None => false,
        Some(position) => {
            if seen[position] {
                false
            } else {
                seen[position] = true;
                proof {
                    // two positions of the canonical order hold two cards
                    lemma_standard_deck_distinct();
                    let after = met.push(*card);
                    assert forall|k: int| 0 <= k < 52 implies (#[trigger] seen@[k] <==> after.contains(
                        standard_card(k),
                    )) by {
                        assert(standard_deck()[k] == standard_card(k));
                        assert(standard_deck()[position as int] == *card);
                        if k == position {
                            assert(after[met.len() as int] == standard_card(k));
                        } else if old(seen)@[k] {
                            let j = choose|j: int| 0 <= j < met.len() && met[j] == standard_card(k);
                            assert(after[j] == standard_card(k));
                        }
                    }
                }
                true
            }
        },
    }
}

/// The cards of a hand, slot by slot, are the cards that it holds.
proof fn lemma_hand_cards(hand: Hand)
    ensures
        hand.cards_before(5).to_multiset() == hand.card_multiset(),
{
    assert forall|i: int| 0 <= i < 5 implies #[trigger] hand.slot_row(i, 5).to_multiset()
        == hand.slot_cards(i) by {
        match hand.cards@[i] {
            Some(card) => {
                to_multiset_build(Seq::empty(), card);
                to_multiset_len(Seq::<Card>::empty());
            },
            None => {
                to_multiset_len(hand.slot_row(i, 5));
            },
        }
    }
    let r0 = hand.slot_row(0, 5);
    let r1 = hand.slot_row(1, 5);
    let r2 = hand.slot_row(2, 5);
    let r3 = hand.slot_row(3, 5);
    let r4 = hand.slot_row(4, 5);
    lemma_multiset_commutative(r0, r1);
    lemma_multiset_commutative(r0 + r1, r2);
    lemma_multiset_commutative(r0 + r1 + r2, r3);
    lemma_multiset_commutative(r0 + r1 + r2 + r3, r4);
}

/// The cards of a game in one row are the cards of its three piles.
pub proof fn lemma_all_cards(table: Table)
    ensures
        table.all_cards().to_multiset() == table.cards_in_play(),
{
    lemma_hand_cards(table.hand);
    lemma_multiset_commutative(table.deck, table.hand.cards_before(5));
    lemma_multiset_commutative(table.deck + table.hand.cards_before(5), table.discarded);
}

/// Fifty-two cards of the identity set, none of them twice, are the
/// identity set.
proof fn lemma_census_complete(all: Seq<Card>)
    requires
        all.len() == 52,
        all.no_duplicates(),
        forall|j: int| 0 <= j < all.len() ==> (#[trigger] all[j]).is_standard(),
    ensures
        all.to_multiset() == standard_deck().to_multiset(),
{
    let deck = standard_deck();
    lemma_standard_deck_distinct();
    all.unique_seq_to_set();
    deck.unique_seq_to_set();
    assert forall|card: Card| all.to_set().contains(card) implies deck.to_set().contains(card) by {
        lemma_standard_deck_members(card);
    }
    vstd::set_lib::lemma_subset_equality(all.to_set(), deck.to_set());
    all.lemma_multiset_has_no_duplicates();
    deck.lemma_multiset_has_no_duplicates();
    assert forall|card: Card| all.to_multiset().count(card) == deck.to_multiset().count(card) by {
        to_multiset_contains(all, card);
        to_multiset_contains(deck, card);
        assert(all.to_set().contains(card) <==> deck.to_set().contains(card));
    }
}

/// A row of cards in which a card comes twice, or in which a card is none
/// of the identity set, is not the identity set.
proof fn lemma_census_failed(all: Seq<Card>, j: int)
    requires
        0 <= j < all.len(),
        !all[j].is_standard() || all.take(j).contains(all[j]),
    ensures
        all.to_multiset() != standard_deck().to_multiset(),
{
    let deck = standard_deck();
    lemma_standard_deck_distinct();
    if all.to_multiset() == deck.to_multiset() {
        // the card at `j` is in the row, so it is of the identity set
        to_multiset_contains(all, all[j]);
        to_multiset_contains(deck, all[j]);
        lemma_standard_deck_members(all[j]);
        // and no card comes twice in the row, nor then before `j`
        deck.lemma_multiset_has_no_duplicates();
        all.lemma_multiset_has_no_duplicates_conv();
        let k = choose|k: int| 0 <= k < all.take(j).len() && all.take(j)[k] == all[j];
        assert(all[k] == all[j]);
    }
}

impl JokeriPokeri {
    /// Whether the deck, the hand and the discard pile hold between them
    /// each of the fifty-two cards once.
    pub fn holds_identity_set(&self) -> (ok: bool)
        ensures
            ok == (self@.cards_in_play() == standard_deck().to_multiset()),
    {
        let ghost all = self@.all_cards();
        proof {
            lemma_all_cards(self@);
        }
        let mut seen: [bool; 52] = [false; 52];
        let ghost mut met: Seq<Card> = Seq::empty();
        let mut count: usize = 0;
        let deck_len = self.deck.cards.len();
        let mut i: usize = 0;
        while i < deck_len
            invariant
                i <= deck_len,
                deck_len == self.deck.cards@.len(),
                all == self@.all_cards(),
                all.to_multiset() == self@.cards_in_play(),
                met == all.take(i as int),
                count == i,
                count <= 52,
                census(seen@, met),
            decreases deck_len - i,
        {
            if count == 52 || !record(&mut seen, &self.deck.cards[i], Ghost(met)) {
                proof {
                    if count == 52 {
                        to_multiset_len(all);
                        to_multiset_len(standard_deck());
                    } else {
                        lemma_census_failed(all, i as int);
                    }
                }
                return false;
            }
            proof {
                met = met.push(all[i as int]);
            }
            count += 1;
            i += 1;
        }
        let mut slot: usize = 0;
        while slot < 5
            invariant
                slot <= 5,
                deck_len == self.deck.cards@.len(),
                all == self@.all_cards(),
                all.to_multiset() == self@.cards_in_play(),
                met == all.take(count as int),
                count == deck_len + self.hand.cards_before(slot as int).len(),
                count <= 52,
                census(seen@, met),
            decreases 5 - slot,
        {
            match &self.hand.cards[slot] {
                Some(card) => {
                    if count == 52 || !record(&mut seen, card, Ghost(met)) {
                        proof {
                            if count == 52 {
                                to_multiset_len(all);
                                to_multiset_len(standard_deck());
                            } else {
                                lemma_census_failed(all, count as int);
                            }
                        }
                        return false;
                    }
                    proof {
                        met = met.push(*card);
                    }
                    count += 1;
                },
                None => {},
            }
            slot += 1;
        }
        let discarded_len = self.discarded.len();
        let ghost base = count;
        let mut i: usize = 0;
        while i < discarded_len
            invariant
                i <= discarded_len,
                discarded_len == self.discarded@.len(),
                base == self.deck.cards@.len() + self.hand.cards_before(5).len(),
                all == self@.all_cards(),
                all.to_multiset() == self@.cards_in_play(),
                met == all.take(count as int),
                count == base + i,
                count <= 52,
                census(seen@, met),
            decreases discarded_len - i,
        {
            if count == 52 || !record(&mut seen, &self.discarded[i], Ghost(met)) {
                proof {
                    if count == 52 {
                        to_multiset_len(all);
                        to_multiset_len(standard_deck());
                    } else {
                        lemma_census_failed(all, count as int);
                    }
                }
                return false;
            }
            proof {
                met = met.push(all[count as int]);
            }
            count += 1;
            i += 1;
        }
        proof {
            assert(all.take(count as int) =~= all);
            if count == 52 {
                lemma_census_complete(all);
            } else {
                to_multiset_len(all);
                to_multiset_len(standard_deck());
            }
        }
        count == 52
    }

    /// Whether the game is valid: it holds each of the fifty-two cards
    /// once, the cursor points at a slot, and the bet is an amount that can
    /// be placed.
    pub fn is_well_formed(&self) -> (ok: bool)
        ensures
            ok == self@.well_formed(),
    {
        self.selector < 5 && 1 <= self.bet_amount && self.bet_amount <= MAX_BET
            && self.holds_identity_set()
    }

    /// Whether the game is valid and its piles are as the state has them.
    pub fn is_coherent(&self) -> (ok: bool)
        ensures
            ok == self@.coherent(),
    {
        if !self.is_well_formed() {
            return false;
        }
        match self.state {
            GameState::Betting => self.hand.is_vacant() && self.discarded.len() == 0,
            GameState::HandSelection => !self.hand.has_nones() && self.discarded.len() == 0,
            GameState::PayOut => !self.hand.has_nones(),
            GameState::GameOver => !self.hand.has_nones() && self.funds == 0,
        }
    }

    /// Whether the sums that the request computes fit the machine's
    /// integers.
    pub fn is_within_limits(&self, intent: Intent) -> (ok: bool)
        ensures
            ok == self@.within_limits(intent),
    {
        match intent {
            Intent::Confirm => match self.state {
                GameState::HandSelection => {
                    let factor: u64 = MAX_MULTIPLIER as u64;
                    let bet: u64 = self.bet_amount as u64;
                    assert(factor * bet <= 40 * 0xffff_ffff) by (nonlinear_arith)
                        requires
                            factor == 40,
                            bet <= 0xffff_ffff,
                    ;
                    self.funds as u64 + factor * bet <= u32::MAX as u64
                },
                GameState::PayOut => self.funds == 0 || self.round < u32::MAX,
                _ => true,
            },
            _ => true,
        }
    }

    /// Carries out one request of the player, if the game is coherent and
    /// the sums of the request fit the machine's integers; else nothing
    /// changes, and there is no outcome.
    pub fn checked_step(&mut self, intent: Intent) -> (outcome: Option<Outcome>)
        ensures
            match outcome {
                Some(outcome) => {
                    &&& old(self)@.coherent()
                    &&& old(self)@.within_limits(intent)
                    &&& exists|order: Seq<Card>| #[trigger]
                        is_arrangement(order) && (final(self)@, outcome) == old(
                            self,
                        )@.turn(intent, order)
                    &&& final(self)@.coherent()
                },
                None => {
                    &&& !(old(self)@.coherent() && old(self)@.within_limits(intent))
                    &&& final(self)@ == old(self)@
                },
            },
    {
        if self.is_coherent() && self.is_within_limits(intent) {
            Some(self.step(intent))
        } else {
            None
        }
    }
}

} // verus!
