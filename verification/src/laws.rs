//! What holds of every game: no card is lost or duplicated, the categories
//! keep their precedence, and a hold toggled twice is as it was.

use vstd::multiset::Multiset;
use vstd::prelude::*;
use vstd::seq_lib::{to_multiset_build, to_multiset_contains, to_multiset_len, to_multiset_remove};
use crate::card::{lemma_standard_deck_distinct, lemma_standard_deck_members, standard_deck, Card};
use crate::hand::Hand;
use crate::input::Intent;
use crate::prize::Prize;
use crate::table::{is_arrangement, no_holds, GameState, Table};

verus! {

/// A sequence without elements has no cards.
proof fn lemma_empty_pile(pile: Seq<Card>)
    requires
        pile.len() == 0,
    ensures
        pile.to_multiset() == Multiset::<Card>::empty(),
{
    to_multiset_len(pile);
    assert(pile.to_multiset() =~= Multiset::<Card>::empty());
}

/// A complete hand holds five cards, an empty hand none.
pub proof fn lemma_occupied_slots(hand: Hand)
    ensures
        hand.occupied_slots() <= 5,
        hand.is_complete() ==> hand.occupied_slots() == 5,
        hand.is_empty() ==> hand.card_multiset() == Multiset::<Card>::empty(),
{
    if hand.is_empty() {
        assert(hand.card_multiset() =~= Multiset::<Card>::empty());
    }
}

/// Card conservation: on a valid table the cards of the deck, of the
/// occupied slots of the hand and of the discard pile are fifty-two in all.
pub proof fn lemma_card_conservation(table: Table)
    requires
        table.well_formed(),
    ensures
        table.deck.len() + table.hand.occupied_slots() + table.discarded.len() == 52,
{
    to_multiset_len(table.deck);
    to_multiset_len(table.discarded);
    to_multiset_len(standard_deck());
}

/// No duplication: on a valid table no card occurs twice among the cards
/// of the deck, the hand and the discard pile, and each card of the
/// identity set occurs once.
pub proof fn lemma_no_duplication(table: Table)
    requires
        table.well_formed(),
    ensures
        forall|card: Card| table.cards_in_play().count(card) <= 1,
        forall|card: Card| table.cards_in_play().count(card) == 1 <==> card.is_standard(),
{
    lemma_standard_deck_distinct();
    standard_deck().lemma_multiset_has_no_duplicates();
    assert forall|card: Card| table.cards_in_play().count(card) == 1 <==> card.is_standard() by {
        lemma_standard_deck_members(card);
        to_multiset_contains(standard_deck(), card);
    }
}

/// A deal neither loses nor duplicates a card: after it has gone through
/// any number of slots, the cards of the three piles are those of before.
pub proof fn lemma_deal_keeps_cards(table: Table, n: int)
    requires
        0 <= n <= 5,
        table.deck.len() >= table.unheld_before(n),
    ensures
        table.dealt_through(n).cards_in_play() == table.cards_in_play(),
    decreases n,
{
    let after = table.dealt_through(n);
    if n == 0 {
        assert(after.deck =~= table.deck);
        assert(after.discarded =~= table.discarded);
        assert(after.hand.cards =~= table.hand.cards);
    } else {
        lemma_deal_keeps_cards(table, n - 1);
        let prior = table.dealt_through(n - 1);
        if table.selected[n - 1] {
            assert(after.deck =~= prior.deck);
            assert(after.discarded =~= prior.discarded);
            assert(after.hand.cards =~= prior.hand.cards);
        } else {
            let top = prior.deck[0];
            assert(after.deck =~= prior.deck.remove(0));
            to_multiset_remove(prior.deck, 0);
            assert forall|i: int| 0 <= i < 5 && i != n - 1 implies after.hand.slot_cards(i)
                == prior.hand.slot_cards(i) by {}
            assert(after.hand.slot_cards(n - 1) == Multiset::singleton(top));
            match table.hand.cards@[n - 1] {
                Some(card) => {
                    assert(after.discarded =~= prior.discarded.push(card));
                    to_multiset_build(prior.discarded, card);
                    assert(prior.hand.slot_cards(n - 1) == Multiset::singleton(card));
                },
                None => {
                    assert(after.discarded =~= prior.discarded);
                    assert(prior.hand.slot_cards(n - 1) == Multiset::<Card>::empty());
                },
            }
            to_multiset_contains(prior.deck, top);
            assert(after.cards_in_play() =~= prior.cards_in_play());
        }
    }
}

/// Card conservation and no duplication for each operation of the engine
/// by itself: what a deal, a return of the cards to the deck, a toggled
/// hold, cleared holds, a cycled bet and a placed bet make of a valid table
/// is a valid table.
pub proof fn lemma_operations_keep_validity(table: Table, slot: int, amount: nat, order: Seq<Card>)
    requires
        table.well_formed(),
    ensures
        table.deck.len() >= table.unheld_before(5) ==> table.after_deal().well_formed(),
        order.to_multiset() == table.cards_in_play() ==> table.gathered(order).well_formed(),
        0 <= slot < 5 ==> table.after_toggle(slot).well_formed(),
        (Table { selected: no_holds(), ..table }).well_formed(),
        table.after_cycle_bet().well_formed(),
        table.bet_rejection(amount) is None ==> table.after_bet(amount).well_formed(),
{
    if table.deck.len() >= table.unheld_before(5) {
        lemma_deal_keeps_cards(table, 5);
    }
    if order.to_multiset() == table.cards_in_play() {
        let after = table.gathered(order);
        lemma_occupied_slots(after.hand);
        lemma_empty_pile(after.discarded);
        assert(after.cards_in_play() =~= order.to_multiset());
    }
}

/// A table at the start of a session is coherent, whatever the order of
/// its deck.
pub proof fn lemma_fresh_is_coherent(order: Seq<Card>)
    requires
        is_arrangement(order),
    ensures
        Table::fresh(order).coherent(),
{
    let table = Table::fresh(order);
    lemma_occupied_slots(table.hand);
    lemma_empty_pile(table.discarded);
    assert(table.cards_in_play() =~= order.to_multiset());
}

/// Placing the bet and dealing the hand leads from a coherent table to a
/// coherent one.
proof fn lemma_begin_round_is_coherent(table: Table, order: Seq<Card>)
    requires
        table.coherent(),
        table.state == GameState::Betting,
        is_arrangement(order),
    ensures
        table.begin_round(order).coherent(),
{
    let staked = Table {
        deck: order,
        funds: (table.funds - table.bet_amount) as nat,
        selected: no_holds(),
        ..table
    };
    lemma_occupied_slots(table.hand);
    lemma_empty_pile(table.discarded);
    assert(staked.cards_in_play() =~= order.to_multiset());
    lemma_standard_deck_distinct();
    to_multiset_len(order);
    to_multiset_len(standard_deck());
    lemma_deal_keeps_cards(staked, 5);
    let after = table.begin_round(order);
    assert(after.discarded =~= Seq::<Card>::empty());
    assert(after.cards_in_play() == staked.after_deal().cards_in_play());
}

/// The draw leads from a coherent table to a coherent one.
pub(crate) proof fn lemma_after_draw_is_coherent(table: Table)
    requires
        table.coherent(),
        table.state == GameState::HandSelection,
    ensures
        table.deck.len() >= table.unheld_before(5),
        table.after_draw().coherent(),
{
    lemma_card_conservation(table);
    lemma_occupied_slots(table.hand);
    lemma_deal_keeps_cards(table, 5);
    assert(table.after_draw().cards_in_play() == table.after_deal().cards_in_play());
}

/// Card conservation and no duplication at every point of a game: each
/// request leads from a coherent table to a coherent one, whatever order a
/// shuffle gives the fifty-two cards.
pub proof fn lemma_turn_keeps_coherence(table: Table, intent: Intent, order: Seq<Card>)
    requires
        table.coherent(),
        is_arrangement(order),
    ensures
        table.turn(intent, order).0.coherent(),
{
    let after = table.turn(intent, order).0;
    match intent {
        Intent::Confirm => match table.state {
            GameState::Betting => {
                if table.funds >= table.bet_amount {
                    lemma_begin_round_is_coherent(table, order);
                }
            },
            GameState::HandSelection => {
                lemma_after_draw_is_coherent(table);
            },
            GameState::PayOut => {
                if table.funds != 0 {
                    lemma_occupied_slots(after.hand);
                    lemma_empty_pile(after.discarded);
                    assert(after.cards_in_play() =~= order.to_multiset());
                }
            },
            GameState::GameOver => {},
        },
        Intent::NewGame => {
            if table.state == GameState::GameOver {
                lemma_fresh_is_coherent(order);
            }
        },
        _ => {},
    }
}

/// Idempotent hold toggling: toggling the same slot twice restores the
/// held flags, and with them the table.
pub proof fn lemma_toggle_twice(table: Table, slot: int)
    requires
        0 <= slot < table.selected.len(),
    ensures
        table.after_toggle(slot).after_toggle(slot) == table,
{
    assert(table.after_toggle(slot).after_toggle(slot).selected =~= table.selected);
}

/// Classification precedence: a hand that is both a flush and a straight
/// is a straight flush and nothing else, and a hand with four of a kind is
/// a four of a kind: it is no straight, and never classifies as a full
/// house.
pub proof fn lemma_classification_precedence(hand: Hand)
    ensures
        hand.spec_is_flush() && hand.spec_is_straight() ==> hand.spec_classify() == Some(
            Prize::StraightFlush,
        ),
        hand.spec_is_four_of_a_kind() ==> !hand.spec_is_straight() && hand.spec_classify() == Some(
            Prize::FourOfAKind,
        ),
{
}

} // verus!
