//! The mathematical model of a game: what lies on the table, and what each
//! request makes of it.

use vstd::multiset::Multiset;
use vstd::prelude::*;
use crate::card::{standard_deck, Card};
use crate::hand::Hand;
use crate::input::{Intent, Outcome, Rejection};
use crate::prize::{payout_of, Prize, MAX_MULTIPLIER};

verus! {

/// The funds at the start of a session.
pub const INITIAL_FUNDS: u32 = 100;

/// The lowest bet, and the amount by which a bet is raised.
pub const BET_STEP: u32 = 20;

/// The highest bet.
pub const MAX_BET: u32 = 100;

/// The states of a round.
#[derive(Clone, Copy, PartialEq, Eq, Structural, Debug)]
pub enum GameState {
    Betting,
    HandSelection,
    PayOut,
    GameOver,
}

/// A game as a plain value: the three piles of cards and the round's
/// record. The generator that shuffles the deck is no part of it; where a
/// request shuffles, the order that comes out is named beside the table.
pub struct Table {
    pub deck: Seq<Card>,
    pub hand: Hand,
    pub discarded: Seq<Card>,
    pub funds: nat,
    pub round: nat,
    pub bet_amount: nat,
    pub latest_prize: Option<Prize>,
    pub latest_payout: nat,
    pub state: GameState,
    pub playing: bool,
    pub selector: nat,
    pub selected: Seq<bool>,
}

/// Whether `order` holds each of the fifty-two cards once.
pub open spec fn is_arrangement(order: Seq<Card>) -> bool {
    order.to_multiset() == standard_deck().to_multiset()
}

/// Five held flags, none of them set.
pub open spec fn no_holds() -> Seq<bool> {
    Seq::new(5, |i: int| false)
}

/// The held flags with the flag of `slot` flipped.
pub open spec fn toggled(selected: Seq<bool>, slot: int) -> Seq<bool> {
    selected.update(slot, !selected[slot])
}

/// The bet that follows `bet` when the funds are `funds`: one step more,
/// or the lowest bet where the next step would exceed the highest bet or
/// the funds.
pub open spec fn next_bet(bet: nat, funds: nat) -> nat {
    if bet + BET_STEP <= MAX_BET && bet + BET_STEP <= funds {
        (bet + BET_STEP) as nat
    } else {
        BET_STEP as nat
    }
}

impl Table {
    /// All cards of the game: those of the deck, of the hand and of the
    /// discard pile.
    pub open spec fn cards_in_play(self) -> Multiset<Card> {
        self.deck.to_multiset().add(self.hand.card_multiset()).add(self.discarded.to_multiset())
    }

    /// All cards of the game in one row: the deck, then the hand in slot
    /// order, then the discard pile.
    pub open spec fn all_cards(self) -> Seq<Card> {
        self.deck + self.hand.cards_before(5) + self.discarded
    }

    /// Whether the table is a valid one: the deck, the hand and the discard
    /// pile hold between them each of the fifty-two cards once, the cursor
    /// points at a slot, there are five held flags, and the bet is an
    /// amount that can be placed.
    pub open spec fn well_formed(self) -> bool {
        &&& self.cards_in_play() == standard_deck().to_multiset()
        &&& self.selector < 5
        &&& self.selected.len() == 5
        &&& 1 <= self.bet_amount <= MAX_BET
    }

    /// Whether the table is valid and the piles are as the state has them:
    /// while betting, all cards lie in the deck; while the player selects,
    /// the hand is complete and nothing is discarded; at payout and after,
    /// the hand is complete; and the game is over only without funds.
    pub open spec fn coherent(self) -> bool {
        &&& self.well_formed()
        &&& match self.state {
            GameState::Betting => self.hand.is_empty() && self.discarded.len() == 0,
            GameState::HandSelection => self.hand.is_complete() && self.discarded.len() == 0,
            GameState::PayOut => self.hand.is_complete(),
            GameState::GameOver => self.hand.is_complete() && self.funds == 0,
        }
    }

    /// The table at the start of a session, with the deck in the given
    /// order.
    pub open spec fn fresh(order: Seq<Card>) -> Table {
        Table {
            deck: order,
            hand: Hand::empty(),
            discarded: Seq::empty(),
            funds: INITIAL_FUNDS as nat,
            round: 1,
            bet_amount: BET_STEP as nat,
            latest_prize: None,
            latest_payout: 0,
            state: GameState::Betting,
            playing: true,
            selector: 0,
            selected: no_holds(),
        }
    }

    /// One, if slot `i` is among the first `n` and not held; else nothing.
    pub open spec fn unheld_slot(self, i: int, n: int) -> nat {
        if i < n && !self.selected[i] {
            1
        } else {
            0
        }
    }

    /// The number of slots among the first `n` that are not held.
    pub open spec fn unheld_before(self, n: int) -> nat {
        self.unheld_slot(0, n) + self.unheld_slot(1, n) + self.unheld_slot(2, n) + self.unheld_slot(3, n)
            + self.unheld_slot(4, n)
    }

    /// The card that a deal moves from slot `i` to the discard pile, if
    /// the slot is among the first `n`, is not held and holds a card.
    pub open spec fn released_slot(self, i: int, n: int) -> Seq<Card> {
        if i < n && !self.selected[i] && self.hand.cards@[i] is Some {
            seq![self.hand.cards@[i]->0]
        } else {
            Seq::empty()
        }
    }

    /// The cards that a deal moves from the first `n` slots to the discard
    /// pile, in slot order: those of the occupied slots that are not held.
    pub open spec fn released_before(self, n: int) -> Seq<Card> {
        self.released_slot(0, n) + self.released_slot(1, n) + self.released_slot(2, n)
            + self.released_slot(3, n) + self.released_slot(4, n)
    }

    /// What slot `i` holds once a deal has gone through the first `n`
    /// slots: a held slot and a slot not yet reached keep what they have,
    /// each other slot gets the next card from the top of the deck.
    pub open spec fn slot_dealt(self, n: int, i: int) -> Option<Card> {
        if i < n && !self.selected[i] {
            Some(self.deck[self.unheld_before(i) as int])
        } else {
            self.hand.cards@[i]
        }
    }

    /// The table once a deal has gone through the first `n` slots.
    pub open spec fn dealt_through(self, n: int) -> Table {
        Table {
            deck: self.deck.skip(self.unheld_before(n) as int),
            hand: Hand {
                cards: [
                    self.slot_dealt(n, 0),
                    self.slot_dealt(n, 1),
                    self.slot_dealt(n, 2),
                    self.slot_dealt(n, 3),
                    self.slot_dealt(n, 4),
                ],
            },
            discarded: self.discarded + self.released_before(n),
            ..self
        }
    }

    /// The table after a deal: each slot that is not held gives its card,
    /// if it has one, to the discard pile and takes the top card of the
    /// deck, slot by slot.
    pub open spec fn after_deal(self) -> Table
        recommends
            self.deck.len() >= self.unheld_before(5),
    {
        self.dealt_through(5)
    }

    /// The table after the held flag of `slot` was flipped.
    pub open spec fn after_toggle(self, slot: int) -> Table {
        Table { selected: toggled(self.selected, slot), ..self }
    }

    /// The table after the bet was cycled.
    pub open spec fn after_cycle_bet(self) -> Table {
        Table { bet_amount: next_bet(self.bet_amount, self.funds), ..self }
    }

    /// The table after the cursor moved one slot to the left, if it was
    /// not at the first slot.
    pub open spec fn after_cursor_left(self) -> Table {
        if self.selector > 0 {
            Table { selector: (self.selector - 1) as nat, ..self }
        } else {
            self
        }
    }

    /// The table after the cursor moved one slot to the right, if it was
    /// not at the last slot.
    pub open spec fn after_cursor_right(self) -> Table {
        if self.selector < 4 {
            Table { selector: self.selector + 1, ..self }
        } else {
            self
        }
    }

    /// Why a bet of `amount` cannot be placed, if it cannot: the amount is
    /// out of range, or it exceeds the funds.
    pub open spec fn bet_rejection(self, amount: nat) -> Option<Rejection> {
        if amount < 1 || amount > MAX_BET {
            Some(Rejection::BetOutOfRange)
        } else if self.funds < amount {
            Some(Rejection::InsufficientFunds)
        } else {
            None
        }
    }

    /// The table after a bet of `amount` was placed: the amount is the
    /// bet, it has left the funds, and the player selects.
    pub open spec fn after_bet(self, amount: nat) -> Table {
        Table {
            bet_amount: amount,
            funds: (self.funds - amount) as nat,
            state: GameState::HandSelection,
            ..self
        }
    }

    /// The table after the bet was placed and the hand dealt from the deck
    /// in the given order: the bet leaves the funds, no slot is held, every
    /// slot gets a card, and the player selects.
    pub open spec fn begin_round(self, order: Seq<Card>) -> Table {
        let staked = Table {
            deck: order,
            funds: (self.funds - self.bet_amount) as nat,
            selected: no_holds(),
            ..self
        };
        Table { state: GameState::HandSelection, ..staked.after_deal() }
    }

    /// The table after the draw: the slots that are not held are dealt
    /// anew, the hand is classified, and what its category pays on the bet
    /// joins the funds.
    pub open spec fn after_draw(self) -> Table {
        let drawn = self.after_deal();
        let prize = drawn.hand.spec_classify();
        let amount = payout_of(prize, self.bet_amount);
        Table {
            state: GameState::PayOut,
            latest_prize: prize,
            latest_payout: amount,
            funds: self.funds + amount,
            ..drawn
        }
    }

    /// The table with all cards back in the deck, in the given order: the
    /// hand and the discard pile are empty.
    pub open spec fn gathered(self, order: Seq<Card>) -> Table {
        Table { deck: order, hand: Hand::empty(), discarded: Seq::empty(), ..self }
    }

    /// The table at the start of the next round, with all cards back in
    /// the deck in the given order.
    pub open spec fn next_round(self, order: Seq<Card>) -> Table {
        Table {
            state: GameState::Betting,
            latest_prize: None,
            latest_payout: 0,
            round: self.round + 1,
            ..self.gathered(order)
        }
    }

    /// What a request makes of the table, and what the caller does next.
    /// Where the request shuffles the deck, `order` is the order that the
    /// shuffle gives; elsewhere `order` plays no part.
    pub open spec fn turn(self, intent: Intent, order: Seq<Card>) -> (Table, Outcome) {
        match intent {
            Intent::Quit => (self, Outcome::EndSession),
            Intent::Confirm => match self.state {
                GameState::Betting => if self.funds >= self.bet_amount {
                    (self.begin_round(order), Outcome::Continue)
                } else {
                    (self, Outcome::Rejected(Rejection::InsufficientFunds))
                },
                GameState::HandSelection => (self.after_draw(), Outcome::Continue),
                GameState::PayOut => if self.funds == 0 {
                    (Table { state: GameState::GameOver, ..self }, Outcome::Continue)
                } else {
                    (self.next_round(order), Outcome::Continue)
                },
                GameState::GameOver => (self, Outcome::Continue),
            },
            Intent::CycleBet => if self.state == GameState::Betting {
                (self.after_cycle_bet(), Outcome::Continue)
            } else {
                (self, Outcome::Continue)
            },
            Intent::ToggleHold => if self.state == GameState::HandSelection {
                (self.after_toggle(self.selector as int), Outcome::Continue)
            } else {
                (self, Outcome::Continue)
            },
            Intent::CursorLeft => if self.state == GameState::HandSelection {
                (self.after_cursor_left(), Outcome::Continue)
            } else {
                (self, Outcome::Continue)
            },
            Intent::CursorRight => if self.state == GameState::HandSelection {
                (self.after_cursor_right(), Outcome::Continue)
            } else {
                (self, Outcome::Continue)
            },
            Intent::NewGame => if self.state == GameState::GameOver {
                (Table::fresh(order), Outcome::Continue)
            } else {
                (self, Outcome::Continue)
            },
            Intent::Decline => if self.state == GameState::GameOver {
                (self, Outcome::EndSession)
            } else {
                (self, Outcome::Continue)
            },
        }
    }

    /// Whether the sums that the request computes fit the machine's
    /// integers: the highest payout on top of the funds, and the next
    /// round's number.
    pub open spec fn within_limits(self, intent: Intent) -> bool {
        intent == Intent::Confirm ==> match self.state {
            GameState::HandSelection => self.funds + MAX_MULTIPLIER * self.bet_amount
                <= u32::MAX,
            GameState::PayOut => self.funds != 0 ==> self.round < u32::MAX,
            _ => true,
        }
    }
}

} // verus!
