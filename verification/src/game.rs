//! The round engine: one deck, one hand, a discard pile and the round's
//! record, and the operations that move the game from state to state.

use vstd::multiset::Multiset;
use vstd::prelude::*;
use vstd::seq_lib::{to_multiset_build, to_multiset_contains, to_multiset_len, to_multiset_remove};
use crate::card::{standard_deck, Card};
use crate::deck::Deck;
use crate::hand::Hand;
use crate::input::{
    asks_to_quit, intent_for_key, intent_of, is_quit_word, lowercase_of, Intent, Key, Outcome, Rejection,
};
use crate::laws::{
    lemma_after_draw_is_coherent, lemma_deal_keeps_cards, lemma_fresh_is_coherent,
    lemma_occupied_slots, lemma_turn_keeps_coherence,
};
use crate::prize::{payout, Prize};
use crate::table::{is_arrangement, no_holds, GameState, Table, BET_STEP, INITIAL_FUNDS, MAX_BET};

verus! {

/// All of a game's data.
pub struct JokeriPokeri {
    pub deck: Deck,
    pub hand: Hand,
    pub discarded: Vec<Card>,
    pub funds: u32,
    pub round: u32,
    pub bet_amount: u32,
    pub latest_prize: Option<Prize>,
    pub latest_payout: u32,
    pub state: GameState,
    pub playing: bool,
    pub selector: usize,
    pub selected: [bool; 5],
}

impl View for JokeriPokeri {
    type V = Table;

    open spec fn view(&self) -> Table {
        Table {
            deck: self.deck.cards@,
            hand: self.hand,
            discarded: self.discarded@,
            funds: self.funds as nat,
            round: self.round as nat,
            bet_amount: self.bet_amount as nat,
            latest_prize: self.latest_prize,
            latest_payout: self.latest_payout as nat,
            state: self.state,
            playing: self.playing,
            selector: self.selector as nat,
            selected: self.selected@,
        }
    }
}

impl JokeriPokeri {
    /// Starts a session: full funds, the lowest bet, the first round, an
    /// empty hand and a freshly shuffled deck.
    pub fn new() -> (game: JokeriPokeri)
        ensures
            game@ == Table::fresh(game@.deck),
            is_arrangement(game@.deck),
            game@.deck.len() == 52,
            game@.coherent(),
    {
        let game = JokeriPokeri {
            deck: Deck::new(),
            hand: Hand::new(),
            discarded: Vec::new(),
            funds: INITIAL_FUNDS,
            round: 1,
            bet_amount: BET_STEP,
            latest_payout: 0,
            state: GameState::Betting,
            playing: true,
            selector: 0,
            selected: [false, false, false, false, false],
            latest_prize: None,
        };
        assert(game@.selected =~= no_holds());
        assert(game@.discarded =~= Seq::empty());
        proof {
            lemma_fresh_is_coherent(game@.deck);
        }
        game
    }

    /// Starts the session over, with a new deck.
    pub fn reset_game(&mut self)
        ensures
            final(self)@ == Table::fresh(final(self)@.deck),
            is_arrangement(final(self)@.deck),
            final(self)@.deck.len() == 52,
            final(self)@.coherent(),
    {
        self.deck = Deck::new();
        self.hand = Hand::new();
        self.discarded = Vec::new();
        self.funds = INITIAL_FUNDS;
        self.round = 1;
        self.bet_amount = BET_STEP;
        self.latest_payout = 0;
        self.state = GameState::Betting;
        self.playing = true;
        self.selector = 0;
        self.selected = [false, false, false, false, false];
        self.latest_prize = None;
        assert(self@.selected =~= no_holds());
        assert(self@.discarded =~= Seq::empty());
        proof {
            lemma_fresh_is_coherent(self@.deck);
        }
    }

    /// Deals cards from the deck to every slot that is not held. A card
    /// that such a slot holds goes to the discard pile first. The deck must
    /// hold a card for each slot that is not held; no card is lost or
    /// duplicated.
    pub fn deal(&mut self)
        requires
            old(self)@.deck.len() >= old(self)@.unheld_before(5),
        ensures
            final(self)@ == old(self)@.after_deal(),
            final(self)@.cards_in_play() == old(self)@.cards_in_play(),
    {
        let ghost before = self@;
        assert(self@.deck =~= before.dealt_through(0).deck);
        assert(self@.discarded =~= before.dealt_through(0).discarded);
        assert(self@.hand.cards =~= before.dealt_through(0).hand.cards);
        let mut i: usize = 0;
        while i < 5
            invariant
                i <= 5,
                before.deck.len() >= before.unheld_before(5),
                self@ == before.dealt_through(i as int),
            decreases 5 - i,
        {
            let ghost next = before.dealt_through(i + 1);
            // skip those cards that are selected to hold
            if !self.selected[i] {
                // discard if unselected card in hand
                let element = self.hand.cards[i].take();
                match element {
                    Some(card) => {
                        self.discarded.push(card);
                    },
                    None => {},
                }
                // draw a new card to hand.
                self.hand.cards[i] = Some(self.deck.draw_top());
            }
            assert(self@.deck =~= next.deck);
            assert(self@.discarded =~= next.discarded);
            assert(self@.hand.cards =~= next.hand.cards);
            i += 1;
        }
        proof {
            lemma_deal_keeps_cards(before, 5);
        }
    }

    /// Moves the cards of the hand and of the discard pile back into the
    /// deck and shuffles it. No card is lost or duplicated.
    pub fn reset_deck_and_hand(&mut self)
        ensures
            final(self)@ == old(self)@.gathered(final(self)@.deck),
            final(self)@.deck.to_multiset() == old(self)@.cards_in_play(),
            final(self)@.cards_in_play() == old(self)@.cards_in_play(),
    {
        let ghost before = self@;
        // discard hand to discard pile
        let mut i: usize = 0;
        while i < 5
            invariant
                i <= 5,
                self@ == (Table { hand: self.hand, discarded: self.discarded@, ..before }),
                forall|k: int| 0 <= k < i ==> (#[trigger] self.hand.cards@[k]) is None,
                self@.cards_in_play() == before.cards_in_play(),
            decreases 5 - i,
        {
            let ghost prior = self@;
            let element = self.hand.cards[i].take();
            match element {
                Some(card) => {
                    self.discarded.push(card);
                    proof {
                        to_multiset_build(prior.discarded, card);
                        assert(prior.hand.slot_cards(i as int) == Multiset::singleton(card));
                    }
                },
                None => {},
            }
            proof {
                assert forall|k: int| 0 <= k < 5 && k != i implies self.hand.slot_cards(k)
                    == prior.hand.slot_cards(k) by {}
                assert(self.hand.slot_cards(i as int) == Multiset::<Card>::empty());
                assert(self@.cards_in_play() =~= prior.cards_in_play());
            }
            i += 1;
        }
        proof {
            lemma_occupied_slots(self.hand);
            assert(self.hand.cards =~= Hand::empty().cards);
        }
        // discard discard back to deck
        let count = self.discarded.len();
        let mut i: usize = 0;
        while i < count
            invariant
                i <= count,
                self.discarded@.len() == count - i,
                self.hand == Hand::empty(),
                self@ == (Table { deck: self.deck.cards@, discarded: self.discarded@, ..before.gathered(
                    before.deck,
                ) }),
                self@.cards_in_play() == before.cards_in_play(),
            decreases count - i,
        {
            let ghost prior = self@;
            let card = self.discarded.remove(0);
            self.deck.cards.push(card);
            proof {
                to_multiset_remove(prior.discarded, 0);
                to_multiset_build(prior.deck, card);
                to_multiset_contains(prior.discarded, card);
                assert(self@.cards_in_play() =~= prior.cards_in_play());
            }
            i += 1;
        }
        // shuffle deck
        self.deck.shuffle_deck();
        proof {
            to_multiset_len(self.discarded@);
            lemma_occupied_slots(self.hand);
            assert(self@.discarded =~= Seq::<Card>::empty());
            assert(self@.cards_in_play() =~= self@.deck.to_multiset());
        }
    }

    /// Flips the held flag of the slot under the cursor.
    pub fn toggle_selection(&mut self)
        requires
            old(self)@.selector < 5,
        ensures
            final(self)@ == old(self)@.after_toggle(old(self)@.selector as int),
    {
        self.selected[self.selector] = !self.selected[self.selector];
        assert(self@.selected =~= old(self)@.after_toggle(old(self)@.selector as int).selected);
    }

    /// Flips the held flag of the given slot. An index that names no slot
    /// is turned down, and nothing changes.
    pub fn toggle_hold(&mut self, slot: usize) -> (result: Result<(), Rejection>)
        ensures
            slot < 5 ==> result == Ok::<(), Rejection>(()) && final(self)@ == old(self)@.after_toggle(
                slot as int,
            ),
            slot >= 5 ==> result == Err::<(), Rejection>(Rejection::SlotOutOfRange) && final(self)@
                == old(self)@,
    {
        if slot >= 5 {
            return Err(Rejection::SlotOutOfRange);
        }
        self.selected[slot] = !self.selected[slot];
        assert(self@.selected =~= old(self)@.after_toggle(slot as int).selected);
        Ok(())
    }

    /// Clears all held flags.
    pub fn reset_selections(&mut self)
        ensures
            final(self)@ == (Table { selected: no_holds(), ..old(self)@ }),
    {
        let mut i: usize = 0;
        while i < 5
            invariant
                i <= 5,
                forall|k: int| 0 <= k < i ==> !self.selected@[k],
                self@ == (Table { selected: self.selected@, ..old(self)@ }),
            decreases 5 - i,
        {
            self.selected[i] = false;
            i += 1;
        }
        assert(self@.selected =~= no_holds());
    }

    /// Raises the bet by one step, or wraps to the lowest bet where the
    /// next step would exceed the highest bet or the funds.
    pub fn cycle_bet_amount(&mut self)
        ensures
            final(self)@ == old(self)@.after_cycle_bet(),
    {
        if self.bet_amount <= MAX_BET - BET_STEP && self.funds >= self.bet_amount + BET_STEP {
            self.bet_amount += BET_STEP;
        } else {
            self.bet_amount = BET_STEP;
        }
    }

    /// Places a bet of the given amount: it becomes the bet, leaves the
    /// funds, and the player selects. An amount out of range, or one that
    /// exceeds the funds, is turned down, and nothing changes.
    pub fn bet_money(&mut self, bet_amount: u32) -> (result: Result<(), Rejection>)
        ensures
            match old(self)@.bet_rejection(bet_amount as nat) {
                Some(rejection) => result == Err::<(), Rejection>(rejection) && final(self)@ == old(
                    self,
                )@,
                None => result == Ok::<(), Rejection>(()) && final(self)@ == old(self)@.after_bet(
                    bet_amount as nat,
                ),
            },
    {
        if bet_amount < 1 || bet_amount > MAX_BET {
            Err(Rejection::BetOutOfRange)
        } else if self.funds < bet_amount {
            Err(Rejection::InsufficientFunds)
        } else {
            self.bet_amount = bet_amount;
            self.funds -= bet_amount;
            self.state = GameState::HandSelection;
            Ok(())
        }
    }

    /// Takes a line of text from the player: the words `quit` and `exit`,
    /// in any case of letters, end the playing. Says whether the line was
    /// one of them.
    pub fn query_quit(&mut self, input: &String) -> (quits: bool)
        ensures
            quits == is_quit_word(lowercase_of(input@)),
            final(self)@ == (Table { playing: old(self)@.playing && !quits, ..old(self)@ }),
    {
        if asks_to_quit(input) {
            self.playing = false;
            true
        } else {
            false
        }
    }

    /// Confirms the bet: the bet leaves the funds, the deck is shuffled,
    /// no slot is held, five cards are dealt and the player selects. A bet
    /// that exceeds the funds is turned down, and nothing changes.
    pub fn confirm_bet(&mut self) -> (outcome: Outcome)
        requires
            old(self)@.coherent(),
            old(self)@.state == GameState::Betting,
        ensures
            exists|order: Seq<Card>| #[trigger]
                is_arrangement(order) && (final(self)@, outcome) == old(self)@.turn(
                    Intent::Confirm,
                    order,
                ),
            final(self)@.coherent(),
    {
        let ghost before = self@;
        if self.funds < self.bet_amount {
            proof {
                assert(is_arrangement(standard_deck()));
            }
            return Outcome::Rejected(Rejection::InsufficientFunds);
        }
        self.funds -= self.bet_amount;
        self.deck.shuffle_deck();
        let ghost order = self.deck.cards@;
        self.reset_selections();
        proof {
            lemma_occupied_slots(before.hand);
            to_multiset_len(before.discarded);
            assert(before.discarded =~= Seq::<Card>::empty());
            assert(before.cards_in_play() =~= before.deck.to_multiset());
            assert(is_arrangement(order));
            to_multiset_len(order);
            to_multiset_len(standard_deck());
        }
        self.deal();
        self.state = GameState::HandSelection;
        proof {
            assert(self@ == before.begin_round(order));
            lemma_turn_keeps_coherence(before, Intent::Confirm, order);
        }
        Outcome::Continue
    }

    /// Confirms the selection: the slots that are not held are dealt anew,
    /// the hand is classified, and what its category pays on the bet joins
    /// the funds.
    pub fn confirm_selection(&mut self) -> (outcome: Outcome)
        requires
            old(self)@.coherent(),
            old(self)@.state == GameState::HandSelection,
            old(self)@.within_limits(Intent::Confirm),
        ensures
            outcome == Outcome::Continue,
            final(self)@ == old(self)@.after_draw(),
            final(self)@.coherent(),
    {
        let ghost before = self@;
        proof {
            lemma_after_draw_is_coherent(before);
        }
        self.deal();
        self.state = GameState::PayOut;
        // check wins
        let prize = match self.hand.classify() {
            Ok(prize) => prize,
            Err(_) => None,
        };
        let amount = payout(prize, self.bet_amount);
        self.latest_prize = prize;
        self.latest_payout = amount;
        self.funds += amount;
        Outcome::Continue
    }

    /// Confirms the payout: without funds the game is over; else the next
    /// round begins, with all cards back in the shuffled deck.
    pub fn confirm_payout(&mut self) -> (outcome: Outcome)
        requires
            old(self)@.coherent(),
            old(self)@.state == GameState::PayOut,
            old(self)@.within_limits(Intent::Confirm),
        ensures
            exists|order: Seq<Card>| #[trigger]
                is_arrangement(order) && (final(self)@, outcome) == old(self)@.turn(
                    Intent::Confirm,
                    order,
                ),
            final(self)@.coherent(),
    {
        let ghost before = self@;
        if self.funds == 0 {
            self.state = GameState::GameOver;
            proof {
                assert(is_arrangement(standard_deck()));
            }
        } else {
            self.state = GameState::Betting;
            self.latest_prize = None;
            self.latest_payout = 0;
            self.round += 1;
            self.reset_deck_and_hand();
            proof {
                let order = self@.deck;
                assert(is_arrangement(order));
                assert(self@ == before.next_round(order));
                lemma_turn_keeps_coherence(before, Intent::Confirm, order);
            }
        }
        Outcome::Continue
    }

    /// Carries out one request of the player and says what the caller does
    /// next. In a state in which the request has no meaning, nothing
    /// changes.
    pub fn step(&mut self, intent: Intent) -> (outcome: Outcome)
        requires
            old(self)@.coherent(),
            old(self)@.within_limits(intent),
        ensures
            exists|order: Seq<Card>| #[trigger]
                is_arrangement(order) && (final(self)@, outcome) == old(self)@.turn(intent, order),
            final(self)@.coherent(),
    {
        let ghost before = self@;
        proof {
            assert(is_arrangement(standard_deck()));
            lemma_turn_keeps_coherence(before, intent, standard_deck());
        }
        match intent {
            Intent::Quit => Outcome::EndSession,
            Intent::Confirm => match self.state {
                GameState::Betting => self.confirm_bet(),
                GameState::HandSelection => self.confirm_selection(),
                GameState::PayOut => self.confirm_payout(),
                GameState::GameOver => Outcome::Continue,
            },
            Intent::CycleBet => {
                if self.state == GameState::Betting {
                    self.cycle_bet_amount();
                }
                Outcome::Continue
            },
            Intent::ToggleHold => {
                if self.state == GameState::HandSelection {
                    self.toggle_selection();
                }
                Outcome::Continue
            },
            Intent::CursorLeft => {
                if self.state == GameState::HandSelection {
                    // move selector left
                    if self.selector > 0 {
                        self.selector -= 1;
                    }
                }
                Outcome::Continue
            },
            Intent::CursorRight => {
                if self.state == GameState::HandSelection {
                    // move selector right
                    if self.selector < 4 {
                        self.selector += 1;
                    }
                }
                Outcome::Continue
            },
            Intent::NewGame => {
                if self.state == GameState::GameOver {
                    self.reset_game();
                }
                Outcome::Continue
            },
            Intent::Decline => {
                if self.state == GameState::GameOver {
                    Outcome::EndSession
                } else {
                    Outcome::Continue
                }
            },
        }
    }

    /// Carries out what a key press asks for. A key that stands for no
    /// request changes nothing.
    pub fn handle_key(&mut self, key: Key) -> (outcome: Outcome)
        requires
            old(self)@.coherent(),
            intent_of(key) matches Some(intent) ==> old(self)@.within_limits(intent),
        ensures
            match intent_of(key) {
                Some(intent) => exists|order: Seq<Card>| #[trigger]
                    is_arrangement(order) && (final(self)@, outcome) == old(self)@.turn(intent, order),
                None => final(self)@ == old(self)@ && outcome == Outcome::Continue,
            },
            final(self)@.coherent(),
    {
        match intent_for_key(key) {
            Some(intent) => self.step(intent),
            None => Outcome::Continue,
        }
    }
}

} // verus!
