//! The five-slot hand and the poker predicates over it.

use vstd::multiset::Multiset;
use vstd::prelude::*;
use crate::card::Card;
use crate::prize::Prize;
use crate::ranks::{insert_ascending, is_ascending, is_run, lemma_run_iff_sorted_steps, steps_by_one};

verus! {

/// Why a hand cannot be classified.
#[derive(Clone, Copy, PartialEq, Eq, Structural, Debug)]
pub enum HandError {
    /// A slot of the hand is empty.
    Incomplete,
}

/// Whether `values` holds `rank`.
fn contains_rank(values: &Vec<u8>, rank: u8) -> (found: bool)
    ensures
        found == values@.contains(rank),
{
    let mut i: usize = 0;
    while i < values.len()
        invariant
            i <= values.len(),
            forall|k: int| 0 <= k < i ==> values@[k] != rank,
        decreases values.len() - i,
    {
        if values[i] == rank {
            return true;
        }
        i += 1;
    }
    false
}

/// Whether `holds` is true of each of the five slots.
pub open spec fn every_slot(holds: spec_fn(int) -> bool) -> bool {
    holds(0) && holds(1) && holds(2) && holds(3) && holds(4)
}

/// Whether `holds` is true of one of the five slots at least.
pub open spec fn some_slot(holds: spec_fn(int) -> bool) -> bool {
    holds(0) || holds(1) || holds(2) || holds(3) || holds(4)
}

/// Five card slots, each occupied or empty.
pub struct Hand {
    pub cards: [Option<Card>; 5],
}

impl Hand {
    /// Whether every slot holds a card.
    pub open spec fn is_complete(self) -> bool {
        every_slot(|i: int| self.cards@[i] is Some)
    }

    /// Whether every slot is empty.
    pub open spec fn is_empty(self) -> bool {
        every_slot(|i: int| self.cards@[i] is None)
    }

    /// The hand with five empty slots.
    pub open spec fn empty() -> Hand {
        Hand { cards: [None::<Card>, None::<Card>, None::<Card>, None::<Card>, None::<Card>] }
    }

    /// The cards that slot `i` holds: one or none.
    pub open spec fn slot_cards(self, i: int) -> Multiset<Card> {
        match self.cards@[i] {
            Some(card) => Multiset::singleton(card),
            None => Multiset::empty(),
        }
    }

    /// The cards that the hand holds, whatever their slots.
    pub open spec fn card_multiset(self) -> Multiset<Card> {
        self.slot_cards(0).add(self.slot_cards(1)).add(self.slot_cards(2)).add(self.slot_cards(3)).add(
            self.slot_cards(4),
        )
    }

    /// The card of slot `i`, if the slot is among the first `n` and holds
    /// one.
    pub open spec fn slot_row(self, i: int, n: int) -> Seq<Card> {
        if i < n && self.cards@[i] is Some {
            seq![self.cards@[i]->0]
        } else {
            Seq::empty()
        }
    }

    /// The cards of the first `n` slots, in slot order.
    pub open spec fn cards_before(self, n: int) -> Seq<Card> {
        self.slot_row(0, n) + self.slot_row(1, n) + self.slot_row(2, n) + self.slot_row(3, n)
            + self.slot_row(4, n)
    }

    /// The number of occupied slots.
    pub open spec fn occupied_slots(self) -> nat {
        self.card_multiset().len()
    }

    /// The rank of the card in slot `i`.
    pub open spec fn rank(self, i: int) -> u8
        recommends
            0 <= i < 5,
            self.cards@[i] is Some,
    {
        self.cards@[i]->0.value
    }

    /// The suit of the card in slot `i`.
    pub open spec fn suit(self, i: int) -> char
        recommends
            0 <= i < 5,
            self.cards@[i] is Some,
    {
        self.cards@[i]->0.suit
    }

    /// The ranks of the five cards, in slot order.
    pub open spec fn ranks(self) -> Seq<u8>
        recommends
            self.is_complete(),
    {
        Seq::new(5, |i: int| self.rank(i))
    }

    /// One, if slot `i` is among the first `n` and its card has rank
    /// `rank`; else nothing.
    pub open spec fn rank_hit(self, rank: u8, i: int, n: int) -> nat {
        if i < n && self.rank(i) == rank {
            1
        } else {
            0
        }
    }

    /// The number of the first `n` slots whose card has rank `rank`.
    pub open spec fn rank_count_before(self, rank: u8, n: int) -> nat {
        self.rank_hit(rank, 0, n) + self.rank_hit(rank, 1, n) + self.rank_hit(rank, 2, n)
            + self.rank_hit(rank, 3, n) + self.rank_hit(rank, 4, n)
    }

    /// The number of slots whose card has rank `rank`.
    pub open spec fn rank_count(self, rank: u8) -> nat
        recommends
            self.is_complete(),
    {
        self.rank_count_before(rank, 5)
    }

    /// Whether the hand is complete and the rank of some card occurs in at
    /// least `size` slots.
    pub open spec fn has_rank_group(self, size: nat) -> bool {
        self.is_complete() && some_slot(|i: int| self.rank_count(self.rank(i)) >= size)
    }

    /// Four of a kind: some rank occurs in at least four of the five slots.
    pub open spec fn spec_is_four_of_a_kind(self) -> bool {
        self.has_rank_group(4)
    }

    /// Three of a kind: some rank occurs in at least three of the five
    /// slots.
    pub open spec fn spec_is_three_of_a_kind(self) -> bool {
        self.has_rank_group(3)
    }

    /// Flush: the hand is complete and all five cards share one suit.
    pub open spec fn spec_is_flush(self) -> bool {
        self.is_complete() && every_slot(|i: int| self.suit(i) == self.suit(0))
    }

    /// Whether the cards of slots `i` and `j` can stand in one run of five
    /// consecutive ranks: their ranks differ by less than five, and two
    /// cards do not share a rank.
    pub open spec fn in_one_run(self, i: int, j: int) -> bool {
        (i != j ==> self.rank(i) != self.rank(j)) && self.rank(i) - self.rank(j) < 5
    }

    /// Straight: the hand is complete and its ranks are a run of five
    /// consecutive values, whatever the suits: no rank occurs twice, and
    /// any two ranks differ by less than five. Ranks are a flat numeric
    /// line: the highest rank is not adjacent to the lowest.
    pub open spec fn spec_is_straight(self) -> bool {
        self.is_complete() && every_slot(|i: int| every_slot(|j: int| self.in_one_run(i, j)))
    }

    /// Straight flush: a straight whose cards share one suit.
    pub open spec fn spec_is_straight_flush(self) -> bool {
        self.spec_is_straight() && self.spec_is_flush()
    }

    /// Whether the hand holds three cards of three different ranks.
    pub open spec fn has_three_ranks(self) -> bool {
        some_slot(
            |i: int|
                some_slot(
                    |j: int|
                        some_slot(
                            |k: int|
                                self.rank(i) != self.rank(j) && self.rank(j) != self.rank(k)
                                    && self.rank(i) != self.rank(k),
                        ),
                ),
        )
    }

    /// Full house: a three of a kind with at most two distinct ranks in the
    /// hand.
    pub open spec fn spec_is_full_house(self) -> bool {
        self.spec_is_three_of_a_kind() && !self.has_three_ranks()
    }

    /// Two pairs: the hand is complete and holds two cards of different
    /// ranks whose ranks each occur in at least two slots. One rank in four
    /// slots is one pair, not two.
    pub open spec fn spec_is_two_pairs(self) -> bool {
        self.is_complete() && some_slot(
            |i: int|
                some_slot(
                    |j: int|
                        self.rank(i) != self.rank(j) && self.rank_count(self.rank(i)) >= 2
                            && self.rank_count(self.rank(j)) >= 2,
                ),
        )
    }

    /// The category of a complete hand: the first that matches, from the
    /// highest precedence to the lowest, or none.
    pub open spec fn spec_classify(self) -> Option<Prize> {
        if self.spec_is_straight_flush() {
            Some(Prize::StraightFlush)
        } else if self.spec_is_four_of_a_kind() {
            Some(Prize::FourOfAKind)
        } else if self.spec_is_full_house() {
            Some(Prize::FullHouse)
        } else if self.spec_is_flush() {
            Some(Prize::Flush)
        } else if self.spec_is_straight() {
            Some(Prize::Straight)
        } else if self.spec_is_three_of_a_kind() {
            Some(Prize::ThreeOfAKind)
        } else if self.spec_is_two_pairs() {
            Some(Prize::TwoPairs)
        } else {
            None
        }
    }

    /// Sorting settles whether a complete hand is a straight: it is one
    /// exactly when, with its ranks in ascending order, each rank is one
    /// greater than its predecessor.
    pub proof fn lemma_straight_by_sorting(self, sorted: Seq<u8>)
        requires
            self.is_complete(),
            sorted.to_multiset() == self.ranks().to_multiset(),
            is_ascending(sorted),
        ensures
            self.spec_is_straight() <==> steps_by_one(sorted),
    {
        let ranks = self.ranks();
        lemma_run_iff_sorted_steps(ranks, sorted);
        assert(ranks[0] == self.rank(0) && ranks[1] == self.rank(1) && ranks[2] == self.rank(2)
            && ranks[3] == self.rank(3) && ranks[4] == self.rank(4));
        if self.spec_is_straight() {
            assert forall|i: int, j: int| 0 <= i < 5 && 0 <= j < 5 implies self.in_one_run(i, j) by {}
        }
    }

    /// The hand with five empty slots.
    pub fn new() -> (hand: Hand)
        ensures
            hand == Hand::empty(),
    {
        Hand { cards: [None, None, None, None, None] }
    }

    /// Returns true, if any of the card slots is empty.
    pub fn has_nones(&self) -> (found: bool)
        ensures
            found == !self.is_complete(),
    {
        let mut i: usize = 0;
        while i < 5
            invariant
                i <= 5,
                forall|k: int| 0 <= k < i ==> (#[trigger] self.cards@[k]) is Some,
            decreases 5 - i,
        {
            match &self.cards[i] {
                Some(_) => {},
                None => {
                    return true;
                },
            }
            i += 1;
        }
        false
    }

    /// Whether every slot is empty.
    pub fn is_vacant(&self) -> (vacant: bool)
        ensures
            vacant == self.is_empty(),
    {
        let mut i: usize = 0;
        while i < 5
            invariant
                i <= 5,
                forall|k: int| 0 <= k < i ==> (#[trigger] self.cards@[k]) is None,
            decreases 5 - i,
        {
            match &self.cards[i] {
                Some(_) => {
                    return false;
                },
                None => {},
            }
            i += 1;
        }
        true
    }

    /// The number of cards of a complete hand that have rank `rank`.
    fn count_rank(&self, rank: u8) -> (count: usize)
        requires
            self.is_complete(),
        ensures
            count == self.rank_count(rank),
    {
        let mut count: usize = 0;
        let mut i: usize = 0;
        while i < 5
            invariant
                i <= 5,
                self.is_complete(),
                count == self.rank_count_before(rank, i as int),
            decreases 5 - i,
        {
            match &self.cards[i] {
                Some(card) => {
                    if card.value == rank {
                        count += 1;
                    }
                },
                None => {},
            }
            i += 1;
        }
        count
    }

    /// Whether the rank of some card occurs in at least `size` slots. An
    /// incomplete hand has no such group.
    fn has_group_of(&self, size: usize) -> (found: bool)
        ensures
            found == self.has_rank_group(size as nat),
    {
        if self.has_nones() {
            return false;
        }
        let mut i: usize = 0;
        while i < 5
            invariant
                i <= 5,
                self.is_complete(),
                forall|k: int| 0 <= k < i ==> self.rank_count(#[trigger] self.rank(k)) < size,
            decreases 5 - i,
        {
            match &self.cards[i] {
                Some(card) => {
                    // check how many times that card's rank is found
                    let count = self.count_rank(card.value);
                    if count >= size {
                        return true;
                    }
                },
                None => {},
            }
            i += 1;
        }
        false
    }

    /// Whether the hand is a four of a kind.
    pub fn is_four_of_a_kind(&self) -> (found: bool)
        ensures
            found == self.spec_is_four_of_a_kind(),
    {
        self.has_group_of(4)
    }

    /// Whether the hand is a three of a kind.
    pub fn is_three_of_a_kind(&self) -> (found: bool)
        ensures
            found == self.spec_is_three_of_a_kind(),
    {
        self.has_group_of(3)
    }

    /// Whether the hand is a flush.
    pub fn is_flush(&self) -> (found: bool)
        ensures
            found == self.spec_is_flush(),
    {
        let first_suit = match &self.cards[0] {
            Some(card) => card.suit,
            None => {
                return false;
            },
        };
        let mut i: usize = 1;
        while i < 5
            invariant
                1 <= i <= 5,
                self.cards@[0] is Some,
                first_suit == self.suit(0),
                forall|k: int| 0 <= k < i ==> (#[trigger] self.cards@[k]) is Some,
                forall|k: int| 0 <= k < i ==> #[trigger] self.suit(k) == first_suit,
            decreases 5 - i,
        {
            match &self.cards[i] {
                Some(card) => {
                    if first_suit != card.suit {
                        return false;
                    }
                },
                None => {
                    return false;
                },
            }
            i += 1;
        }
        true
    }

    /// The ranks of a complete hand in ascending order.
    fn sorted_ranks(&self) -> (sorted: Vec<u8>)
        requires
            self.is_complete(),
        ensures
            sorted@.len() == 5,
            is_ascending(sorted@),
            sorted@.to_multiset() == self.ranks().to_multiset(),
    {
        let mut sorted: Vec<u8> = Vec::new();
        let mut i: usize = 0;
        assert(sorted@ =~= self.ranks().take(0));
        while i < 5
            invariant
                i <= 5,
                self.is_complete(),
                sorted@.len() == i,
                is_ascending(sorted@),
                sorted@.to_multiset() == self.ranks().take(i as int).to_multiset(),
            decreases 5 - i,
        {
            proof {
                let ranks = self.ranks();
                assert(ranks.take(i + 1) =~= ranks.take(i as int).push(ranks[i as int]));
                vstd::seq_lib::to_multiset_build(ranks.take(i as int), ranks[i as int]);
            }
            match &self.cards[i] {
                Some(card) => {
                    insert_ascending(&mut sorted, card.value);
                },
                None => {},
            }
            i += 1;
        }
        proof {
            assert(self.ranks().take(5) =~= self.ranks());
        }
        sorted
    }

    /// Whether the hand is a straight.
    pub fn is_straight(&self) -> (found: bool)
        ensures
            found == self.spec_is_straight(),
    {
        if self.has_nones() {
            // Not enough cards in hand for a straight
            return false;
        }
        let sorted = self.sorted_ranks();
        proof {
            self.lemma_straight_by_sorting(sorted@);
        }
        let mut curr_value: u8 = sorted[0];
        let mut i: usize = 1;
        while i < 5
            invariant
                1 <= i <= 5,
                sorted@.len() == 5,
                is_ascending(sorted@),
                self.spec_is_straight() <==> steps_by_one(sorted@),
                curr_value == sorted@[i - 1],
                forall|k: int| 0 <= k < i - 1 ==> #[trigger] sorted@[k + 1] == sorted@[k] + 1,
            decreases 5 - i,
        {
            let next_value = sorted[i];
            if next_value - curr_value != 1 {
                assert(sorted@[(i - 1) + 1] != sorted@[i - 1] + 1);
                return false;
            }
            curr_value = next_value;
            i += 1;
        }
        true
    }

    /// Whether the hand is a straight flush.
    pub fn is_straight_flush(&self) -> (found: bool)
        ensures
            found == self.spec_is_straight_flush(),
    {
        self.is_straight() && self.is_flush()
    }

    /// Whether the hand is a full house.
    pub fn is_full_house(&self) -> (found: bool)
        ensures
            found == self.spec_is_full_house(),
    {
        if self.is_three_of_a_kind() {
            // check that there are only two kinds of ranks in hand
            let mut unique_values: Vec<u8> = Vec::new();
            let ghost mut slots: Seq<int> = Seq::empty();
            let mut i: usize = 0;
            while i < 5
                invariant
                    i <= 5,
                    self.spec_is_three_of_a_kind(),
                    unique_values@.len() <= 2,
                    unique_values@.no_duplicates(),
                    forall|k: int| 0 <= k < i ==> unique_values@.contains(#[trigger] self.rank(k)),
                    slots.len() == unique_values@.len(),
                    forall|j: int|
                        0 <= j < slots.len() ==> 0 <= #[trigger] slots[j] < 5 && self.rank(slots[j])
                            == unique_values@[j],
                decreases 5 - i,
            {
                match &self.cards[i] {
                    Some(card) => {
                        if !contains_rank(&unique_values, card.value) {
                            let ghost before = unique_values@;
                            unique_values.push(card.value);
                            proof {
                                slots = slots.push(i as int);
                                assert forall|k: int| 0 <= k < i implies unique_values@.contains(
                                    #[trigger] self.rank(k),
                                ) by {
                                    let j = choose|j: int|
                                        0 <= j < before.len() && before[j] == self.rank(k);
                                    assert(unique_values@[j] == self.rank(k));
                                }
                                assert(unique_values@[before.len() as int] == self.rank(i as int));
                            }
                        }
                    },
                    None => {},
                }
                if unique_values.len() > 2 {
                    proof {
                        // three different ranks, each the rank of a card
                        assert(self.rank(slots[0]) == unique_values@[0]);
                        assert(self.rank(slots[1]) == unique_values@[1]);
                        assert(self.rank(slots[2]) == unique_values@[2]);
                    }
                    return false;
                }
                i += 1;
            }
            return true;
        }
        false
    }

    /// Whether the hand holds two pairs.
    pub fn is_two_pairs(&self) -> (found: bool)
        ensures
            found == self.spec_is_two_pairs(),
    {
        if self.has_nones() {
            return false;
        }
        let mut pairs_count: u8 = 0;
        let mut first_pair_value: u8 = 0;
        let ghost mut first_slot: int = 0;
        let mut i: usize = 0;
        while i < 5
            invariant
                i <= 5,
                self.is_complete(),
                pairs_count <= 1,
                pairs_count == 1 ==> 0 <= first_slot < 5 && self.rank(first_slot) == first_pair_value
                    && self.rank_count(first_pair_value) >= 2,
                forall|k: int|
                    0 <= k < i && self.rank_count(#[trigger] self.rank(k)) >= 2 ==> pairs_count == 1
                        && self.rank(k) == first_pair_value,
            decreases 5 - i,
        {
            match &self.cards[i] {
                Some(card) => {
                    // check how many times that card's rank is found
                    let count = self.count_rank(card.value);
                    if count >= 2 && (pairs_count == 0 || card.value != first_pair_value) {
                        proof {
                            first_slot = i as int;
                        }
                        pairs_count += 1;
                        first_pair_value = card.value;
                    }
                },
                None => {},
            }
            if pairs_count >= 2 {
                return true;
            }
            i += 1;
        }
        false
    }

    /// Classifies the hand: the first category that matches, from the
    /// highest precedence to the lowest, or none. An incomplete hand has no
    /// classification.
    pub fn classify(&self) -> (result: Result<Option<Prize>, HandError>)
        ensures
            result == (if self.is_complete() {
                Ok::<Option<Prize>, HandError>(self.spec_classify())
            } else {
                Err::<Option<Prize>, HandError>(HandError::Incomplete)
            }),
    {
        if self.has_nones() {
            return Err(HandError::Incomplete);
        }
        if self.is_straight_flush() {
            Ok(Some(Prize::StraightFlush))
        } else if self.is_four_of_a_kind() {
            Ok(Some(Prize::FourOfAKind))
        } else if self.is_full_house() {
            Ok(Some(Prize::FullHouse))
        } else if self.is_flush() {
            Ok(Some(Prize::Flush))
        } else if self.is_straight() {
            Ok(Some(Prize::Straight))
        } else if self.is_three_of_a_kind() {
            Ok(Some(Prize::ThreeOfAKind))
        } else if self.is_two_pairs() {
            Ok(Some(Prize::TwoPairs))
        } else {
            Ok(None)
        }
    }
}

} // verus!
