//! The winning hand categories and the paytable.

use vstd::prelude::*;

verus! {

/// A winning hand category, from the highest precedence to the lowest.
#[derive(Clone, Copy, PartialEq, Eq, Structural, Debug)]
pub enum Prize {
    StraightFlush,
    FourOfAKind,
    FullHouse,
    Flush,
    Straight,
    ThreeOfAKind,
    TwoPairs,
}

impl Prize {
    /// The paytable: the factor by which the category multiplies the bet.
    pub open spec fn spec_multiplier(self) -> nat {
        match self {
            Prize::StraightFlush => 40,
            Prize::FourOfAKind => 15,
            Prize::FullHouse => 7,
            Prize::Flush => 4,
            Prize::Straight => 3,
            Prize::ThreeOfAKind => 2,
            Prize::TwoPairs => 2,
        }
    }

    /// The display name of the category.
    pub open spec fn name(self) -> Seq<char> {
        match self {
            Prize::StraightFlush => "Straight flush"@,
            Prize::FourOfAKind => "Four-of-a-kind"@,
            Prize::FullHouse => "Full house"@,
            Prize::Flush => "Flush"@,
            Prize::Straight => "Straight"@,
            Prize::ThreeOfAKind => "Three-of-a-kind"@,
            Prize::TwoPairs => "Two pairs"@,
        }
    }

    /// The factor by which the category multiplies the bet.
    pub fn multiplier(&self) -> (factor: u32)
        ensures
            factor == self.spec_multiplier(),
    {
        match self {
            Prize::StraightFlush => 40,
            Prize::FourOfAKind => 15,
            Prize::FullHouse => 7,
            Prize::Flush => 4,
            Prize::Straight => 3,
            Prize::ThreeOfAKind => 2,
            Prize::TwoPairs => 2,
        }
    }

    /// The display name of the category.
    pub fn as_str(&self) -> (name: &'static str)
        ensures
            name@ == self.name(),
    {
        match self {
            Prize::StraightFlush => "Straight flush",
            Prize::FourOfAKind => "Four-of-a-kind",
            Prize::FullHouse => "Full house",
            Prize::Flush => "Flush",
            Prize::Straight => "Straight",
            Prize::ThreeOfAKind => "Three-of-a-kind",
            Prize::TwoPairs => "Two pairs",
        }
    }
}

/// The highest factor of the paytable.
pub const MAX_MULTIPLIER: u32 = 40;

/// What a hand of the given category pays on the given bet: the category's
/// factor times the bet, and nothing without a category.
pub open spec fn payout_of(prize: Option<Prize>, bet: nat) -> nat {
    match prize {
        Some(prize) => prize.spec_multiplier() * bet,
        None => 0,
    }
}

/// What a hand of the given category pays on the given bet.
pub fn payout(prize: Option<Prize>, bet: u32) -> (amount: u32)
    requires
        MAX_MULTIPLIER * bet <= u32::MAX,
    ensures
        amount == payout_of(prize, bet as nat),
        amount <= MAX_MULTIPLIER * bet,
{
    match prize {
        Some(prize) => {
            let factor = prize.multiplier();
            assert(factor * bet <= MAX_MULTIPLIER * bet) by (nonlinear_arith)
                requires
                    factor <= MAX_MULTIPLIER,
            ;
            factor * bet
        },
        None => 0,
    }
}

} // verus!
