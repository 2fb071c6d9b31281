//! The catalog of price-evolution patterns and their prior probabilities.

use vstd::prelude::*;

use crate::rational::{Rat, rat_wf};

verus! {

/// Possible patterns for the period.
#[derive(Debug, Copy, Clone, PartialEq, Eq, Structural, Hash)]
pub enum Pattern {
    Decreasing,
    Random,
    SmallSpike,
    LargeSpike,
}

/// The prior-probability table: the chance of `pat` occurring given the
/// previous period's pattern (`None` where it is unknown). Each row sums
/// to one; every entry is a fraction in lowest terms.
pub open spec fn prior_s(pat: Pattern, prev: Option<Pattern>) -> Rat {
    match prev {
        None => match pat {
            Pattern::Decreasing => Rat { num: 3, den: 20 },
            Pattern::Random => Rat { num: 7, den: 20 },
            Pattern::SmallSpike => Rat { num: 1, den: 4 },
            Pattern::LargeSpike => Rat { num: 1, den: 4 },
        },
        Some(Pattern::Decreasing) => match pat {
            Pattern::Decreasing => Rat { num: 1, den: 20 },
            Pattern::Random => Rat { num: 1, den: 4 },
            Pattern::SmallSpike => Rat { num: 1, den: 4 },
            Pattern::LargeSpike => Rat { num: 9, den: 20 },
        },
        Some(Pattern::Random) => match pat {
            Pattern::Decreasing => Rat { num: 3, den: 20 },
            Pattern::Random => Rat { num: 1, den: 5 },
            Pattern::SmallSpike => Rat { num: 7, den: 20 },
            Pattern::LargeSpike => Rat { num: 3, den: 10 },
        },
        Some(Pattern::SmallSpike) => match pat {
            Pattern::Decreasing => Rat { num: 3, den: 20 },
            Pattern::Random => Rat { num: 9, den: 20 },
            Pattern::SmallSpike => Rat { num: 3, den: 20 },
            Pattern::LargeSpike => Rat { num: 1, den: 4 },
        },
        Some(Pattern::LargeSpike) => match pat {
            Pattern::Decreasing => Rat { num: 1, den: 5 },
            Pattern::Random => Rat { num: 1, den: 2 },
            Pattern::SmallSpike => Rat { num: 1, den: 4 },
            Pattern::LargeSpike => Rat { num: 1, den: 20 },
        },
    }
}

/// Every prior is a positive fraction with small parts.
pub proof fn lemma_prior_bounds(pat: Pattern, prev: Option<Pattern>)
    ensures
        rat_wf(prior_s(pat, prev)),
        prior_s(pat, prev).num <= 9,
        prior_s(pat, prev).den <= 20,
{
}

impl Pattern {
    /// Prior probability of this pattern occurring, given the previous
    /// period's pattern.
    pub fn prior(&self, prev: Option<Pattern>) -> (r: Rat)
        ensures
            r == prior_s(*self, prev),
            rat_wf(r),
    {
        match prev {
            None => match self {
                Pattern::Decreasing => Rat { num: 3, den: 20 },
                Pattern::Random => Rat { num: 7, den: 20 },
                Pattern::SmallSpike => Rat { num: 1, den: 4 },
                Pattern::LargeSpike => Rat { num: 1, den: 4 },
            },
            Some(Pattern::Decreasing) => match self {
                Pattern::Decreasing => Rat { num: 1, den: 20 },
                Pattern::Random => Rat { num: 1, den: 4 },
                Pattern::SmallSpike => Rat { num: 1, den: 4 },
                Pattern::LargeSpike => Rat { num: 9, den: 20 },
            },
            Some(Pattern::Random) => match self {
                Pattern::Decreasing => Rat { num: 3, den: 20 },
                Pattern::Random => Rat { num: 1, den: 5 },
                Pattern::SmallSpike => Rat { num: 7, den: 20 },
                Pattern::LargeSpike => Rat { num: 3, den: 10 },
            },
            Some(Pattern::SmallSpike) => match self {
                Pattern::Decreasing => Rat { num: 3, den: 20 },
                Pattern::Random => Rat { num: 9, den: 20 },
                Pattern::SmallSpike => Rat { num: 3, den: 20 },
                Pattern::LargeSpike => Rat { num: 1, den: 4 },
            },
            Some(Pattern::LargeSpike) => match self {
                Pattern::Decreasing => Rat { num: 1, den: 5 },
                Pattern::Random => Rat { num: 1, den: 2 },
                Pattern::SmallSpike => Rat { num: 1, den: 4 },
                Pattern::LargeSpike => Rat { num: 1, den: 20 },
            },
        }
    }
}

} // verus!
