//! The reward-rate configuration consumed read-only by the ledger.

use vstd::prelude::*;

verus! {

/// The reward rate and token precision.
///
/// An entry earns `reward_numerator / reward_denominator` of its principal per
/// hour staked; with numerator 1 and denominator 1000 each token earns 0.1%
/// per hour. The configuration is immutable once constructed and must satisfy
/// [`RateConfig::wf`]: the denominator is never zero.
#[derive(Clone, Copy, Debug, PartialEq, Eq, Structural)]
pub struct RateConfig {
    /// Numerator of the hourly reward rate.
    pub reward_numerator: u64,
    /// Denominator of the hourly reward rate; always positive.
    pub reward_denominator: u64,
    /// Number of decimals of the staked token.
    pub decimals: u32,
}

impl RateConfig {
    /// The configuration invariant: the rate has a positive denominator.
    pub open spec fn wf(self) -> bool {
        self.reward_denominator > 0
    }

    /// Builds a configuration from a rate and a token precision.
    pub fn new(reward_numerator: u64, reward_denominator: u64, decimals: u32) -> (c: RateConfig)
        requires
            reward_denominator > 0,
        ensures
            c == (RateConfig { reward_numerator, reward_denominator, decimals }),
            c.wf(),
    {
        RateConfig { reward_numerator, reward_denominator, decimals }
    }

    /// The hourly reward rate as a `(numerator, denominator)` pair.
    pub fn reward_rate(&self) -> (r: (u64, u64))
        ensures
            r == (self.reward_numerator, self.reward_denominator),
    {
        (self.reward_numerator, self.reward_denominator)
    }

    /// The number of decimals of the staked token.
    pub fn decimals(&self) -> (d: u32)
        ensures
            d == self.decimals,
    {
        self.decimals
    }
}

} // verus!
