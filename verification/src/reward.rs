//! The reward calculator: how much a stake entry has earned by a given time.

use vstd::arithmetic::div_mod::{lemma_div_is_ordered, lemma_div_pos_is_pos};
use vstd::arithmetic::mul::{lemma_mul_inequality, lemma_mul_nonnegative};
use vstd::prelude::*;

use crate::config::RateConfig;
use crate::errors::StakingError;
use crate::ledger::StakeEntry;

verus! {

/// Milliseconds in one hour: the unit of the reward rate.
pub const ONE_HOUR_MS: u64 = 3_600_000;

/// The reward owed after `elapsed_ms` milliseconds, as an unbounded integer:
/// the exact rational `elapsed_ms * principal * numerator / (hour * denominator)`
/// floored once, at the final division. The divisor's first factor is
/// [`ONE_HOUR_MS`], written as a literal so that concrete values evaluate.
pub open spec fn reward_value(
    principal: u128,
    numerator: u64,
    denominator: u64,
    elapsed_ms: u64,
) -> int {
    (elapsed_ms * principal * numerator) / (3_600_000 * denominator)
}

/// Whether the product `elapsed_ms * principal * numerator` exceeds the
/// 128-bit range, so that no staged 128-bit multiplication can carry it.
pub open spec fn reward_overflows(principal: u128, numerator: u64, elapsed_ms: u64) -> bool {
    elapsed_ms * principal * numerator > u128::MAX
}

/// Computes the reward owed to `entry` at clock reading `now`.
///
/// The multiplications happen before the single flooring division, so the
/// result is the exact rational value floored once; staged 128-bit
/// multiplications with overflow checks guard the product.
pub fn reward(entry: &StakeEntry, config: &RateConfig, now: u64) -> (r: Result<
    u128,
    StakingError,
>)
    requires
        config.wf(),
    ensures
        r == Err::<u128, StakingError>(StakingError::InvalidTimestamp) <==> now < entry.opened_at,
        r == Err::<u128, StakingError>(StakingError::ArithmeticOverflow) <==> (now
            >= entry.opened_at && reward_overflows(
            entry.principal,
            config.reward_numerator,
            (now - entry.opened_at) as u64,
        )),
        r is Ok <==> (now >= entry.opened_at && !reward_overflows(
            entry.principal,
            config.reward_numerator,
            (now - entry.opened_at) as u64,
        )),
        r matches Ok(v) ==> v == reward_value(
            entry.principal,
            config.reward_numerator,
            config.reward_denominator,
            (now - entry.opened_at) as u64,
        ),
{
    if now < entry.opened_at {
        return Err(StakingError::InvalidTimestamp);
    }
    let elapsed_ms: u64 = now - entry.opened_at;
    proof {
        assert((ONE_HOUR_MS as u128) * (config.reward_denominator as u128) <= u128::MAX)
            by (nonlinear_arith)
            requires
                0 <= ONE_HOUR_MS <= 3_600_000,
                config.reward_denominator <= u64::MAX,
        ;
    }
    let divisor: u128 = (ONE_HOUR_MS as u128) * (config.reward_denominator as u128);
    assert(divisor >= 1) by (nonlinear_arith)
        requires
            ONE_HOUR_MS >= 1,
            config.reward_denominator >= 1,
            divisor == ONE_HOUR_MS * config.reward_denominator,
    ;
    if elapsed_ms == 0 || entry.principal == 0 || config.reward_numerator == 0 {
        // One factor is zero, so the exact product is zero: no overflow is
        // possible and the floored quotient is zero.
        proof {
            let p = entry.principal;
            let n = config.reward_numerator;
            let den = config.reward_denominator;
            assert(elapsed_ms * p * n == 0) by (nonlinear_arith)
                requires
                    elapsed_ms == 0 || p == 0 || n == 0,
            ;
            assert((elapsed_ms * p * n) / (ONE_HOUR_MS * den) == 0) by (nonlinear_arith)
                requires
                    elapsed_ms * p * n == 0,
                    ONE_HOUR_MS * den >= 1,
            ;
        }
        return Ok(0);
    }
    let staked_time = match (elapsed_ms as u128).checked_mul(entry.principal) {
        Some(p) => p,
        None => {
            // elapsed_ms * principal already exceeds the range, and the third
            // factor is at least one, so the full product does too.
            proof {
                let p = entry.principal;
                let n = config.reward_numerator;
                assert(elapsed_ms * p <= elapsed_ms * p * n) by (nonlinear_arith)
                    requires
                        elapsed_ms >= 1 && p >= 1 && n >= 1,
                ;
            }
            return Err(StakingError::ArithmeticOverflow);
        },
    };
    let product = match staked_time.checked_mul(config.reward_numerator as u128) {
        Some(p) => p,
        None => {
            return Err(StakingError::ArithmeticOverflow);
        },
    };
    Ok(product / divisor)
}

/// A zero-width accrual window earns nothing, whatever the principal and the
/// rate.
pub proof fn lemma_zero_elapsed_zero_reward(principal: u128, numerator: u64, denominator: u64)
    requires
        denominator > 0,
    ensures
        reward_value(principal, numerator, denominator, 0) == 0,
{
    assert(0u64 * principal * numerator == 0) by (nonlinear_arith);
    assert((0u64 * principal * numerator) / (ONE_HOUR_MS * denominator) == 0) by (nonlinear_arith)
        requires
            0u64 * principal * numerator == 0,
            ONE_HOUR_MS * denominator >= 1,
    ;
}

/// The reward is never negative, and for a fixed entry and configuration it is
/// monotonically non-decreasing in the clock reading `now`.
pub proof fn lemma_reward_monotonic(
    principal: u128,
    numerator: u64,
    denominator: u64,
    opened_at: u64,
    now1: u64,
    now2: u64,
)
    requires
        denominator > 0,
        opened_at <= now1 <= now2,
    ensures
        0 <= reward_value(principal, numerator, denominator, (now1 - opened_at) as u64),
        reward_value(principal, numerator, denominator, (now1 - opened_at) as u64)
            <= reward_value(principal, numerator, denominator, (now2 - opened_at) as u64),
{
    let e1 = (now1 - opened_at) as u64;
    let e2 = (now2 - opened_at) as u64;
    let d = ONE_HOUR_MS * (denominator as int);
    assert(0 < d) by (nonlinear_arith)
        requires
            denominator > 0,
            ONE_HOUR_MS >= 1,
            d == ONE_HOUR_MS * denominator,
    ;
    lemma_mul_nonnegative(e1 as int, principal as int);
    lemma_mul_nonnegative(e1 * principal, numerator as int);
    lemma_mul_inequality(e1 as int, e2 as int, principal as int);
    lemma_mul_inequality(e1 * principal, e2 * principal, numerator as int);
    lemma_div_pos_is_pos(e1 * principal * numerator, d);
    lemma_div_is_ordered(e1 * principal * numerator, e2 * principal * numerator, d);
}

} // verus!
