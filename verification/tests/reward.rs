use stakeable::{reward, RateConfig, StakeEntry, StakingError};

fn entry(principal: u128, opened_at: u64) -> StakeEntry {
    StakeEntry { owner: 1, principal, opened_at, accrued_snapshot: 0 }
}

#[test]
fn reward_exact_rate_one_hour() {
    // 1.5% per hour on 3000 for exactly one hour: 3000 * 15 / 1000 = 45,
    // floored once at the final division.
    let config = RateConfig::new(15, 1000, 24);
    let r = reward(&entry(3000, 0), &config, 3_600_000);
    assert_eq!(r, Ok(45));
}

#[test]
fn reward_two_hours_point_one_percent() {
    // 0.1% per hour on 1000 for two hours: 1000 * 2 * 1 / 1000 = 2.
    let config = RateConfig::new(1, 1000, 24);
    let r = reward(&entry(1000, 0), &config, 7_200_000);
    assert_eq!(r, Ok(2));
}

#[test]
fn reward_single_floor_not_staged_floors() {
    // Half an hour on 1000 at 1/1000 per hour is exactly 0.5 tokens: a
    // division floored per stage (elapsed/hour first) would also give 0 here,
    // so probe a case where the orders differ: 90 minutes on 1000 at 1/1000
    // is 1.5 -> 1, while flooring hours first (1 hour) gives 1 as well; use
    // 90 minutes on 3000 at 1/1000: exact 4.5 -> 4, hours-first gives 3.
    let config = RateConfig::new(1, 1000, 24);
    let r = reward(&entry(3000, 0), &config, 5_400_000);
    assert_eq!(r, Ok(4));
}

#[test]
fn reward_zero_elapsed_is_zero() {
    let config = RateConfig::new(15, 1000, 24);
    let r = reward(&entry(123_456, 777), &config, 777);
    assert_eq!(r, Ok(0));
}

#[test]
fn reward_zero_numerator_is_zero() {
    let config = RateConfig::new(0, 1000, 24);
    let r = reward(&entry(123_456, 0), &config, 36_000_000);
    assert_eq!(r, Ok(0));
}

#[test]
fn reward_invalid_timestamp() {
    let config = RateConfig::new(15, 1000, 24);
    let r = reward(&entry(1000, 5000), &config, 4999);
    assert_eq!(r, Err(StakingError::InvalidTimestamp));
}

#[test]
fn reward_overflow_is_reported() {
    // elapsed * principal alone exceeds the 128-bit range.
    let config = RateConfig::new(2, 1, 24);
    let r = reward(&entry(u128::MAX, 0), &config, 2);
    assert_eq!(r, Err(StakingError::ArithmeticOverflow));
}

#[test]
fn reward_monotonic_in_now() {
    let config = RateConfig::new(7, 333, 24);
    let e = entry(987_654_321, 1_000);
    let mut last = 0u128;
    for h in 0..20u64 {
        let now = 1_000 + h * 1_800_000;
        let r = reward(&e, &config, now).unwrap();
        assert!(r >= last);
        last = r;
    }
}

#[test]
fn rate_config_accessors() {
    let config = RateConfig::new(15, 1000, 24);
    assert_eq!(config.reward_rate(), (15, 1000));
    assert_eq!(config.decimals(), 24);
    assert_eq!(stakeable::ONE_HOUR_MS, 3_600_000);
}
