use stakeable::{
    begin_withdrawal, is_staking_tag, on_balance_response, on_incoming_transfer,
    on_transfer_response, request_balance_query, DepositOutcome, Ledger, OrchestrationState,
    RateConfig, StakingError,
};

const ALICE: u64 = 11;
const REQ: u64 = 4242;

fn point_one_percent_per_hour() -> RateConfig {
    RateConfig::new(1, 1000, 24)
}

#[test]
fn staking_tag_is_recognised() {
    assert!(is_staking_tag("staking"));
    assert!(!is_staking_tag("Staking"));
    assert!(!is_staking_tag("stake"));
    assert!(!is_staking_tag("staking "));
    assert!(!is_staking_tag(""));
}

#[test]
fn deposit_with_unrecognized_tag_changes_nothing() {
    let mut ledger = Ledger::new();
    let r = on_incoming_transfer(&mut ledger, ALICE, 1000, "airdrop", 5);
    assert_eq!(r, DepositOutcome::Unrecognized);
    assert_eq!(ledger, Ledger::new());
}

#[test]
fn deposit_of_zero_is_rejected() {
    let mut ledger = Ledger::new();
    let r = on_incoming_transfer(&mut ledger, ALICE, 0, "staking", 5);
    assert_eq!(r, DepositOutcome::Rejected { reason: StakingError::ZeroAmount });
    assert_eq!(ledger, Ledger::new());
}

#[test]
fn deposit_opens_a_stake() {
    let mut ledger = Ledger::new();
    let r = on_incoming_transfer(&mut ledger, ALICE, 1000, "staking", 5);
    assert_eq!(r, DepositOutcome::Accepted { index: 0 });
    assert!(ledger.has_stake(ALICE));
    let r2 = on_incoming_transfer(&mut ledger, ALICE, 500, "staking", 9);
    assert_eq!(r2, DepositOutcome::Accepted { index: 1 });
}

#[test]
fn withdrawal_happy_path_commits_after_confirmation() {
    let config = point_one_percent_per_hour();
    let mut ledger = Ledger::new();
    let t0 = 0;
    let t1 = 7_200_000;
    on_incoming_transfer(&mut ledger, ALICE, 1000, "staking", t0);

    let req = begin_withdrawal(&ledger, &config, REQ, ALICE, 0, 1000, t1).unwrap();
    assert_eq!(req.state, OrchestrationState::Initiated);
    assert_eq!(req.payout, 1002);

    let (req, audit) = request_balance_query(req, t1);
    assert_eq!(req.state, OrchestrationState::BalanceQueried);
    assert_eq!(audit.request_id, REQ);
    assert_eq!(audit.prior_state, OrchestrationState::Initiated);
    assert_eq!(audit.new_state, OrchestrationState::BalanceQueried);
    assert_eq!(audit.timestamp, t1);

    let (req, audit) = on_balance_response(req, 5_000, t1);
    assert_eq!(req.state, OrchestrationState::TransferRequested);
    assert_eq!(audit.prior_state, OrchestrationState::BalanceQueried);
    assert_eq!(audit.new_state, OrchestrationState::TransferRequested);

    let (paid, req, audit) = on_transfer_response(&mut ledger, &config, req, true, t1);
    assert_eq!(paid, Ok(1002));
    assert_eq!(req.state, OrchestrationState::Completed);
    assert_eq!(audit.prior_state, OrchestrationState::TransferRequested);
    assert_eq!(audit.new_state, OrchestrationState::Completed);
    assert!(!ledger.has_stake(ALICE));
}

#[test]
fn balance_denial_rolls_back_without_ledger_change() {
    let config = point_one_percent_per_hour();
    let mut ledger = Ledger::new();
    on_incoming_transfer(&mut ledger, ALICE, 1000, "staking", 0);
    let before = ledger.clone();

    let req = begin_withdrawal(&ledger, &config, REQ, ALICE, 0, 1000, 7_200_000).unwrap();
    let (req, _) = request_balance_query(req, 7_200_000);
    let (req, audit) = on_balance_response(req, 1001, 7_200_000);
    assert_eq!(req.state, OrchestrationState::RolledBack);
    assert_eq!(audit.new_state, OrchestrationState::RolledBack);
    assert_eq!(ledger, before);
}

#[test]
fn transfer_failure_leaves_ledger_identical() {
    // If the requested transfer ends in failure, the ledger afterwards is
    // bit-for-bit the ledger from before the attempt began.
    let config = point_one_percent_per_hour();
    let mut ledger = Ledger::new();
    on_incoming_transfer(&mut ledger, ALICE, 1000, "staking", 0);
    let before = ledger.clone();

    let req = begin_withdrawal(&ledger, &config, REQ, ALICE, 0, 600, 7_200_000).unwrap();
    let (req, _) = request_balance_query(req, 7_200_000);
    let (req, _) = on_balance_response(req, 10_000, 7_200_000);
    assert_eq!(req.state, OrchestrationState::TransferRequested);

    let (paid, req, audit) = on_transfer_response(&mut ledger, &config, req, false, 7_200_001);
    assert_eq!(paid, Err(StakingError::ExternalServiceFailure));
    assert_eq!(req.state, OrchestrationState::RolledBack);
    assert_eq!(audit.new_state, OrchestrationState::RolledBack);
    assert_eq!(ledger, before);

    // The stake is simply untouched and a retry can succeed.
    let retry = begin_withdrawal(&ledger, &config, REQ + 1, ALICE, 0, 600, 7_200_000).unwrap();
    assert_eq!(retry.payout, 602);
}

#[test]
fn begin_withdrawal_rejects_overdraw() {
    let config = point_one_percent_per_hour();
    let mut ledger = Ledger::new();
    on_incoming_transfer(&mut ledger, ALICE, 1000, "staking", 0);
    let r = begin_withdrawal(&ledger, &config, REQ, ALICE, 0, 1001, 1);
    assert_eq!(r, Err(StakingError::InsufficientStake));
}

#[test]
fn begin_withdrawal_unknown_account() {
    let config = point_one_percent_per_hour();
    let ledger = Ledger::new();
    let r = begin_withdrawal(&ledger, &config, REQ, ALICE, 0, 1, 1);
    assert_eq!(r, Err(StakingError::UnknownAccount));
}

#[test]
fn concurrent_second_withdrawal_requotes_against_reduced_principal() {
    // Two requests quote against the same entry; after the first commits, the
    // second's commit must fail rather than under-deduct.
    let config = point_one_percent_per_hour();
    let mut ledger = Ledger::new();
    on_incoming_transfer(&mut ledger, ALICE, 1000, "staking", 0);

    let first = begin_withdrawal(&ledger, &config, 1, ALICE, 0, 800, 0).unwrap();
    let second = begin_withdrawal(&ledger, &config, 2, ALICE, 0, 800, 0).unwrap();

    let (first, _) = request_balance_query(first, 0);
    let (first, _) = on_balance_response(first, 10_000, 0);
    let (paid, _, _) = on_transfer_response(&mut ledger, &config, first, true, 0);
    assert_eq!(paid, Ok(800));

    let (second, _) = request_balance_query(second, 0);
    let (second, _) = on_balance_response(second, 10_000, 0);
    let (paid2, second, _) = on_transfer_response(&mut ledger, &config, second, true, 0);
    assert_eq!(paid2, Err(StakingError::InsufficientStake));
    assert_eq!(second.state, OrchestrationState::RolledBack);

    // The remaining 200 are still there.
    let q = ledger.quote_withdrawal(ALICE, 0, &config, 0).unwrap();
    assert_eq!(q.principal_available, 200);
}
