//! A staking ledger with time-weighted reward accrual and an explicit
//! withdrawal orchestration state machine.
//!
//! The crate tracks, per account, a list of stake entries. Each entry is one
//! deposit with its own accrual clock: rewards grow linearly with the time the
//! principal has been staked, at a rate given by a [`config::RateConfig`].
//! Withdrawal is coordinated as a multi-step protocol against an external
//! token service; the ledger is mutated only after the external transfer is
//! confirmed, so a failed transfer never needs a compensating write.

pub mod config;
pub mod errors;
pub mod ledger;
pub mod orchestrator;
pub mod reward;

pub use config::RateConfig;
pub use errors::StakingError;
pub use ledger::{Ledger, StakeAccount, StakeEntry, StakingSummary, WithdrawalQuote};
pub use orchestrator::{
    begin_withdrawal, is_staking_tag, on_balance_response, on_incoming_transfer,
    on_transfer_response, request_balance_query, AuditRecord, DepositOutcome, OrchestrationState,
    WithdrawalRequest,
};
pub use reward::{reward, ONE_HOUR_MS};
