//! The transfer orchestrator: the state machine that coordinates the ledger
//! with an external token service.
//!
//! A withdrawal spans several suspension points: quote the claim, ask the
//! service whether it can source the payout, request the transfer, and act on
//! its confirmation. The ledger is mutated only at the terminal confirmation —
//! after the step with genuine external uncertainty — so a failed or denied
//! transfer rolls back by doing nothing at all. The functions here take every
//! external answer as a plain argument and decide the next state; the caller
//! performs the actual service calls between them.

use vstd::prelude::*;
use vstd::string::StringSliceAdditionalSpecFns;

use crate::config::RateConfig;
use crate::errors::StakingError;
use crate::ledger::{
    withdrawal_applied, withdrawal_outcome, Ledger, StakeEntry,
};

verus! {

/// The phases of one orchestrated transfer.
#[derive(Clone, Copy, Debug, PartialEq, Eq, Structural)]
pub enum OrchestrationState {
    /// The withdrawal was requested and quoted; nothing external happened yet.
    Initiated,
    /// The token service has been asked whether it can source the payout.
    BalanceQueried,
    /// The token service has been instructed to transfer the payout.
    TransferRequested,
    /// The transfer succeeded and the ledger commit is done. Terminal.
    Completed,
    /// The protocol stopped with the ledger exactly as it started. Terminal.
    RolledBack,
}

/// One observable state transition, for external audit.
#[derive(Clone, Copy, Debug, PartialEq, Eq, Structural)]
pub struct AuditRecord {
    /// The orchestration this transition belongs to.
    pub request_id: u64,
    /// The state the request was in before the transition.
    pub prior_state: OrchestrationState,
    /// The state the transition moved the request to.
    pub new_state: OrchestrationState,
    /// When the transition happened.
    pub timestamp: u64,
}

/// One in-flight withdrawal: what was asked, the payout fixed by the quote,
/// and how far the protocol has come.
#[derive(Clone, Copy, Debug, PartialEq, Eq, Structural)]
pub struct WithdrawalRequest {
    /// Identifies this orchestration in audit records.
    pub request_id: u64,
    /// The account withdrawing.
    pub owner: u64,
    /// The position of the entry being withdrawn from.
    pub index: usize,
    /// The principal to withdraw.
    pub amount: u128,
    /// The amount plus the reward quoted at initiation.
    pub payout: u128,
    /// How far the protocol has come.
    pub state: OrchestrationState,
}

/// How an incoming transfer notification was handled.
#[derive(Clone, Copy, Debug, PartialEq, Eq, Structural)]
pub enum DepositOutcome {
    /// The deposit was staked as a fresh entry at this position.
    Accepted { index: usize },
    /// The purpose tag was not the staking tag; nothing changed. This is
    /// lenient by design: the token service routes unrelated notifications
    /// through the same entry point.
    Unrecognized,
    /// The tag was recognised but the deposit was invalid; nothing changed.
    Rejected { reason: StakingError },
}

/// The bytes of the purpose tag that marks an incoming transfer as a stake
/// deposit: the ASCII string `staking`.
pub open spec fn staking_tag_bytes() -> Seq<u8> {
    seq![115u8, 116u8, 97u8, 107u8, 105u8, 110u8, 103u8]
}

/// Recognises the staking purpose tag on an incoming transfer message.
pub fn is_staking_tag(tag: &str) -> (b: bool)
    ensures
        b == (tag.spec_bytes() == staking_tag_bytes()),
{
    let bs = tag.as_bytes();
    if bs.len() != 7 {
        return false;
    }
    let b = bs[0] == 115 && bs[1] == 116 && bs[2] == 97 && bs[3] == 107 && bs[4] == 105 && bs[5]
        == 110 && bs[6] == 103;
    proof {
        if b {
            assert(tag.spec_bytes() =~= staking_tag_bytes());
        } else {
            assert(tag.spec_bytes() != staking_tag_bytes());
        }
    }
    b
}

/// Handles a transfer-with-message notification from the token service.
///
/// A tag other than the staking tag is not an error: the notification is
/// passed over with nothing changed. A recognised deposit of zero is rejected;
/// any other recognised deposit opens a fresh stake entry for the sender with
/// its own accrual clock. This path has no external side effect before the
/// ledger mutation, so it needs no rollback.
pub fn on_incoming_transfer(
    ledger: &mut Ledger,
    sender: u64,
    amount: u128,
    purpose_tag: &str,
    now: u64,
) -> (r: DepositOutcome)
    requires
        old(ledger).wf(),
    ensures
        final(ledger).wf(),
        purpose_tag.spec_bytes() != staking_tag_bytes() ==> r == DepositOutcome::Unrecognized
            && *final(ledger) == *old(ledger),
        purpose_tag.spec_bytes() == staking_tag_bytes() && amount == 0 ==> r
            == (DepositOutcome::Rejected { reason: StakingError::ZeroAmount }) && *final(ledger)
            == *old(ledger),
        purpose_tag.spec_bytes() == staking_tag_bytes() && amount > 0 ==> ({
            &&& r == (DepositOutcome::Accepted {
                index: old(ledger).entries_of(sender).len() as usize,
            })
            &&& final(ledger).entries_of(sender) == old(ledger).entries_of(sender).push(
                (StakeEntry { owner: sender, principal: amount, opened_at: now, accrued_snapshot: 0 }),
            )
            &&& forall|o: u64|
                o != sender ==> #[trigger] final(ledger).entries_of(o) == old(ledger).entries_of(o)
            &&& forall|o: u64|
                #[trigger] final(ledger).has_account(o) <==> (old(ledger).has_account(o) || o
                    == sender)
        }),
{
    if !is_staking_tag(purpose_tag) {
        return DepositOutcome::Unrecognized;
    }
    match ledger.open_or_extend(sender, amount, now) {
        Ok(index) => DepositOutcome::Accepted { index },
        Err(reason) => DepositOutcome::Rejected { reason },
    }
}

/// Begins a withdrawal: quotes the claim read-only and fixes the payout.
///
/// Every validation error is detected here, before any external call, with the
/// same policy as the commit itself ([`withdrawal_outcome`]); on success the
/// request starts in [`OrchestrationState::Initiated`] and the ledger has not
/// been touched.
pub fn begin_withdrawal(
    ledger: &Ledger,
    config: &RateConfig,
    request_id: u64,
    owner: u64,
    index: usize,
    amount: u128,
    now: u64,
) -> (r: Result<WithdrawalRequest, StakingError>)
    requires
        ledger.wf(),
        config.wf(),
    ensures
        match withdrawal_outcome(
            *ledger,
            owner,
            index,
            amount,
            config.reward_numerator,
            config.reward_denominator,
            now,
        ) {
            Ok(payout) => r == Ok::<WithdrawalRequest, StakingError>(
                WithdrawalRequest {
                    request_id,
                    owner,
                    index,
                    amount,
                    payout,
                    state: OrchestrationState::Initiated,
                },
            ),
            Err(err) => r == Err::<WithdrawalRequest, StakingError>(err),
        },
{
    let q = match ledger.quote_withdrawal(owner, index, config, now) {
        Ok(q) => q,
        Err(err) => {
            return Err(err);
        },
    };
    if amount > q.principal_available {
        return Err(StakingError::InsufficientStake);
    }
    let payout = match amount.checked_add(q.reward_owed) {
        Some(p) => p,
        None => {
            return Err(StakingError::ArithmeticOverflow);
        },
    };
    Ok(
        WithdrawalRequest {
            request_id,
            owner,
            index,
            amount,
            payout,
            state: OrchestrationState::Initiated,
        },
    )
}

/// Moves an initiated request to the balance-query step.
///
/// The caller then asks the token service whether it can source the payout and
/// feeds the answer to [`on_balance_response`].
pub fn request_balance_query(req: WithdrawalRequest, now: u64) -> (r: (
    WithdrawalRequest,
    AuditRecord,
))
    requires
        req.state == OrchestrationState::Initiated,
    ensures
        r.0 == (WithdrawalRequest { state: OrchestrationState::BalanceQueried, ..req }),
        r.1 == (AuditRecord {
            request_id: req.request_id,
            prior_state: OrchestrationState::Initiated,
            new_state: OrchestrationState::BalanceQueried,
            timestamp: now,
        }),
{
    let next = WithdrawalRequest { state: OrchestrationState::BalanceQueried, ..req };
    let audit = AuditRecord {
        request_id: req.request_id,
        prior_state: OrchestrationState::Initiated,
        new_state: OrchestrationState::BalanceQueried,
        timestamp: now,
    };
    (next, audit)
}

/// Decides on the token service's balance answer.
///
/// Enough balance to source the payout moves the request to the transfer step;
/// a denial rolls it back — and since no ledger mutation has happened yet,
/// there is nothing to compensate.
pub fn on_balance_response(req: WithdrawalRequest, available: u128, now: u64) -> (r: (
    WithdrawalRequest,
    AuditRecord,
))
    requires
        req.state == OrchestrationState::BalanceQueried,
    ensures
        available >= req.payout ==> r.0 == (WithdrawalRequest {
            state: OrchestrationState::TransferRequested,
            ..req
        }),
        available < req.payout ==> r.0 == (WithdrawalRequest {
            state: OrchestrationState::RolledBack,
            ..req
        }),
        r.1 == (AuditRecord {
            request_id: req.request_id,
            prior_state: OrchestrationState::BalanceQueried,
            new_state: r.0.state,
            timestamp: now,
        }),
{
    let next_state = if available >= req.payout {
        OrchestrationState::TransferRequested
    } else {
        OrchestrationState::RolledBack
    };
    let next = WithdrawalRequest { state: next_state, ..req };
    let audit = AuditRecord {
        request_id: req.request_id,
        prior_state: OrchestrationState::BalanceQueried,
        new_state: next_state,
        timestamp: now,
    };
    (next, audit)
}

/// Finishes the protocol on the token service's transfer confirmation.
///
/// Only now, after the step with external uncertainty, is the ledger touched:
/// on a confirmed transfer the withdrawal is committed and the request
/// completes. On a reported failure the request rolls back and the ledger is
/// bit-for-bit the ledger from before the attempt — mutation was deferred past
/// the uncertain step precisely so that rollback is a no-op. A commit refusal
/// (the entry changed since the quote) also rolls back with the ledger
/// untouched.
pub fn on_transfer_response(
    ledger: &mut Ledger,
    config: &RateConfig,
    req: WithdrawalRequest,
    success: bool,
    now: u64,
) -> (r: (Result<u128, StakingError>, WithdrawalRequest, AuditRecord))
    requires
        old(ledger).wf(),
        config.wf(),
        req.state == OrchestrationState::TransferRequested,
    ensures
        final(ledger).wf(),
        !success ==> ({
            &&& *final(ledger) == *old(ledger)
            &&& r.0 == Err::<u128, StakingError>(StakingError::ExternalServiceFailure)
            &&& r.1 == (WithdrawalRequest { state: OrchestrationState::RolledBack, ..req })
        }),
        success ==> ({
            &&& r.0 == withdrawal_outcome(
                *old(ledger),
                req.owner,
                req.index,
                req.amount,
                config.reward_numerator,
                config.reward_denominator,
                now,
            )
            &&& r.0 is Err ==> *final(ledger) == *old(ledger) && r.1 == (WithdrawalRequest {
                state: OrchestrationState::RolledBack,
                ..req
            })
            &&& r.0 is Ok ==> withdrawal_applied(
                *old(ledger),
                *final(ledger),
                req.owner,
                req.index,
                req.amount,
                now,
            ) && r.1 == (WithdrawalRequest { state: OrchestrationState::Completed, ..req })
        }),
        r.2 == (AuditRecord {
            request_id: req.request_id,
            prior_state: OrchestrationState::TransferRequested,
            new_state: r.1.state,
            timestamp: now,
        }),
{
    if !success {
        let next = WithdrawalRequest { state: OrchestrationState::RolledBack, ..req };
        let audit = AuditRecord {
            request_id: req.request_id,
            prior_state: OrchestrationState::TransferRequested,
            new_state: OrchestrationState::RolledBack,
            timestamp: now,
        };
        return (Err(StakingError::ExternalServiceFailure), next, audit);
    }
    match ledger.commit_withdrawal(req.owner, req.index, req.amount, config, now) {
        Ok(paid) => {
            let next = WithdrawalRequest { state: OrchestrationState::Completed, ..req };
            let audit = AuditRecord {
                request_id: req.request_id,
                prior_state: OrchestrationState::TransferRequested,
                new_state: OrchestrationState::Completed,
                timestamp: now,
            };
            (Ok(paid), next, audit)
        },
        Err(err) => {
            let next = WithdrawalRequest { state: OrchestrationState::RolledBack, ..req };
            let audit = AuditRecord {
                request_id: req.request_id,
                prior_state: OrchestrationState::TransferRequested,
                new_state: OrchestrationState::RolledBack,
                timestamp: now,
            };
            (Err(err), next, audit)
        },
    }
}

} // verus!
