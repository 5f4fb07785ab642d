//! The stake ledger: per-owner lists of stake entries, and the operations
//! that open, quote, commit and summarise stakes.

use vstd::prelude::*;

use crate::config::RateConfig;
use crate::errors::StakingError;
use crate::reward::{reward, reward_overflows, reward_value};

verus! {

/// One deposit's principal together with its own accrual clock.
///
/// `opened_at` is the clock reading from which reward time is measured; it is
/// reset on every partial withdrawal, so the remaining principal begins a
/// fresh accrual window. `accrued_snapshot` carries a reward snapshot in
/// summaries; it is zero on a freshly stored entry.
#[derive(Clone, Copy, Debug, PartialEq, Eq, Structural)]
pub struct StakeEntry {
    /// The account that owns this stake.
    pub owner: u64,
    /// The staked amount; positive while the entry exists.
    pub principal: u128,
    /// The accrual clock: when this entry last started earning.
    pub opened_at: u64,
    /// Reward snapshot filled in by [`Ledger::summary`]; zero when stored.
    pub accrued_snapshot: u128,
}

/// The ordered stake entries of one owner, indexed by position.
///
/// The position is the public handle a caller supplies to identify an entry.
/// It is not an entry identity: removal shifts the positions after it, so a
/// caller must re-query after any mutating operation.
#[derive(Clone, Debug, PartialEq, Eq)]
pub struct StakeAccount {
    /// The owner of every entry in `entries`.
    pub owner: u64,
    /// The owner's entries; never empty while the account exists.
    pub entries: Vec<StakeEntry>,
}

/// The ledger: each owner's stake account, with owners unique.
///
/// An account with no entries left is removed rather than kept empty, so a
/// present owner always has at least one entry.
#[derive(Clone, Debug, PartialEq, Eq)]
pub struct Ledger {
    /// The accounts, at most one per owner.
    pub accounts: Vec<StakeAccount>,
}

/// All stakes of one owner at a glance: the summed principal and each entry
/// with a live reward snapshot in its `accrued_snapshot` field.
#[derive(Clone, Debug, PartialEq, Eq)]
pub struct StakingSummary {
    /// The sum of the principals of all entries.
    pub total_principal: u128,
    /// The owner's entries, each with `accrued_snapshot` set to the reward it
    /// has earned by the summarised instant.
    pub entries: Vec<StakeEntry>,
}

/// What a withdrawal may claim from one entry: its principal and the reward
/// it has earned so far.
#[derive(Clone, Copy, Debug, PartialEq, Eq, Structural)]
pub struct WithdrawalQuote {
    /// The entry's full principal.
    pub principal_available: u128,
    /// The reward the entry has earned up to the quoted instant.
    pub reward_owed: u128,
}

/// The sum of the principals of a sequence of entries.
pub open spec fn sum_principals(es: Seq<StakeEntry>) -> int
    decreases es.len(),
{
    if es.len() == 0 {
        0
    } else {
        es[0].principal + sum_principals(es.drop_first())
    }
}

/// `e` with its reward snapshot at `now` filled in.
pub open spec fn entry_with_snapshot(
    e: StakeEntry,
    numerator: u64,
    denominator: u64,
    now: u64,
) -> StakeEntry {
    StakeEntry {
        owner: e.owner,
        principal: e.principal,
        opened_at: e.opened_at,
        accrued_snapshot: reward_value(
            e.principal,
            numerator,
            denominator,
            (now - e.opened_at) as u64,
        ) as u128,
    }
}

/// How a summary walks the entries, left to right: every entry must have a
/// valid clock and a representable reward, the principals accumulate into
/// `acc` without leaving the 128-bit range, and each entry comes back with its
/// reward snapshot filled in.
pub open spec fn summary_fold(
    es: Seq<StakeEntry>,
    numerator: u64,
    denominator: u64,
    now: u64,
    acc: u128,
) -> Result<(u128, Seq<StakeEntry>), StakingError>
    decreases es.len(),
{
    if es.len() == 0 {
        Ok((acc, Seq::empty()))
    } else {
        let e = es[0];
        if now < e.opened_at {
            Err(StakingError::InvalidTimestamp)
        } else if reward_overflows(e.principal, numerator, (now - e.opened_at) as u64) {
            Err(StakingError::ArithmeticOverflow)
        } else if acc + e.principal > u128::MAX {
            Err(StakingError::ArithmeticOverflow)
        } else {
            match summary_fold(
                es.drop_first(),
                numerator,
                denominator,
                now,
                (acc + e.principal) as u128,
            ) {
                Ok((total, rest)) => Ok(
                    (total, seq![entry_with_snapshot(e, numerator, denominator, now)] + rest),
                ),
                Err(err) => Err(err),
            }
        }
    }
}

/// What committing a withdrawal of `amount` from `owner`'s entry at `index`
/// pays out, or why it is refused: the single statement of the withdrawal
/// error policy, shared by the commit itself and by the orchestrator that
/// prepares it.
pub open spec fn withdrawal_outcome(
    l: Ledger,
    owner: u64,
    index: usize,
    amount: u128,
    numerator: u64,
    denominator: u64,
    now: u64,
) -> Result<u128, StakingError> {
    if !l.has_account(owner) {
        Err(StakingError::UnknownAccount)
    } else if index >= l.entries_of(owner).len() {
        Err(StakingError::IndexOutOfRange)
    } else {
        let e = l.entries_of(owner)[index as int];
        let rv = reward_value(e.principal, numerator, denominator, (now - e.opened_at) as u64);
        if now < e.opened_at {
            Err(StakingError::InvalidTimestamp)
        } else if reward_overflows(e.principal, numerator, (now - e.opened_at) as u64) {
            Err(StakingError::ArithmeticOverflow)
        } else if amount > e.principal {
            Err(StakingError::InsufficientStake)
        } else if amount + rv > u128::MAX {
            Err(StakingError::ArithmeticOverflow)
        } else {
            Ok((amount + rv) as u128)
        }
    }
}

/// How a committed withdrawal of `amount` at `index` transforms `owner`'s
/// entries: the principal shrinks by `amount` (never grows) and the accrual
/// clock restarts at `now`; a drained entry is removed, the account goes with
/// its last entry, and every other owner's view is untouched.
pub open spec fn withdrawal_applied(
    pre: Ledger,
    post: Ledger,
    owner: u64,
    index: usize,
    amount: u128,
    now: u64,
) -> bool {
    let e = pre.entries_of(owner)[index as int];
    &&& amount < e.principal ==> post.entries_of(owner) == pre.entries_of(owner).update(
        index as int,
        (StakeEntry {
            owner,
            principal: (e.principal - amount) as u128,
            opened_at: now,
            accrued_snapshot: e.accrued_snapshot,
        }),
    )
    &&& amount == e.principal ==> post.entries_of(owner) == pre.entries_of(owner).remove(
        index as int,
    )
    &&& forall|o: u64| o != owner ==> #[trigger] post.entries_of(o) == pre.entries_of(o)
    &&& forall|o: u64|
        #[trigger] post.has_account(o) <==> (pre.has_account(o) && !(o == owner && amount
            == e.principal && pre.entries_of(owner).len() == 1))
}

/// Prefixes already-processed snapshot entries onto a fold outcome.
pub open spec fn fold_prepend(
    prefix: Seq<StakeEntry>,
    r: Result<(u128, Seq<StakeEntry>), StakingError>,
) -> Result<(u128, Seq<StakeEntry>), StakingError> {
    match r {
        Ok((total, rest)) => Ok((total, prefix + rest)),
        Err(err) => Err(err),
    }
}

/// A successful summary fold returns the incoming accumulator plus the sum of
/// all principals, and one snapshot entry per input entry, in order.
pub proof fn lemma_summary_fold_ok(
    es: Seq<StakeEntry>,
    numerator: u64,
    denominator: u64,
    now: u64,
    acc: u128,
)
    requires
        summary_fold(es, numerator, denominator, now, acc) is Ok,
    ensures
        ({
            let (total, rest) = summary_fold(es, numerator, denominator, now, acc)->Ok_0;
            &&& total == acc + sum_principals(es)
            &&& rest.len() == es.len()
            &&& forall|i: int|
                0 <= i < es.len() ==> rest[i] == entry_with_snapshot(
                    es[i],
                    numerator,
                    denominator,
                    now,
                )
        }),
    decreases es.len(),
{
    if es.len() == 0 {
    } else {
        let e = es[0];
        let acc2 = (acc + e.principal) as u128;
        lemma_summary_fold_ok(es.drop_first(), numerator, denominator, now, acc2);
        let (total, rest) = summary_fold(es, numerator, denominator, now, acc)->Ok_0;
        let (t2, rest2) = summary_fold(es.drop_first(), numerator, denominator, now, acc2)->Ok_0;
        assert forall|i: int|
            0 <= i < es.len() implies rest[i] == entry_with_snapshot(
            es[i],
            numerator,
            denominator,
            now,
        ) by {
            if i > 0 {
                assert(rest[i] == rest2[i - 1]);
                assert(es.drop_first()[i - 1] == es[i]);
            }
        }
    }
}

impl StakeAccount {
    /// The account invariant: at least one entry, and every entry carries a
    /// positive principal and this account's owner.
    pub open spec fn wf(self) -> bool {
        &&& self.entries@.len() > 0
        &&& forall|i: int|
            0 <= i < self.entries@.len() ==> (#[trigger] self.entries@[i]).principal > 0
                && self.entries@[i].owner == self.owner
    }
}

impl Ledger {
    /// The ledger invariant: every account is well formed and owners are
    /// pairwise distinct.
    pub open spec fn wf(self) -> bool {
        &&& forall|i: int|
            0 <= i < self.accounts@.len() ==> (#[trigger] self.accounts@[i]).wf()
        &&& forall|i: int, j: int|
            0 <= i < self.accounts@.len() && 0 <= j < self.accounts@.len() && i != j
                ==> (#[trigger] self.accounts@[i]).owner != (#[trigger] self.accounts@[j]).owner
    }

    /// Whether `owner` currently has a stake account.
    pub open spec fn has_account(self, owner: u64) -> bool {
        exists|i: int|
            0 <= i < self.accounts@.len() && (#[trigger] self.accounts@[i]).owner == owner
    }

    /// The position of `owner`'s account; meaningful only when
    /// [`Ledger::has_account`] holds.
    pub open spec fn account_index(self, owner: u64) -> int {
        choose|i: int|
            0 <= i < self.accounts@.len() && (#[trigger] self.accounts@[i]).owner == owner
    }

    /// The abstract view of the ledger at one owner: that owner's entry
    /// sequence, empty when the owner has no account.
    pub open spec fn entries_of(self, owner: u64) -> Seq<StakeEntry> {
        if self.has_account(owner) {
            self.accounts@[self.account_index(owner)].entries@
        } else {
            Seq::empty()
        }
    }

    /// In a well-formed ledger, an index whose account carries `owner` is the
    /// unique index [`Ledger::account_index`] denotes.
    pub proof fn lemma_account_index_is(self, owner: u64, i: int)
        requires
            self.wf(),
            0 <= i < self.accounts@.len(),
            self.accounts@[i].owner == owner,
        ensures
            self.has_account(owner),
            self.account_index(owner) == i,
    {
        assert(self.has_account(owner));
        let j = self.account_index(owner);
        assert(0 <= j < self.accounts@.len() && self.accounts@[j].owner == owner);
    }

    /// Creates an empty ledger.
    pub fn new() -> (l: Ledger)
        ensures
            l.wf(),
            l.accounts@.len() == 0,
            forall|o: u64| !l.has_account(o),
    {
        Ledger { accounts: Vec::new() }
    }

    /// Finds the position of `owner`'s account, if any.
    fn find_account(&self, owner: u64) -> (r: Option<usize>)
        requires
            self.wf(),
        ensures
            match r {
                Some(i) => i < self.accounts@.len() && self.accounts@[i as int].owner == owner
                    && self.has_account(owner) && self.account_index(owner) == i,
                None => !self.has_account(owner),
            },
    {
        let n = self.accounts.len();
        let mut k: usize = 0;
        while k < n
            invariant
                self.wf(),
                n == self.accounts@.len(),
                k <= n,
                forall|j: int| 0 <= j < k ==> (#[trigger] self.accounts@[j]).owner != owner,
            decreases n - k,
        {
            if self.accounts[k].owner == owner {
                proof {
                    self.lemma_account_index_is(owner, k as int);
                }
                return Some(k);
            }
            k = k + 1;
        }
        None
    }

    /// Whether `owner` currently has any stake.
    pub fn has_stake(&self, owner: u64) -> (b: bool)
        requires
            self.wf(),
        ensures
            b == self.has_account(owner),
    {
        self.find_account(owner).is_some()
    }

    /// Opens a new stake entry for `owner`, creating the account when absent.
    ///
    /// Each deposit becomes a distinct entry with its own accrual clock; it is
    /// never merged with an existing entry. Returns the new entry's position.
    pub fn open_or_extend(&mut self, owner: u64, amount: u128, now: u64) -> (r: Result<
        usize,
        StakingError,
    >)
        requires
            old(self).wf(),
        ensures
            final(self).wf(),
            amount == 0 ==> r == Err::<usize, StakingError>(StakingError::ZeroAmount) && *final(self)
                == *old(self),
            amount > 0 ==> ({
                &&& r == Ok::<usize, StakingError>(old(self).entries_of(owner).len() as usize)
                &&& final(self).entries_of(owner) == old(self).entries_of(owner).push(
                    (StakeEntry { owner, principal: amount, opened_at: now, accrued_snapshot: 0 }),
                )
                &&& forall|o: u64|
                    o != owner ==> #[trigger] final(self).entries_of(o) == old(self).entries_of(o)
                &&& forall|o: u64|
                    #[trigger] final(self).has_account(o) <==> (old(self).has_account(o) || o
                        == owner)
            }),
    {
        if amount == 0 {
            return Err(StakingError::ZeroAmount);
        }
        let entry = StakeEntry { owner, principal: amount, opened_at: now, accrued_snapshot: 0 };
        match self.find_account(owner) {
            Some(i) => {
                let ghost pre = *self;
                let mut acct = self.accounts.remove(i);
                let idx = acct.entries.len();
                acct.entries.push(entry);
                self.accounts.insert(i, acct);
                proof {
                    assert(self.accounts@ =~= pre.accounts@.update(
                        i as int,
                        self.accounts@[i as int],
                    ));
                    lemma_entries_frame_update(pre, *self, i as int);
                }
                Ok(idx)
            },
            None => {
                let ghost pre = *self;
                let mut entries: Vec<StakeEntry> = Vec::new();
                entries.push(entry);
                self.accounts.push(StakeAccount { owner, entries });
                proof {
                    lemma_entries_frame_push(pre, *self);
                    assert(self.entries_of(owner) =~= pre.entries_of(owner).push(entry));
                }
                Ok(0)
            },
        }
    }

    /// Quotes what a withdrawal from `owner`'s entry at `index` could claim:
    /// the entry's principal and the reward it has earned by `now`.
    ///
    /// Read-only: repeated quoting never accrues anything. Mutation happens
    /// only through [`Ledger::commit_withdrawal`].
    pub fn quote_withdrawal(&self, owner: u64, index: usize, config: &RateConfig, now: u64) -> (r:
        Result<WithdrawalQuote, StakingError>)
        requires
            self.wf(),
            config.wf(),
        ensures
            r == Err::<WithdrawalQuote, StakingError>(StakingError::UnknownAccount)
                <==> !self.has_account(owner),
            self.has_account(owner) ==> (r == Err::<WithdrawalQuote, StakingError>(
                StakingError::IndexOutOfRange,
            ) <==> index >= self.entries_of(owner).len()),
            self.has_account(owner) && index < self.entries_of(owner).len() ==> ({
                let e = self.entries_of(owner)[index as int];
                &&& (r == Err::<WithdrawalQuote, StakingError>(StakingError::InvalidTimestamp)
                    <==> now < e.opened_at)
                &&& (r == Err::<WithdrawalQuote, StakingError>(StakingError::ArithmeticOverflow)
                    <==> (now >= e.opened_at && reward_overflows(
                    e.principal,
                    config.reward_numerator,
                    (now - e.opened_at) as u64,
                )))
                &&& (now >= e.opened_at && !reward_overflows(
                    e.principal,
                    config.reward_numerator,
                    (now - e.opened_at) as u64,
                )) ==> (r matches Ok(q) && q.principal_available == e.principal && q.reward_owed
                    == reward_value(
                    e.principal,
                    config.reward_numerator,
                    config.reward_denominator,
                    (now - e.opened_at) as u64,
                ))
            }),
    {
        let i = match self.find_account(owner) {
            Some(i) => i,
            None => {
                return Err(StakingError::UnknownAccount);
            },
        };
        if index >= self.accounts[i].entries.len() {
            return Err(StakingError::IndexOutOfRange);
        }
        let e = self.accounts[i].entries[index];
        match reward(&e, config, now) {
            Ok(v) => Ok(WithdrawalQuote { principal_available: e.principal, reward_owed: v }),
            Err(err) => Err(err),
        }
    }

    /// Commits a withdrawal of `amount` from `owner`'s entry at `index` and
    /// returns the payout: the withdrawn amount plus the reward earned by
    /// `now`.
    ///
    /// On success the entry's principal shrinks by `amount` and its accrual
    /// clock restarts at `now`; an entry drained to zero is removed, and so is
    /// the account once its last entry goes. On any error the ledger is left
    /// exactly as it was. This is the single mutating commit point of a
    /// withdrawal: callers perform it only after the external transfer is
    /// confirmed, and never twice for one request.
    pub fn commit_withdrawal(
        &mut self,
        owner: u64,
        index: usize,
        amount: u128,
        config: &RateConfig,
        now: u64,
    ) -> (r: Result<u128, StakingError>)
        requires
            old(self).wf(),
            config.wf(),
        ensures
            final(self).wf(),
            r == withdrawal_outcome(
                *old(self),
                owner,
                index,
                amount,
                config.reward_numerator,
                config.reward_denominator,
                now,
            ),
            r is Err ==> *final(self) == *old(self),
            r is Ok ==> withdrawal_applied(*old(self), *final(self), owner, index, amount, now),
    {
        let i = match self.find_account(owner) {
            Some(i) => i,
            None => {
                return Err(StakingError::UnknownAccount);
            },
        };
        if index >= self.accounts[i].entries.len() {
            return Err(StakingError::IndexOutOfRange);
        }
        let e = self.accounts[i].entries[index];
        let reward_owed = match reward(&e, config, now) {
            Ok(v) => v,
            Err(err) => {
                return Err(err);
            },
        };
        if amount > e.principal {
            return Err(StakingError::InsufficientStake);
        }
        let payout = match amount.checked_add(reward_owed) {
            Some(p) => p,
            None => {
                return Err(StakingError::ArithmeticOverflow);
            },
        };
        let ghost pre = *self;
        let mut acct = self.accounts.remove(i);
        acct.entries.remove(index);
        if amount < e.principal {
            let remainder = StakeEntry {
                owner,
                principal: e.principal - amount,
                opened_at: now,
                accrued_snapshot: e.accrued_snapshot,
            };
            acct.entries.insert(index, remainder);
            proof {
                assert(acct.entries@ =~= pre.entries_of(owner).update(index as int, remainder));
            }
        }
        if acct.entries.len() > 0 {
            self.accounts.insert(i, acct);
            proof {
                assert(self.accounts@ =~= pre.accounts@.update(i as int, self.accounts@[i as int]));
                lemma_entries_frame_update(pre, *self, i as int);
            }
        } else {
            proof {
                assert(amount == e.principal);
                assert(pre.entries_of(owner).len() == 1);
                lemma_entries_frame_remove(pre, *self, i as int);
                assert(self.entries_of(owner) =~= pre.entries_of(owner).remove(index as int));
            }
        }
        Ok(payout)
    }

    /// Summarises `owner`'s stakes: the total staked principal, and every
    /// entry with the reward it has earned by `now` in its snapshot field.
    ///
    /// Read-only; the walk over the entries and its error cases are stated by
    /// [`summary_fold`].
    pub fn summary(&self, owner: u64, config: &RateConfig, now: u64) -> (r: Result<
        StakingSummary,
        StakingError,
    >)
        requires
            self.wf(),
            config.wf(),
        ensures
            r == Err::<StakingSummary, StakingError>(StakingError::UnknownAccount) <==> !self.has_account(
                owner,
            ),
            self.has_account(owner) ==> match r {
                Ok(s) => summary_fold(
                    self.entries_of(owner),
                    config.reward_numerator,
                    config.reward_denominator,
                    now,
                    0,
                ) == Ok::<(u128, Seq<StakeEntry>), StakingError>((s.total_principal, s.entries@))
                    && s.total_principal == sum_principals(self.entries_of(owner))
                    && s.entries@.len() == self.entries_of(owner).len() && (forall|i: int|
                    0 <= i < s.entries@.len() ==> s.entries@[i] == entry_with_snapshot(
                        self.entries_of(owner)[i],
                        config.reward_numerator,
                        config.reward_denominator,
                        now,
                    )),
                Err(err) => summary_fold(
                    self.entries_of(owner),
                    config.reward_numerator,
                    config.reward_denominator,
                    now,
                    0,
                ) == Err::<(u128, Seq<StakeEntry>), StakingError>(err),
            },
    {
        let i = match self.find_account(owner) {
            Some(i) => i,
            None => {
                return Err(StakingError::UnknownAccount);
            },
        };
        let ghost es_full = self.accounts@[i as int].entries@;
        let ghost num = config.reward_numerator;
        let ghost den = config.reward_denominator;
        proof {
            assert(es_full == self.entries_of(owner));
        }
        let n = self.accounts[i].entries.len();
        let mut out: Vec<StakeEntry> = Vec::new();
        let mut total: u128 = 0;
        let mut k: usize = 0;
        proof {
            assert(es_full.skip(0) =~= es_full);
            if summary_fold(es_full, num, den, now, 0) is Ok {
                let (t0, rest0) = summary_fold(es_full, num, den, now, 0)->Ok_0;
                assert(Seq::<StakeEntry>::empty() + rest0 =~= rest0);
            }
        }
        while k < n
            invariant
                self.wf(),
                config.wf(),
                num == config.reward_numerator,
                den == config.reward_denominator,
                i < self.accounts@.len(),
                self.accounts@[i as int].owner == owner,
                self.has_account(owner),
                es_full == self.entries_of(owner),
                es_full == self.accounts@[i as int].entries@,
                n == es_full.len(),
                k <= n,
                out@.len() == k,
                summary_fold(es_full, num, den, now, 0) == fold_prepend(
                    out@,
                    summary_fold(es_full.skip(k as int), num, den, now, total),
                ),
            decreases n - k,
        {
            let e = self.accounts[i].entries[k];
            let ghost tail = es_full.skip(k as int);
            let ghost tail2 = es_full.skip(k as int + 1);
            proof {
                assert(tail[0] == es_full[k as int]);
                assert(tail.drop_first() =~= tail2);
            }
            let v = match reward(&e, config, now) {
                Ok(v) => v,
                Err(err) => {
                    proof {
                        assert(summary_fold(tail, num, den, now, total) == Err::<
                            (u128, Seq<StakeEntry>),
                            StakingError,
                        >(err));
                    }
                    return Err(err);
                },
            };
            let new_total = match total.checked_add(e.principal) {
                Some(t) => t,
                None => {
                    proof {
                        assert(summary_fold(tail, num, den, now, total) == Err::<
                            (u128, Seq<StakeEntry>),
                            StakingError,
                        >(StakingError::ArithmeticOverflow));
                    }
                    return Err(StakingError::ArithmeticOverflow);
                },
            };
            let snap = StakeEntry {
                owner: e.owner,
                principal: e.principal,
                opened_at: e.opened_at,
                accrued_snapshot: v,
            };
            let ghost out_pre = out@;
            out.push(snap);
            proof {
                assert(snap == entry_with_snapshot(e, num, den, now));
                if summary_fold(tail2, num, den, now, new_total) is Ok {
                    let (t2, rest2) = summary_fold(tail2, num, den, now, new_total)->Ok_0;
                    assert(out_pre + (seq![snap] + rest2) =~= out@ + rest2);
                }
            }
            total = new_total;
            k = k + 1;
        }
        proof {
            assert(es_full.skip(n as int) =~= Seq::<StakeEntry>::empty());
            assert(out@ + Seq::<StakeEntry>::empty() =~= out@);
            lemma_summary_fold_ok(es_full, num, den, now, 0);
        }
        Ok(StakingSummary { total_principal: total, entries: out })
    }
}

/// Opening a stake and quoting it at the very same instant yields a zero
/// reward: after [`Ledger::open_or_extend`] at `now`, the fresh entry sits at
/// the returned position with its accrual clock at `now`, and the reward a
/// quote computes for it over that zero-width window is zero.
pub proof fn lemma_open_then_quote_zero_reward(
    pre: Ledger,
    post: Ledger,
    owner: u64,
    amount: u128,
    numerator: u64,
    denominator: u64,
    now: u64,
)
    requires
        denominator > 0,
        post.entries_of(owner) == pre.entries_of(owner).push(
            (StakeEntry { owner, principal: amount, opened_at: now, accrued_snapshot: 0 }),
        ),
    ensures
        ({
            let e = post.entries_of(owner)[pre.entries_of(owner).len() as int];
            &&& e.opened_at == now
            &&& e.principal == amount
            &&& reward_value(e.principal, numerator, denominator, (now - e.opened_at) as u64) == 0
        }),
{
    crate::reward::lemma_zero_elapsed_zero_reward(amount, numerator, denominator);
}

/// Removing one owner's account keeps every other owner's view of the ledger
/// unchanged and removes exactly that owner.
pub proof fn lemma_entries_frame_remove(pre: Ledger, post: Ledger, i: int)
    requires
        pre.wf(),
        0 <= i < pre.accounts@.len(),
        post.accounts@ == pre.accounts@.remove(i),
    ensures
        post.wf(),
        !post.has_account(pre.accounts@[i].owner),
        forall|o: u64|
            o != pre.accounts@[i].owner ==> #[trigger] post.entries_of(o) == pre.entries_of(o),
        forall|o: u64|
            #[trigger] post.has_account(o) <==> (pre.has_account(o) && o
                != pre.accounts@[i].owner),
{
    let owner = pre.accounts@[i].owner;
    pre.accounts@.remove_ensures(i);
    assert(forall|j: int|
        0 <= j < i ==> #[trigger] post.accounts@[j] == pre.accounts@[j]);
    assert(forall|j: int|
        i <= j < post.accounts@.len() ==> #[trigger] post.accounts@[j] == pre.accounts@[j + 1]);
    assert forall|j: int, k: int|
        0 <= j < post.accounts@.len() && 0 <= k < post.accounts@.len() && j != k implies (
    #[trigger] post.accounts@[j]).owner != (#[trigger] post.accounts@[k]).owner by {
        let j0 = if j < i { j } else { j + 1 };
        let k0 = if k < i { k } else { k + 1 };
        assert(post.accounts@[j] == pre.accounts@[j0]);
        assert(post.accounts@[k] == pre.accounts@[k0]);
    }
    assert(post.wf());
    assert forall|o: u64| #[trigger] post.has_account(o) implies (pre.has_account(o) && o
        != owner) by {
        let k = choose|k: int|
            0 <= k < post.accounts@.len() && (#[trigger] post.accounts@[k]).owner == o;
        let k0 = if k < i { k } else { k + 1 };
        assert(pre.accounts@[k0].owner == o);
        assert(k0 != i);
    }
    assert forall|o: u64| pre.has_account(o) && o != owner implies #[trigger] post.has_account(
        o,
    ) by {
        let k0 = choose|k0: int|
            0 <= k0 < pre.accounts@.len() && (#[trigger] pre.accounts@[k0]).owner == o;
        assert(k0 != i);
        let k = if k0 < i { k0 } else { k0 - 1 };
        assert(post.accounts@[k].owner == o);
    }
    assert forall|o: u64|
        o != owner implies #[trigger] post.entries_of(o) == pre.entries_of(o) by {
        if pre.has_account(o) {
            let k0 = pre.account_index(o);
            assert(0 <= k0 < pre.accounts@.len() && pre.accounts@[k0].owner == o);
            pre.lemma_account_index_is(o, k0);
            assert(k0 != i);
            let k = if k0 < i { k0 } else { k0 - 1 };
            assert(post.accounts@[k].owner == o);
            post.lemma_account_index_is(o, k);
            assert(post.accounts@[k] == pre.accounts@[k0]);
        }
    }
}

/// Replacing one account by another with the same owner keeps every other
/// owner's view of the ledger, and the set of present owners, unchanged.
pub proof fn lemma_entries_frame_update(pre: Ledger, post: Ledger, i: int)
    requires
        pre.wf(),
        0 <= i < pre.accounts@.len(),
        post.accounts@.len() == pre.accounts@.len(),
        post.accounts@ == pre.accounts@.update(i, post.accounts@[i]),
        post.accounts@[i].owner == pre.accounts@[i].owner,
        post.accounts@[i].wf(),
    ensures
        post.wf(),
        forall|o: u64| #[trigger] post.has_account(o) <==> pre.has_account(o),
        post.has_account(pre.accounts@[i].owner),
        post.account_index(pre.accounts@[i].owner) == i,
        post.entries_of(pre.accounts@[i].owner) == post.accounts@[i].entries@,
        forall|o: u64|
            o != pre.accounts@[i].owner ==> #[trigger] post.entries_of(o) == pre.entries_of(o),
{
    let owner = pre.accounts@[i].owner;
    assert(forall|j: int|
        0 <= j < post.accounts@.len() ==> (#[trigger] post.accounts@[j]).owner
            == pre.accounts@[j].owner);
    assert(forall|j: int|
        0 <= j < post.accounts@.len() && j != i ==> #[trigger] post.accounts@[j]
            == pre.accounts@[j]);
    assert(post.wf());
    assert forall|o: u64| #[trigger] post.has_account(o) implies pre.has_account(o) by {
        let k = choose|k: int|
            0 <= k < post.accounts@.len() && (#[trigger] post.accounts@[k]).owner == o;
        assert(pre.accounts@[k].owner == o);
    }
    assert forall|o: u64| pre.has_account(o) implies #[trigger] post.has_account(o) by {
        let k = choose|k: int|
            0 <= k < pre.accounts@.len() && (#[trigger] pre.accounts@[k]).owner == o;
        assert(post.accounts@[k].owner == o);
    }
    post.lemma_account_index_is(owner, i);
    assert forall|o: u64|
        o != owner implies #[trigger] post.entries_of(o) == pre.entries_of(o) by {
        if pre.has_account(o) {
            let k = pre.account_index(o);
            assert(0 <= k < pre.accounts@.len() && pre.accounts@[k].owner == o);
            assert(k != i);
            pre.lemma_account_index_is(o, k);
            post.lemma_account_index_is(o, k);
        }
    }
}

/// Appending an account for a new owner leaves every existing owner's view of
/// the ledger unchanged and adds exactly that owner.
pub proof fn lemma_entries_frame_push(pre: Ledger, post: Ledger)
    requires
        pre.wf(),
        post.accounts@.len() == pre.accounts@.len() + 1,
        post.accounts@ == pre.accounts@.push(post.accounts@.last()),
        post.accounts@.last().wf(),
        !pre.has_account(post.accounts@.last().owner),
    ensures
        post.wf(),
        post.has_account(post.accounts@.last().owner),
        post.account_index(post.accounts@.last().owner) == pre.accounts@.len(),
        post.entries_of(post.accounts@.last().owner) == post.accounts@.last().entries@,
        forall|o: u64|
            o != post.accounts@.last().owner ==> #[trigger] post.entries_of(o) == pre.entries_of(
                o,
            ),
        forall|o: u64|
            #[trigger] post.has_account(o) <==> (pre.has_account(o) || o
                == post.accounts@.last().owner),
{
    let owner = post.accounts@.last().owner;
    let n = pre.accounts@.len() as int;
    assert(forall|j: int|
        0 <= j < n ==> #[trigger] post.accounts@[j] == pre.accounts@[j]);
    assert forall|j: int| 0 <= j < n implies (#[trigger] post.accounts@[j]).owner != owner by {
        if post.accounts@[j].owner == owner {
            assert(pre.has_account(owner));
        }
    }
    assert(post.wf());
    post.lemma_account_index_is(owner, n);
    assert forall|o: u64|
        o != owner implies #[trigger] post.entries_of(o) == pre.entries_of(o) by {
        if pre.has_account(o) {
            let k = pre.account_index(o);
            assert(0 <= k < pre.accounts@.len() && pre.accounts@[k].owner == o);
            pre.lemma_account_index_is(o, k);
            post.lemma_account_index_is(o, k);
        } else {
            if post.has_account(o) {
                let k = choose|k: int|
                    0 <= k < post.accounts@.len() && (#[trigger] post.accounts@[k]).owner == o;
                assert(k == n);
            }
        }
    }
    assert forall|o: u64|
        #[trigger] post.has_account(o) <==> (pre.has_account(o) || o == owner) by {
        if post.has_account(o) && o != owner {
            let k = choose|k: int|
                0 <= k < post.accounts@.len() && (#[trigger] post.accounts@[k]).owner == o;
            assert(k != n);
            assert(pre.accounts@[k].owner == o);
        }
        if pre.has_account(o) {
            let k = pre.account_index(o);
            pre.lemma_account_index_is(o, k);
            assert(post.accounts@[k].owner == o);
        }
    }
}

} // verus!
