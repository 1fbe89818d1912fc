//! The ledger's fixed rules: the suspicious-activity heuristic, interest, and
//! stake rewards, stated as spec functions over plain values.
use vstd::prelude::*;

use crate::model::{Account, Stake, StakeStatus, Transaction, SYSTEM_ACCOUNT_ID, UNITS_PER_TOKEN};

verus! {

/// Transactions older than this many seconds are outside the window that the
/// suspicious-activity scan looks at.
pub const SUSPICIOUS_WINDOW: u64 = 86400;

/// More transactions than this within the window flag all of them.
pub const MAX_TRANSACTIONS_IN_WINDOW: usize = 10;

/// A single transaction above this amount, in minor units, is flagged.
pub const SUSPICIOUS_AMOUNT_THRESHOLD: u64 = 10_000 * UNITS_PER_TOKEN;

/// Whether a transaction stamped `ts` lies within the window ending at `now`.
pub open spec fn in_window(ts: u64, now: u64) -> bool {
    ts <= now && now - ts <= SUSPICIOUS_WINDOW
}

/// Whether `t` is a recent transaction of account `id`.
pub open spec fn is_related(t: Transaction, id: u64, now: u64) -> bool {
    (t.sender_id == id || t.receiver_id == id) && in_window(t.timestamp, now)
}

/// The ids of the recent transactions of account `id`, in log order.
pub open spec fn related_ids(s: Seq<(u64, Transaction)>, id: u64, now: u64) -> Seq<u64>
    decreases s.len(),
{
    if s.len() == 0 {
        Seq::empty()
    } else {
        let rest = related_ids(s.drop_last(), id, now);
        if is_related(s.last().1, id, now) {
            rest.push(s.last().0)
        } else {
            rest
        }
    }
}

/// The ids of the recent transactions of account `id` that exceed the amount
/// threshold, in log order.
pub open spec fn large_ids(s: Seq<(u64, Transaction)>, id: u64, now: u64) -> Seq<u64>
    decreases s.len(),
{
    if s.len() == 0 {
        Seq::empty()
    } else {
        let rest = large_ids(s.drop_last(), id, now);
        if is_related(s.last().1, id, now) && s.last().1.amount > SUSPICIOUS_AMOUNT_THRESHOLD {
            rest.push(s.last().0)
        } else {
            rest
        }
    }
}

/// The transactions that the scan reports for account `id`: every recent one
/// when there are too many, else the recent ones above the amount threshold.
pub open spec fn suspicious_ids(s: Seq<(u64, Transaction)>, id: u64, now: u64) -> Seq<u64> {
    if related_ids(s, id, now).len() > MAX_TRANSACTIONS_IN_WINDOW {
        related_ids(s, id, now)
    } else {
        large_ids(s, id, now)
    }
}

/// Interest accrues at this percentage of the balance.
pub const INTEREST_RATE_PERCENT: u64 = 1;

/// Stakes earn this percentage per year.
pub const REWARD_RATE_PERCENT: u128 = 5;

pub const SECONDS_PER_DAY: u128 = 86400;

pub const DAYS_PER_YEAR: u128 = 365;

/// `staked * period / REWARD_DIVISOR` is
/// `staked * (rate / DAYS_PER_YEAR) * (period / SECONDS_PER_DAY)`, with the
/// rate as a fraction; the rate divides the other factors exactly.
pub const REWARD_DIVISOR: u128 = 100 * DAYS_PER_YEAR * SECONDS_PER_DAY / REWARD_RATE_PERCENT;

/// The interest on `balance`, rounded down.
pub open spec fn interest_of(balance: u64) -> int {
    balance * INTEREST_RATE_PERCENT / 100
}

/// Whether account `a` is credited interest: the interest is positive and the
/// new balance is representable.
pub open spec fn earns_interest(a: Account) -> bool {
    interest_of(a.balance) > 0 && a.balance + interest_of(a.balance) <= u64::MAX
}

/// Account `a` after an interest run.
pub open spec fn with_interest(a: Account) -> Account {
    if earns_interest(a) {
        a.with_balance((a.balance + interest_of(a.balance)) as u64)
    } else {
        a
    }
}

/// The transactions that an interest run over `s` records, in order.
pub open spec fn interest_records(s: Seq<Account>, now: u64) -> Seq<Transaction>
    decreases s.len(),
{
    if s.len() == 0 {
        Seq::empty()
    } else {
        let rest = interest_records(s.drop_last(), now);
        let a = s.last();
        if earns_interest(a) {
            rest.push(
                Transaction {
                    sender_id: SYSTEM_ACCOUNT_ID,
                    receiver_id: a.id,
                    amount: interest_of(a.balance) as u64,
                    timestamp: now,
                },
            )
        } else {
            rest
        }
    }
}

/// The reward for staking `staked` minor units for `period` seconds, rounded
/// down.
pub open spec fn reward_of(staked: u64, period: u64) -> int {
    (staked * period) / (REWARD_DIVISOR as int)
}

/// Whether stake `st` has reached maturity at `now`.
pub open spec fn matured(st: Stake, now: u64) -> bool {
    st.staking_since + st.staking_period <= now
}

/// Whether `st` is an active stake whose reward can be paid now: it has
/// matured, its owner exists, and the credited balance is representable.
pub open spec fn payable(st: Stake, accounts: Map<u64, Account>, now: u64) -> bool {
    &&& st.status == StakeStatus::Active
    &&& matured(st, now)
    &&& accounts.contains_key(st.account_id)
    &&& accounts[st.account_id].balance + reward_of(st.staked_amount, st.staking_period)
        <= u64::MAX
}

/// No stake in `s` can be paid against `accounts` at `now`.
pub open spec fn none_payable(s: Seq<(u64, Stake)>, accounts: Map<u64, Account>, now: u64) -> bool {
    forall|j: int| 0 <= j < s.len() ==> !payable(#[trigger] s[j].1, accounts, now)
}

/// `post` is `pre` with each stake either kept or, if it was active and
/// matured, settled.
pub open spec fn settled_from(pre: Seq<(u64, Stake)>, post: Seq<(u64, Stake)>, now: u64) -> bool {
    &&& post.len() == pre.len()
    &&& forall|j: int|
        0 <= j < pre.len() ==> #[trigger] post[j] == pre[j] || (pre[j].1.status
            == StakeStatus::Active && matured(pre[j].1, now) && post[j] == (
            pre[j].0,
            Stake { status: StakeStatus::Settled, ..pre[j].1 },
        ))
}

/// The rewards paid to account `id` by the stakes that went from active in
/// `pre` to settled in `post`.
pub open spec fn rewards_paid(pre: Seq<(u64, Stake)>, post: Seq<(u64, Stake)>, id: u64) -> int
    decreases pre.len(),
{
    if pre.len() == 0 || post.len() != pre.len() {
        0
    } else {
        let rest = rewards_paid(pre.drop_last(), post.drop_last(), id);
        let a = pre.last().1;
        if a.status == StakeStatus::Active && post.last().1.status == StakeStatus::Settled
            && a.account_id == id {
            rest + reward_of(a.staked_amount, a.staking_period)
        } else {
            rest
        }
    }
}

/// The stakes that went from active in `pre` to settled in `post`, in order.
pub open spec fn settled_stakes(pre: Seq<(u64, Stake)>, post: Seq<(u64, Stake)>) -> Seq<Stake>
    decreases pre.len(),
{
    if pre.len() == 0 || post.len() != pre.len() {
        Seq::empty()
    } else {
        let rest = settled_stakes(pre.drop_last(), post.drop_last());
        if pre.last().1.status == StakeStatus::Active && post.last().1.status
            == StakeStatus::Settled {
            rest.push(pre.last().1)
        } else {
            rest
        }
    }
}

/// Every account of `pre` is in `post` with the same fields and a balance no
/// smaller, and no other account is.
pub open spec fn only_credited(pre: Map<u64, Account>, post: Map<u64, Account>) -> bool {
    &&& post.dom() == pre.dom()
    &&& forall|k: u64| #[trigger]
        pre.contains_key(k) ==> post[k].balance >= pre[k].balance && post[k] == pre[k].with_balance(
            post[k].balance,
        )
}

/// Whether some active stake in `s` belongs to account `id`.
pub open spec fn has_active_stake(s: Seq<(u64, Stake)>, id: u64) -> bool {
    exists|i: int|
        0 <= i < s.len() && s[i].1.account_id == id && s[i].1.status == StakeStatus::Active
}

} // verus!
