//! Properties that relate the ledger's operations, stated over the outcome
//! predicates that the operations themselves ensure.
use vstd::prelude::*;

use crate::state::LedgerState;
use crate::model::{Account, Error, Transaction};

verus! {

/// A transfer of a positive `amount` between two distinct accounts, within the sender's
/// balance, debits the sender by exactly `amount`, credits the receiver by
/// exactly `amount`, and records exactly one new transaction of `amount`.
pub proof fn lemma_transfer_moves_exactly(
    pre: LedgerState,
    post: LedgerState,
    sender_id: u64,
    receiver_id: u64,
    amount: u64,
    now: u64,
    r: Result<Transaction, Error>,
)
    requires
        pre.wf(),
        LedgerState::transferred(pre, post, sender_id, receiver_id, amount, now, r),
        sender_id != receiver_id,
        amount > 0,
        pre.accounts().contains_key(sender_id),
        pre.accounts().contains_key(receiver_id),
        amount <= pre.accounts()[sender_id].balance,
        pre.accounts()[receiver_id].balance + amount <= u64::MAX,
        pre.transaction_store().next_key() < u64::MAX,
    ensures
        r == Ok::<Transaction, Error>(
            Transaction { sender_id, receiver_id, amount, timestamp: now },
        ),
        post.accounts()[sender_id].balance == pre.accounts()[sender_id].balance - amount,
        post.accounts()[receiver_id].balance == pre.accounts()[receiver_id].balance + amount,
        post.transaction_store().entries().len() == pre.transaction_store().entries().len() + 1,
        post.transaction_store().entries().last().1.amount == amount,
{
}

/// A transfer of more than the sender's balance fails with
/// `InsufficientFunds` and changes nothing.
pub proof fn lemma_overdraft_rejected(
    pre: LedgerState,
    post: LedgerState,
    sender_id: u64,
    receiver_id: u64,
    amount: u64,
    now: u64,
    r: Result<Transaction, Error>,
)
    requires
        LedgerState::transferred(pre, post, sender_id, receiver_id, amount, now, r),
        pre.accounts().contains_key(sender_id),
        pre.accounts().contains_key(receiver_id),
        amount > pre.accounts()[sender_id].balance,
    ensures
        r == Err::<Transaction, Error>(Error::InsufficientFunds),
        post == pre,
{
}

/// Reversing a transfer right after it records the opposite transfer and
/// gives both accounts back the records they had before the transfer.
pub proof fn lemma_reversal_restores(
    l0: LedgerState,
    l1: LedgerState,
    l2: LedgerState,
    sender_id: u64,
    receiver_id: u64,
    amount: u64,
    now1: u64,
    now2: u64,
    r1: Result<Transaction, Error>,
    r2: Result<Transaction, Error>,
)
    requires
        l0.wf(),
        amount > 0,
        LedgerState::transferred(l0, l1, sender_id, receiver_id, amount, now1, r1),
        r1 is Ok,
        LedgerState::reversed(l1, l2, l0.transaction_store().next_key(), now2, r2),
    ensures
        l1.transaction_store().next_key() < u64::MAX ==> r2 is Ok,
        r2 is Ok ==> {
            &&& r2 == Ok::<Transaction, Error>(
                Transaction {
                    sender_id: receiver_id,
                    receiver_id: sender_id,
                    amount,
                    timestamp: now2,
                },
            )
            &&& l2.accounts()[sender_id] == l0.accounts()[sender_id]
            &&& l2.accounts()[receiver_id] == l0.accounts()[receiver_id]
        },
{
    let key = l0.transaction_store().next_key();
    assert(l1.transactions()[key] == Transaction {
        sender_id,
        receiver_id,
        amount,
        timestamp: now1,
    });
}

/// An account that `create_account` opens is found under its id, with the
/// given holder name and balance, created no later than `now`.
pub proof fn lemma_created_account_found(
    pre: LedgerState,
    post: LedgerState,
    holder_name: String,
    balance: u64,
    now: u64,
    r: Option<Account>,
)
    requires
        pre.wf(),
        LedgerState::account_created(pre, post, holder_name, balance, now, r),
    ensures
        pre.account_store().next_key() < u64::MAX ==> r is Some,
        r matches Some(a) ==> {
            &&& post.account_lookup(a.id) == Ok::<Account, Error>(a)
            &&& a.holder_name == holder_name
            &&& a.balance == balance
            &&& a.created_at <= now
        },
{
}

/// Distributing rewards twice at the same time pays nothing the second time:
/// the second run leaves the ledger as the first one left it.
pub proof fn lemma_rewards_paid_once(
    l0: LedgerState,
    l1: LedgerState,
    l2: LedgerState,
    now: u64,
    r1: Result<(), Error>,
    r2: Result<(), Error>,
)
    requires
        LedgerState::rewards_distributed(l0, l1, now, r1),
        LedgerState::rewards_distributed(l1, l2, now, r2),
    ensures
        l2 == l1,
        l1.audit_store().next_key() + l1.stake_store().entries().len() < u64::MAX ==> r2 is Ok,
{
}

} // verus!
