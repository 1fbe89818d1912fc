//! The records that the ledger keeps, and the errors it reports.
//!
//! Money is held as an unsigned count of minor units, so every balance is
//! non-negative by construction and arithmetic is exact.
use vstd::prelude::*;

use crate::store::Record;

verus! {

/// Minor units in one whole unit of currency.
pub const UNITS_PER_TOKEN: u64 = 100_000_000;

/// The sender id of credits that the ledger itself originates (interest).
pub const SYSTEM_ACCOUNT_ID: u64 = 0;

#[derive(Clone, Debug, PartialEq, Eq)]
pub struct Account {
    pub id: u64,
    pub holder_name: String,
    pub balance: u64,
    pub created_at: u64,
}

#[derive(Clone, Copy, Debug, PartialEq, Eq)]
pub struct Transaction {
    pub sender_id: u64,
    pub receiver_id: u64,
    pub amount: u64,
    pub timestamp: u64,
}

#[derive(Clone, Copy, Debug, PartialEq, Eq, Structural)]
pub enum ActionType {
    Unspecified,
    AccountCreation,
    AccountUpdate,
    TransactionExecution,
    RewardDistribution,
}

#[derive(Clone, Debug, PartialEq, Eq)]
pub struct AuditLogEntry {
    pub id: u64,
    pub action_type: ActionType,
    pub affected_account_id: u64,
    pub timestamp: u64,
    pub details: String,
}

#[derive(Clone, Debug, PartialEq, Eq)]
pub struct NotificationLogEntry {
    pub id: u64,
    pub account_id: u64,
    pub message: String,
    pub timestamp: u64,
}

/// A stake is paid out once: `Active` until its reward is distributed, then
/// `Settled` for good.
#[derive(Clone, Copy, Debug, PartialEq, Eq, Structural)]
pub enum StakeStatus {
    Active,
    Settled,
}

#[derive(Clone, Copy, Debug, PartialEq, Eq)]
pub struct Stake {
    pub account_id: u64,
    pub staked_amount: u64,
    pub staking_since: u64,
    /// In seconds.
    pub staking_period: u64,
    pub status: StakeStatus,
}

#[derive(Clone, Copy, Debug, PartialEq, Eq)]
pub enum Error {
    /// The requested account, transaction or stake is absent.
    NotFound,
    /// A debit would drive a balance below zero.
    InsufficientFunds,
    /// The request conflicts with the ledger's state: an amount of zero, a
    /// balance that would exceed the largest representable amount, exhausted
    /// identifiers, or an account that still has active stakes.
    InvalidState,
}

impl Default for ActionType {
    fn default() -> (r: Self)
        ensures
            r == ActionType::Unspecified,
    {
        ActionType::Unspecified
    }
}

impl Record for Account {
    fn duplicate(&self) -> (r: Self) {
        Account {
            id: self.id,
            holder_name: self.holder_name.clone(),
            balance: self.balance,
            created_at: self.created_at,
        }
    }
}

impl Record for Transaction {
    fn duplicate(&self) -> (r: Self) {
        *self
    }
}

impl Record for Stake {
    fn duplicate(&self) -> (r: Self) {
        *self
    }
}

impl Record for AuditLogEntry {
    fn duplicate(&self) -> (r: Self) {
        AuditLogEntry {
            id: self.id,
            action_type: self.action_type,
            affected_account_id: self.affected_account_id,
            timestamp: self.timestamp,
            details: self.details.clone(),
        }
    }
}

impl Record for NotificationLogEntry {
    fn duplicate(&self) -> (r: Self) {
        NotificationLogEntry {
            id: self.id,
            account_id: self.account_id,
            message: self.message.clone(),
            timestamp: self.timestamp,
        }
    }
}

impl Account {
    /// The account with its balance set to `balance`.
    pub open spec fn with_balance(self, balance: u64) -> Account {
        Account { balance, ..self }
    }
}

} // verus!
