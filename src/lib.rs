//! A verified ledger engine: accounts, transfers and their reversal, stakes
//! with rewards, interest, suspicious-activity detection, and audit and
//! notification trails.
pub mod laws;
pub mod model;
pub mod policy;
pub mod state;
pub mod store;
pub mod text;

pub use model::{
    Account, ActionType, AuditLogEntry, Error, NotificationLogEntry, Stake, StakeStatus,
    Transaction,
};
pub use state::LedgerState;
