//! The ledger: accounts, the transaction log, stakes and the side logs, each
//! in a store of its own with its own key space.
use vstd::prelude::*;

use crate::model::{
    Account, ActionType, AuditLogEntry, Error, NotificationLogEntry, Stake, StakeStatus,
    Transaction, SYSTEM_ACCOUNT_ID,
};
use crate::policy::{
    has_active_stake, interest_records, large_ids, none_payable, only_credited, payable,
    related_ids, reward_of, rewards_paid,
    settled_from, settled_stakes, suspicious_ids, with_interest, INTEREST_RATE_PERCENT,
    MAX_TRANSACTIONS_IN_WINDOW, REWARD_DIVISOR, SUSPICIOUS_AMOUNT_THRESHOLD, SUSPICIOUS_WINDOW,
};
use crate::store::{image_valid, keyed_from, lemma_map_at, map_of, values_of, Record, Store, StoreImage};
use crate::text::{reward_details, reward_text};

verus! {

pub struct LedgerState {
    accounts: Store<Account>,
    transactions: Store<Transaction>,
    stakes: Store<Stake>,
    audit_logs: Store<AuditLogEntry>,
    notification_logs: Store<NotificationLogEntry>,
}

/// The ledger laid out as plain values, to be saved and loaded again. Each
/// store keeps its next key, so ids stay unique across a reload.
pub struct LedgerImage {
    pub accounts: StoreImage<Account>,
    pub transactions: StoreImage<Transaction>,
    pub stakes: StoreImage<Stake>,
    pub audit_logs: StoreImage<AuditLogEntry>,
    pub notification_logs: StoreImage<NotificationLogEntry>,
}

/// Whether `img` describes a well-formed ledger.
pub open spec fn ledger_image_valid(img: &LedgerImage) -> bool {
    let a = img.accounts.entries@;
    let au = img.audit_logs.entries@;
    let no = img.notification_logs.entries@;
    &&& image_valid(&img.accounts)
    &&& image_valid(&img.transactions)
    &&& image_valid(&img.stakes)
    &&& image_valid(&img.audit_logs)
    &&& image_valid(&img.notification_logs)
    &&& img.accounts.next_key >= FIRST_KEY
    &&& forall|i: int| 0 <= i < a.len() ==> a[i].0 != SYSTEM_ACCOUNT_ID && a[i].1.id == a[i].0
    &&& forall|i: int| 0 <= i < au.len() ==> au[i].1.id == au[i].0
    &&& forall|i: int| 0 <= i < no.len() ==> no[i].1.id == no[i].0
    &&& active_owners_exist(img.stakes.entries@, map_of(a))
}

/// Whether every account entry is keyed by its own id, which is not the
/// system's.
fn account_ids_valid(v: &Vec<(u64, Account)>) -> (r: bool)
    ensures
        r == forall|i: int| 0 <= i < v@.len() ==> v@[i].0 != SYSTEM_ACCOUNT_ID && v@[i].1.id == v@[i].0,
{
    let mut i: usize = 0;
    while i < v.len()
        invariant
            i <= v@.len(),
            forall|j: int| 0 <= j < i ==> v@[j].0 != SYSTEM_ACCOUNT_ID && v@[j].1.id == v@[j].0,
        decreases v@.len() - i,
    {
        if v[i].0 == SYSTEM_ACCOUNT_ID || v[i].1.id != v[i].0 {
            return false;
        }
        i = i + 1;
    }
    true
}

/// Whether every audit entry is keyed by its own id.
fn audit_ids_valid(v: &Vec<(u64, AuditLogEntry)>) -> (r: bool)
    ensures
        r == forall|i: int| 0 <= i < v@.len() ==> v@[i].1.id == v@[i].0,
{
    let mut i: usize = 0;
    while i < v.len()
        invariant
            i <= v@.len(),
            forall|j: int| 0 <= j < i ==> v@[j].1.id == v@[j].0,
        decreases v@.len() - i,
    {
        if v[i].1.id != v[i].0 {
            return false;
        }
        i = i + 1;
    }
    true
}

/// Whether every notification is keyed by its own id.
fn notification_ids_valid(v: &Vec<(u64, NotificationLogEntry)>) -> (r: bool)
    ensures
        r == forall|i: int| 0 <= i < v@.len() ==> v@[i].1.id == v@[i].0,
{
    let mut i: usize = 0;
    while i < v.len()
        invariant
            i <= v@.len(),
            forall|j: int| 0 <= j < i ==> v@[j].1.id == v@[j].0,
        decreases v@.len() - i,
    {
        if v[i].1.id != v[i].0 {
            return false;
        }
        i = i + 1;
    }
    true
}

/// Every active stake in `s` belongs to an account of `accounts`.
pub open spec fn active_owners_exist(s: Seq<(u64, Stake)>, accounts: Map<u64, Account>) -> bool {
    forall|i: int|
        0 <= i < s.len() && (#[trigger] s[i]).1.status == StakeStatus::Active
            ==> accounts.contains_key(s[i].1.account_id)
}

/// The first key that each store issues; account id 0 stays free for the
/// system.
pub const FIRST_KEY: u64 = 1;

impl LedgerState {
    pub closed spec fn account_store(&self) -> Store<Account> {
        self.accounts
    }

    pub closed spec fn transaction_store(&self) -> Store<Transaction> {
        self.transactions
    }

    pub closed spec fn stake_store(&self) -> Store<Stake> {
        self.stakes
    }

    pub closed spec fn audit_store(&self) -> Store<AuditLogEntry> {
        self.audit_logs
    }

    pub closed spec fn notification_store(&self) -> Store<NotificationLogEntry> {
        self.notification_logs
    }

    /// Accounts by id.
    pub open spec fn accounts(&self) -> Map<u64, Account> {
        self.account_store()@
    }

    /// Transactions by transaction id.
    pub open spec fn transactions(&self) -> Map<u64, Transaction> {
        self.transaction_store()@
    }

    /// Stakes by stake id.
    pub open spec fn stakes(&self) -> Map<u64, Stake> {
        self.stake_store()@
    }

    pub open spec fn wf(&self) -> bool {
        &&& self.account_store().wf()
        &&& self.transaction_store().wf()
        &&& self.stake_store().wf()
        &&& self.audit_store().wf()
        &&& self.notification_store().wf()
        &&& self.account_store().next_key() >= FIRST_KEY
        &&& !self.accounts().contains_key(SYSTEM_ACCOUNT_ID)
        &&& forall|k: u64| #[trigger]
            self.accounts().contains_key(k) ==> self.accounts()[k].id == k
        &&& forall|k: u64| #[trigger]
            self.audit_store()@.contains_key(k) ==> self.audit_store()@[k].id == k
        &&& forall|k: u64| #[trigger]
            self.notification_store()@.contains_key(k) ==> self.notification_store()@[k].id == k
        &&& active_owners_exist(self.stake_store().entries(), self.accounts())
    }

    /// Only the account store differs between `pre` and `post`.
    pub open spec fn only_accounts_changed(pre: LedgerState, post: LedgerState) -> bool {
        &&& post.transaction_store() == pre.transaction_store()
        &&& post.stake_store() == pre.stake_store()
        &&& post.audit_store() == pre.audit_store()
        &&& post.notification_store() == pre.notification_store()
    }

    /// What looking up account `id` yields.
    pub open spec fn account_lookup(&self, id: u64) -> Result<Account, Error> {
        if self.accounts().contains_key(id) {
            Ok(self.accounts()[id])
        } else {
            Err(Error::NotFound)
        }
    }

    /// The outcome of `create_account(holder_name, balance, now)` taking `pre`
    /// to `post` with result `r`.
    pub open spec fn account_created(
        pre: LedgerState,
        post: LedgerState,
        holder_name: String,
        balance: u64,
        now: u64,
        r: Option<Account>,
    ) -> bool {
        let id = pre.account_store().next_key();
        &&& r is Some <==> id < u64::MAX
        &&& match r {
            Some(a) => {
                &&& a == Account { id, holder_name, balance, created_at: now }
                &&& !pre.accounts().contains_key(id)
                &&& post.accounts() == pre.accounts().insert(id, a)
                &&& post.account_store().values() == pre.account_store().values().push(a)
                &&& post.account_store().next_key() == id + 1
                &&& Self::only_accounts_changed(pre, post)
            },
            None => post == pre,
        }
    }

    /// The accounts after `amount` moves from `sender_id` to `receiver_id`.
    pub open spec fn moved(
        accounts: Map<u64, Account>,
        sender_id: u64,
        receiver_id: u64,
        amount: u64,
    ) -> Map<u64, Account> {
        if sender_id == receiver_id {
            accounts
        } else {
            let s = accounts[sender_id];
            let r = accounts[receiver_id];
            accounts.insert(sender_id, s.with_balance((s.balance - amount) as u64)).insert(
                receiver_id,
                r.with_balance((r.balance + amount) as u64),
            )
        }
    }

    /// The outcome of `transfer_funds(sender_id, receiver_id, amount, now)`
    /// taking `pre` to `post` with result `r`.
    pub open spec fn transferred(
        pre: LedgerState,
        post: LedgerState,
        sender_id: u64,
        receiver_id: u64,
        amount: u64,
        now: u64,
        r: Result<Transaction, Error>,
    ) -> bool {
        let a = pre.accounts();
        let key = pre.transaction_store().next_key();
        if !a.contains_key(sender_id) || !a.contains_key(receiver_id) {
            r == Err::<Transaction, Error>(Error::NotFound) && post == pre
        } else if amount == 0 {
            r == Err::<Transaction, Error>(Error::InvalidState) && post == pre
        } else if a[sender_id].balance < amount {
            r == Err::<Transaction, Error>(Error::InsufficientFunds) && post == pre
        } else if (sender_id != receiver_id && a[receiver_id].balance + amount > u64::MAX) || key
            == u64::MAX {
            r == Err::<Transaction, Error>(Error::InvalidState) && post == pre
        } else {
            let t = Transaction { sender_id, receiver_id, amount, timestamp: now };
            &&& r == Ok::<Transaction, Error>(t)
            &&& post.accounts() == Self::moved(a, sender_id, receiver_id, amount)
            &&& post.account_store().next_key() == pre.account_store().next_key()
            &&& post.transactions() == pre.transactions().insert(key, t)
            &&& !pre.transactions().contains_key(key)
            &&& post.transaction_store().entries() == pre.transaction_store().entries().push(
                (key, t),
            )
            &&& post.transaction_store().next_key() == key + 1
            &&& post.stake_store() == pre.stake_store()
            &&& post.audit_store() == pre.audit_store()
            &&& post.notification_store() == pre.notification_store()
        }
    }

    /// The outcome of `reverse_transaction(transaction_id, now)`: a transfer of
    /// the same amount in the opposite direction.
    pub open spec fn reversed(
        pre: LedgerState,
        post: LedgerState,
        transaction_id: u64,
        now: u64,
        r: Result<Transaction, Error>,
    ) -> bool {
        if !pre.transactions().contains_key(transaction_id) {
            r == Err::<Transaction, Error>(Error::NotFound) && post == pre
        } else {
            let t = pre.transactions()[transaction_id];
            if t.amount == 0 {
                r == Err::<Transaction, Error>(Error::InvalidState) && post == pre
            } else {
                Self::transferred(pre, post, t.receiver_id, t.sender_id, t.amount, now, r)
            }
        }
    }

    /// `e` is the audit entry with id `id` for paying the reward of `st` at
    /// `now`.
    pub open spec fn is_reward_entry(e: (u64, AuditLogEntry), id: int, st: Stake, now: u64) -> bool {
        &&& e.0 == id
        &&& e.1.id == id
        &&& e.1.action_type == ActionType::RewardDistribution
        &&& e.1.affected_account_id == st.account_id
        &&& e.1.timestamp == now
        &&& e.1.details@ == reward_text(reward_of(st.staked_amount, st.staking_period) as nat)
    }

    /// `post` is `pre` followed by one reward entry for each of `paid`, in
    /// order, under consecutive fresh ids.
    pub open spec fn rewards_audited(
        pre: Store<AuditLogEntry>,
        post: Store<AuditLogEntry>,
        paid: Seq<Stake>,
        now: u64,
    ) -> bool {
        let base = pre.entries().len();
        &&& post.entries().len() == base + paid.len()
        &&& post.next_key() == pre.next_key() + paid.len()
        &&& forall|j: int| 0 <= j < base ==> #[trigger] post.entries()[j] == pre.entries()[j]
        &&& forall|j: int|
            base <= j < post.entries().len() ==> Self::is_reward_entry(
                #[trigger] post.entries()[j],
                pre.next_key() + (j - base),
                paid[j - base],
                now,
            )
    }

    /// The outcome of `calculate_and_distribute_rewards(now)` taking `pre` to
    /// `post` with result `r`.
    pub open spec fn rewards_distributed(
        pre: LedgerState,
        post: LedgerState,
        now: u64,
        r: Result<(), Error>,
    ) -> bool {
        let stakes = pre.stake_store().entries();
        if pre.audit_store().next_key() + stakes.len() >= u64::MAX {
            r == Err::<(), Error>(Error::InvalidState) && post == pre
        } else {
            &&& r is Ok
            &&& settled_from(stakes, post.stake_store().entries(), now)
            &&& only_credited(pre.accounts(), post.accounts())
            &&& forall|k: u64| #[trigger]
                pre.accounts().contains_key(k) ==> post.accounts()[k].balance
                    == pre.accounts()[k].balance + rewards_paid(
                    stakes,
                    post.stake_store().entries(),
                    k,
                )
            &&& none_payable(post.stake_store().entries(), post.accounts(), now)
            &&& none_payable(stakes, pre.accounts(), now) ==> post == pre
            &&& post.account_store().next_key() == pre.account_store().next_key()
            &&& post.stake_store().next_key() == pre.stake_store().next_key()
            &&& Self::rewards_audited(
                pre.audit_store(),
                post.audit_store(),
                settled_stakes(stakes, post.stake_store().entries()),
                now,
            )
            &&& post.transaction_store() == pre.transaction_store()
            &&& post.notification_store() == pre.notification_store()
        }
    }

    /// The reward for staking `staked_amount` minor units for
    /// `staking_period` seconds at the yearly rate, rounded down.
    pub fn calculate_reward(staked_amount: u64, staking_period: u64) -> (r: u128)
        ensures
            r == reward_of(staked_amount, staking_period),
    {
        proof {
            let a = staked_amount as int;
            let b = staking_period as int;
            assert(a * b <= 0xffff_ffff_ffff_ffff * 0xffff_ffff_ffff_ffff) by (nonlinear_arith)
                requires
                    0 <= a <= 0xffff_ffff_ffff_ffff,
                    0 <= b <= 0xffff_ffff_ffff_ffff,
            ;
        }
        (staked_amount as u128 * staking_period as u128) / REWARD_DIVISOR
    }

    /// The ledger laid out as plain values.
    pub fn image(&self) -> (r: LedgerImage)
        requires
            self.wf(),
        ensures
            ledger_image_valid(&r),
            r.accounts.entries@ == self.account_store().entries(),
            r.accounts.next_key == self.account_store().next_key(),
            r.transactions.entries@ == self.transaction_store().entries(),
            r.transactions.next_key == self.transaction_store().next_key(),
            r.stakes.entries@ == self.stake_store().entries(),
            r.stakes.next_key == self.stake_store().next_key(),
            r.audit_logs.entries@ == self.audit_store().entries(),
            r.audit_logs.next_key == self.audit_store().next_key(),
            r.notification_logs.entries@ == self.notification_store().entries(),
            r.notification_logs.next_key == self.notification_store().next_key(),
    {
        let r = LedgerImage {
            accounts: self.accounts.image(),
            transactions: self.transactions.image(),
            stakes: self.stakes.image(),
            audit_logs: self.audit_logs.image(),
            notification_logs: self.notification_logs.image(),
        };
        proof {
            let a = self.account_store().entries();
            assert forall|i: int| 0 <= i < a.len() implies a[i].0 != SYSTEM_ACCOUNT_ID && a[i].1.id
                == a[i].0 by {
                lemma_map_at(a, i);
            }
            let au = self.audit_store().entries();
            assert forall|i: int| 0 <= i < au.len() implies au[i].1.id == au[i].0 by {
                lemma_map_at(au, i);
            }
            let no = self.notification_store().entries();
            assert forall|i: int| 0 <= i < no.len() implies no[i].1.id == no[i].0 by {
                lemma_map_at(no, i);
                assert(self.notification_store()@.contains_key(no[i].0));
                assert(self.notification_store()@[no[i].0] == no[i].1);
            }
        }
        r
    }

    /// The ledger that `img` describes, if it describes a well-formed one.
    pub fn from_image(img: LedgerImage) -> (r: Option<Self>)
        ensures
            r is Some <==> ledger_image_valid(&img),
            r matches Some(l) ==> {
                &&& l.wf()
                &&& l.account_store().entries() == img.accounts.entries@
                &&& l.account_store().next_key() == img.accounts.next_key
                &&& l.transaction_store().entries() == img.transactions.entries@
                &&& l.transaction_store().next_key() == img.transactions.next_key
                &&& l.stake_store().entries() == img.stakes.entries@
                &&& l.stake_store().next_key() == img.stakes.next_key
                &&& l.audit_store().entries() == img.audit_logs.entries@
                &&& l.audit_store().next_key() == img.audit_logs.next_key
                &&& l.notification_store().entries() == img.notification_logs.entries@
                &&& l.notification_store().next_key() == img.notification_logs.next_key
            },
    {
        let ghost g = img;
        if img.accounts.next_key < FIRST_KEY || !account_ids_valid(&img.accounts.entries)
            || !audit_ids_valid(&img.audit_logs.entries) || !notification_ids_valid(
            &img.notification_logs.entries,
        ) {
            return None;
        }
        let accounts = match Store::from_image(img.accounts) {
            Some(st) => st,
            None => return None,
        };
        let transactions = match Store::from_image(img.transactions) {
            Some(st) => st,
            None => return None,
        };
        let stakes = match Store::from_image(img.stakes) {
            Some(st) => st,
            None => return None,
        };
        let audit_logs = match Store::from_image(img.audit_logs) {
            Some(st) => st,
            None => return None,
        };
        let notification_logs = match Store::from_image(img.notification_logs) {
            Some(st) => st,
            None => return None,
        };
        let mut i: usize = 0;
        while i < stakes.len()
            invariant
                stakes.wf(),
                accounts.wf(),
                g == img,
                stakes.entries() == g.stakes.entries@,
                accounts.entries() == g.accounts.entries@,
                i <= stakes.entries().len(),
                forall|j: int|
                    0 <= j < i && (#[trigger] stakes.entries()[j]).1.status == StakeStatus::Active
                        ==> accounts@.contains_key(stakes.entries()[j].1.account_id),
            decreases stakes.entries().len() - i,
        {
            let (_, st) = stakes.entry_at(i);
            if st.status == StakeStatus::Active && accounts.get(st.account_id).is_none() {
                proof {
                    assert(g.stakes.entries@[i as int].1.status == StakeStatus::Active);
                }
                return None;
            }
            i = i + 1;
        }
        let l = LedgerState { accounts, transactions, stakes, audit_logs, notification_logs };
        proof {
            let a = l.account_store().entries();
            assert forall|k: u64| #[trigger] l.accounts().contains_key(k) implies l.accounts()[k].id
                == k by {
                let j = choose|j: int| 0 <= j < a.len() && a[j].0 == k;
                lemma_map_at(a, j);
            }
            if l.accounts().contains_key(SYSTEM_ACCOUNT_ID) {
                let j = choose|j: int| 0 <= j < a.len() && a[j].0 == SYSTEM_ACCOUNT_ID;
            }
            let au = l.audit_store().entries();
            assert forall|k: u64| #[trigger] l.audit_store()@.contains_key(k) implies l.audit_store()@[
                k
            ].id == k by {
                let j = choose|j: int| 0 <= j < au.len() && au[j].0 == k;
                lemma_map_at(au, j);
            }
            let no = l.notification_store().entries();
            assert forall|k: u64| #[trigger] l.notification_store()@.contains_key(k) implies l.notification_store()@[
                k
            ].id == k by {
                let j = choose|j: int| 0 <= j < no.len() && no[j].0 == k;
                lemma_map_at(no, j);
            }
        }
        Some(l)
    }

    /// An empty ledger.
    pub fn new() -> (r: Self)
        ensures
            r.wf(),
            r.accounts().is_empty(),
            r.transactions().is_empty(),
            r.stakes().is_empty(),
            r.audit_store()@.is_empty(),
            r.notification_store()@.is_empty(),
            r.account_store().next_key() == FIRST_KEY,
            r.transaction_store().next_key() == FIRST_KEY,
            r.stake_store().next_key() == FIRST_KEY,
            r.audit_store().next_key() == FIRST_KEY,
            r.notification_store().next_key() == FIRST_KEY,
            r.account_store().entries().len() == 0,
            r.transaction_store().entries().len() == 0,
            r.stake_store().entries().len() == 0,
            r.audit_store().entries().len() == 0,
            r.notification_store().entries().len() == 0,
    {
        LedgerState {
            accounts: Store::new(FIRST_KEY),
            transactions: Store::new(FIRST_KEY),
            stakes: Store::new(FIRST_KEY),
            audit_logs: Store::new(FIRST_KEY),
            notification_logs: Store::new(FIRST_KEY),
        }
    }

    /// Opens an account under a fresh id; `None` once account ids are
    /// exhausted.
    pub fn create_account(&mut self, holder_name: String, initial_balance: u64, now: u64) -> (r:
        Option<Account>)
        requires
            old(self).wf(),
        ensures
            final(self).wf(),
            Self::account_created(*old(self), *final(self), holder_name, initial_balance, now, r),
    {
        let id = self.accounts.peek_next_key();
        let account = Account { id, holder_name, balance: initial_balance, created_at: now };
        let copy = account.duplicate();
        match self.accounts.append(account) {
            Some(_) => Some(copy),
            None => None,
        }
    }

    /// The account with id `id`.
    pub fn get_account(&self, id: u64) -> (r: Result<Account, Error>)
        requires
            self.wf(),
        ensures
            r == self.account_lookup(id),
    {
        match self.accounts.get(id) {
            Some(a) => Ok(a.duplicate()),
            None => Err(Error::NotFound),
        }
    }

    /// The account that sends a transfer.
    pub fn get_sender_account(&self, sender_id: u64) -> (r: Result<Account, Error>)
        requires
            self.wf(),
        ensures
            r == self.account_lookup(sender_id),
    {
        self.get_account(sender_id)
    }

    /// The account that receives a transfer.
    pub fn get_receiver_account(&self, receiver_id: u64) -> (r: Result<Account, Error>)
        requires
            self.wf(),
        ensures
            r == self.account_lookup(receiver_id),
    {
        self.get_account(receiver_id)
    }

    pub fn get_account_balance(&self, id: u64) -> (r: Result<u64, Error>)
        requires
            self.wf(),
        ensures
            match self.account_lookup(id) {
                Ok(a) => r == Ok::<u64, Error>(a.balance),
                Err(e) => r == Err::<u64, Error>(e),
            },
    {
        match self.accounts.get(id) {
            Some(a) => Ok(a.balance),
            None => Err(Error::NotFound),
        }
    }

    pub fn get_account_created_at(&self, id: u64) -> (r: Result<u64, Error>)
        requires
            self.wf(),
        ensures
            match self.account_lookup(id) {
                Ok(a) => r == Ok::<u64, Error>(a.created_at),
                Err(e) => r == Err::<u64, Error>(e),
            },
    {
        match self.accounts.get(id) {
            Some(a) => Ok(a.created_at),
            None => Err(Error::NotFound),
        }
    }

    /// All accounts, by increasing id.
    pub fn get_all_accounts(&self) -> (r: Vec<Account>)
        ensures
            r@ == self.account_store().values(),
    {
        self.accounts.to_vec()
    }

    /// Every transaction with its id, by increasing id. The id is what
    /// `reverse_transaction` takes.
    pub fn get_transaction_entries(&self) -> (r: Vec<(u64, Transaction)>)
        ensures
            r@ == self.transaction_store().entries(),
    {
        self.transactions.image().entries
    }

    /// All transactions, by increasing transaction id; `NotFound` when the log
    /// is empty.
    pub fn get_all_transactions(&self) -> (r: Result<Vec<Transaction>, Error>)
        ensures
            self.transaction_store().entries().len() == 0 ==> r == Err::<Vec<Transaction>, Error>(
                Error::NotFound,
            ),
            self.transaction_store().entries().len() > 0 ==> (r matches Ok(v) && v@
                == self.transaction_store().values()),
    {
        if self.transactions.len() == 0 {
            Err(Error::NotFound)
        } else {
            Ok(self.transactions.to_vec())
        }
    }

    /// Renames the holder of account `id`.
    pub fn update_account_holder_name(&mut self, id: u64, new_holder_name: String) -> (r: Result<
        (),
        Error,
    >)
        requires
            old(self).wf(),
        ensures
            final(self).wf(),
            final(self).account_store().next_key() == old(self).account_store().next_key(),
            Self::only_accounts_changed(*old(self), *final(self)),
            old(self).accounts().contains_key(id) ==> {
                &&& r is Ok
                &&& final(self).accounts() == old(self).accounts().insert(
                    id,
                    Account { holder_name: new_holder_name, ..old(self).accounts()[id] },
                )
            },
            !old(self).accounts().contains_key(id) ==> r == Err::<(), Error>(Error::NotFound)
                && *final(self) == *old(self),
    {
        match self.accounts.get(id) {
            Some(a) => {
                let updated = Account {
                    id: a.id,
                    holder_name: new_holder_name,
                    balance: a.balance,
                    created_at: a.created_at,
                };
                self.accounts.update(id, updated);
                Ok(())
            },
            None => Err(Error::NotFound),
        }
    }

    /// Moves `amount` from one account to another and records the transfer.
    pub fn transfer_funds(&mut self, sender_id: u64, receiver_id: u64, amount: u64, now: u64) -> (r:
        Result<Transaction, Error>)
        requires
            old(self).wf(),
        ensures
            final(self).wf(),
            Self::transferred(*old(self), *final(self), sender_id, receiver_id, amount, now, r),
    {
        let sender = match self.accounts.get(sender_id) {
            Some(a) => a.duplicate(),
            None => return Err(Error::NotFound),
        };
        let receiver = match self.accounts.get(receiver_id) {
            Some(a) => a.duplicate(),
            None => return Err(Error::NotFound),
        };
        if amount == 0 {
            return Err(Error::InvalidState);
        }
        if sender.balance < amount {
            return Err(Error::InsufficientFunds);
        }
        if sender_id != receiver_id && receiver.balance > u64::MAX - amount {
            return Err(Error::InvalidState);
        }
        let t = Transaction { sender_id, receiver_id, amount, timestamp: now };
        if self.transactions.append(t).is_none() {
            return Err(Error::InvalidState);
        }
        if sender_id != receiver_id {
            let debited = Account { balance: sender.balance - amount, ..sender };
            self.accounts.update(sender_id, debited);
            let credited = Account { balance: receiver.balance + amount, ..receiver };
            self.accounts.update(receiver_id, credited);
        }
        Ok(t)
    }

    /// Undoes transaction `transaction_id` by transferring its amount back
    /// from its receiver to its sender, recorded as a new transaction; the
    /// reversed entry stays in the log.
    pub fn reverse_transaction(&mut self, transaction_id: u64, now: u64) -> (r: Result<
        Transaction,
        Error,
    >)
        requires
            old(self).wf(),
        ensures
            final(self).wf(),
            Self::reversed(*old(self), *final(self), transaction_id, now, r),
    {
        let t = match self.transactions.get(transaction_id) {
            Some(t) => *t,
            None => return Err(Error::NotFound),
        };
        if t.amount == 0 {
            return Err(Error::InvalidState);
        }
        self.transfer_funds(t.receiver_id, t.sender_id, t.amount, now)
    }

    /// Credits every account with interest, recording each credit as a
    /// transaction from the system account. Accounts whose interest rounds to
    /// zero, or whose credited balance would not be representable, are left
    /// as they are. Fails without a change when the transaction ids left could
    /// run out.
    pub fn apply_interest_to_all_accounts(&mut self, now: u64) -> (r: Result<(), Error>)
        requires
            old(self).wf(),
        ensures
            final(self).wf(),
            ({
                let accts = old(self).account_store().entries();
                if old(self).transaction_store().next_key() + accts.len() >= u64::MAX {
                    r == Err::<(), Error>(Error::InvalidState) && *final(self) == *old(self)
                } else {
                    &&& r is Ok
                    &&& final(self).account_store().entries() == accts.map_values(
                        |e: (u64, Account)| (e.0, with_interest(e.1)),
                    )
                    &&& final(self).account_store().next_key() == old(self).account_store().next_key()
                    &&& final(self).transaction_store().values() == old(
                        self,
                    ).transaction_store().values() + interest_records(
                        old(self).account_store().values(),
                        now,
                    )
                    &&& final(self).transaction_store().entries() == old(
                        self,
                    ).transaction_store().entries() + keyed_from(
                        interest_records(old(self).account_store().values(), now),
                        old(self).transaction_store().next_key() as int,
                    )
                    &&& final(self).transaction_store().next_key() == old(
                        self,
                    ).transaction_store().next_key() + interest_records(
                        old(self).account_store().values(),
                        now,
                    ).len()
                    &&& final(self).stake_store() == old(self).stake_store()
                    &&& final(self).audit_store() == old(self).audit_store()
                    &&& final(self).notification_store() == old(self).notification_store()
                }
            }),
    {
        let n = self.accounts.len();
        if self.transactions.peek_next_key() as u128 + n as u128 >= u64::MAX as u128 {
            return Err(Error::InvalidState);
        }
        let ghost pre = *self;
        let ghost accts = pre.account_store().entries();
        let ghost vals = pre.account_store().values();
        let mut i: usize = 0;
        while i < n
            invariant
                self.wf(),
                n == accts.len(),
                vals == values_of(accts),
                i <= n,
                pre.transaction_store().next_key() + n < u64::MAX,
                self.account_store().entries().len() == n,
                forall|j: int|
                    0 <= j < i ==> #[trigger] self.account_store().entries()[j] == (
                        accts[j].0,
                        with_interest(accts[j].1),
                    ),
                forall|j: int| i <= j < n ==> #[trigger] self.account_store().entries()[j] == accts[j],
                self.transaction_store().values() == pre.transaction_store().values()
                    + interest_records(vals.subrange(0, i as int), now),
                self.transaction_store().entries() == pre.transaction_store().entries()
                    + keyed_from(
                    interest_records(vals.subrange(0, i as int), now),
                    pre.transaction_store().next_key() as int,
                ),
                self.account_store().next_key() == pre.account_store().next_key(),
                interest_records(vals.subrange(0, i as int), now).len() <= i,
                self.transaction_store().next_key() == pre.transaction_store().next_key()
                    + interest_records(vals.subrange(0, i as int), now).len(),
                self.stake_store() == pre.stake_store(),
                self.audit_store() == pre.audit_store(),
                self.notification_store() == pre.notification_store(),
            decreases n - i,
        {
            let ghost before = self.account_store().entries();
            let (key, acc) = self.accounts.entry_at(i);
            let a = acc.duplicate();
            proof {
                lemma_map_at(before, i as int);
                assert(vals.subrange(0, i + 1).drop_last() =~= vals.subrange(0, i as int));
                assert(vals.subrange(0, i + 1).last() == a);
            }
            let interest = ((a.balance as u128) * (INTEREST_RATE_PERCENT as u128) / 100) as u64;
            if interest > 0 && a.balance <= u64::MAX - interest {
                let t = Transaction {
                    sender_id: SYSTEM_ACCOUNT_ID,
                    receiver_id: a.id,
                    amount: interest,
                    timestamp: now,
                };
                self.transactions.append(t);
                let credited = Account { balance: a.balance + interest, ..a };
                self.accounts.update(key, credited);
                proof {
                    assert forall|j: int| 0 <= j < n && j != i implies before[j].0 != key by {
                        if j < i {
                            assert(before[j].0 < before[i as int].0);
                        } else {
                            assert(before[i as int].0 < before[j].0);
                        }
                    }
                    assert(self.transaction_store().values() =~= pre.transaction_store().values()
                        + interest_records(vals.subrange(0, i + 1), now));
                    assert(self.transaction_store().entries() =~= pre.transaction_store().entries()
                        + keyed_from(
                        interest_records(vals.subrange(0, i + 1), now),
                        pre.transaction_store().next_key() as int,
                    ));
                }
            } else {
                proof {
                    assert(self.transaction_store().values() =~= pre.transaction_store().values()
                        + interest_records(vals.subrange(0, i + 1), now));
                    assert(self.transaction_store().entries() =~= pre.transaction_store().entries()
                        + keyed_from(
                        interest_records(vals.subrange(0, i + 1), now),
                        pre.transaction_store().next_key() as int,
                    ));
                }
            }
            i = i + 1;
        }
        proof {
            assert(vals.subrange(0, n as int) =~= vals);
            assert(self.account_store().entries() =~= accts.map_values(
                |e: (u64, Account)| (e.0, with_interest(e.1)),
            ));
        }
        Ok(())
    }

    /// Pays the reward of every active stake that has matured by `now` to its
    /// owner, settles the stake so that it is never paid again, and records an
    /// audit entry for each payment. Every active stake's owner exists; a
    /// stake whose reward would push the balance past the largest amount
    /// stays active.
    /// Fails without a change when the audit ids left could run out.
    pub fn calculate_and_distribute_rewards(&mut self, now: u64) -> (r: Result<(), Error>)
        requires
            old(self).wf(),
        ensures
            final(self).wf(),
            Self::rewards_distributed(*old(self), *final(self), now, r),
    {
        let n = self.stakes.len();
        if self.audit_logs.peek_next_key() as u128 + n as u128 >= u64::MAX as u128 {
            return Err(Error::InvalidState);
        }
        let ghost pre = *self;
        let ghost stakes = pre.stake_store().entries();
        let mut i: usize = 0;
        while i < n
            invariant
                self.wf(),
                n == stakes.len(),
                i <= n,
                pre.audit_store().next_key() + n < u64::MAX,
                settled_stakes(
                    stakes.subrange(0, i as int),
                    self.stake_store().entries().subrange(0, i as int),
                ).len() <= i,
                self.account_store().next_key() == pre.account_store().next_key(),
                self.stake_store().next_key() == pre.stake_store().next_key(),
                settled_from(stakes, self.stake_store().entries(), now),
                forall|j: int| i <= j < n ==> #[trigger] self.stake_store().entries()[j] == stakes[j],
                only_credited(pre.accounts(), self.accounts()),
                self.stake_store().entries().len() == n,
                Self::rewards_audited(
                    pre.audit_store(),
                    self.audit_store(),
                    settled_stakes(
                        stakes.subrange(0, i as int),
                        self.stake_store().entries().subrange(0, i as int),
                    ),
                    now,
                ),
                forall|k: u64| #[trigger]
                    pre.accounts().contains_key(k) ==> self.accounts()[k].balance
                        == pre.accounts()[k].balance + rewards_paid(
                        stakes.subrange(0, i as int),
                        self.stake_store().entries().subrange(0, i as int),
                        k,
                    ),
                forall|j: int|
                    0 <= j < i ==> !payable(
                        #[trigger] self.stake_store().entries()[j].1,
                        self.accounts(),
                        now,
                    ),
                none_payable(stakes, pre.accounts(), now) ==> *self == pre,
                self.transaction_store() == pre.transaction_store(),
                self.notification_store() == pre.notification_store(),
            decreases n - i,
        {
            let ghost before = self.stake_store().entries();
            let ghost accounts_before = self.accounts();
            let (key, st_ref) = self.stakes.entry_at(i);
            let st = *st_ref;
            proof {
                lemma_map_at(before, i as int);
            }
            if st.status == StakeStatus::Active && now >= st.staking_since && now - st.staking_since
                >= st.staking_period {
                let reward = Self::calculate_reward(st.staked_amount, st.staking_period);
                let owner = match self.accounts.get(st.account_id) {
                    Some(a) => Some(a.duplicate()),
                    None => None,
                };
                match owner {
                    Some(a) => {
                        if reward <= (u64::MAX - a.balance) as u128 {
                            let reward = reward as u64;
                            let credited = Account { balance: a.balance + reward, ..a };
                            self.accounts.update(st.account_id, credited);
                            let settled = Stake { status: StakeStatus::Settled, ..st };
                            self.stakes.update(key, settled);
                            proof {
                                assert(self.accounts().dom() =~= pre.accounts().dom());
                                assert forall|k: u64| #[trigger]
                                    pre.accounts().contains_key(k) implies self.accounts()[k].balance
                                    >= pre.accounts()[k].balance && self.accounts()[k]
                                    == pre.accounts()[k].with_balance(
                                    self.accounts()[k].balance,
                                ) by {
                                    assert(accounts_before.contains_key(k));
                                }
                                assert forall|j: int| 0 <= j < n && j != i implies before[j].0
                                    != key by {
                                    if j < i {
                                        assert(before[j].0 < before[i as int].0);
                                    } else {
                                        assert(before[i as int].0 < before[j].0);
                                    }
                                }
                                assert forall|j: int| 0 <= j < i implies !payable(
                                    #[trigger] self.stake_store().entries()[j].1,
                                    self.accounts(),
                                    now,
                                ) by {
                                    assert(self.stake_store().entries()[j] == before[j]);
                                    assert(!payable(before[j].1, accounts_before, now));
                                }
                            }
                            let details = reward_details(reward);
                            let _ = self.log_audit_entry(
                                ActionType::RewardDistribution,
                                st.account_id,
                                details,
                                now,
                            );
                        }
                    },
                    None => {},
                }
            }
            proof {
                let after = self.stake_store().entries();
                assert(stakes.subrange(0, i + 1).drop_last() =~= stakes.subrange(0, i as int));
                assert(after.subrange(0, i + 1).drop_last() =~= after.subrange(0, i as int));
                assert(after.subrange(0, i as int) =~= before.subrange(0, i as int));
            }
            i = i + 1;
        }
        proof {
            assert(stakes.subrange(0, n as int) =~= stakes);
            assert(self.stake_store().entries().subrange(0, n as int)
                =~= self.stake_store().entries());
        }
        Ok(())
    }

    /// Removes account `id`. An account that still has an active stake is
    /// kept, so that no stake outlives its owner.
    pub fn delete_account(&mut self, id: u64) -> (r: Result<(), Error>)
        requires
            old(self).wf(),
        ensures
            final(self).wf(),
            final(self).account_store().next_key() == old(self).account_store().next_key(),
            Self::only_accounts_changed(*old(self), *final(self)),
            !old(self).accounts().contains_key(id) ==> r == Err::<(), Error>(Error::NotFound)
                && *final(self) == *old(self),
            old(self).accounts().contains_key(id) && has_active_stake(
                old(self).stake_store().entries(),
                id,
            ) ==> r == Err::<(), Error>(Error::InvalidState) && *final(self) == *old(self),
            old(self).accounts().contains_key(id) && !has_active_stake(
                old(self).stake_store().entries(),
                id,
            ) ==> r is Ok && final(self).accounts() == old(self).accounts().remove(id),
    {
        if self.accounts.get(id).is_none() {
            return Err(Error::NotFound);
        }
        let mut i: usize = 0;
        while i < self.stakes.len()
            invariant
                *self == *old(self),
                self.wf(),
                self.accounts().contains_key(id),
                i <= self.stake_store().entries().len(),
                forall|j: int|
                    0 <= j < i ==> !(self.stake_store().entries()[j].1.account_id == id
                        && self.stake_store().entries()[j].1.status == StakeStatus::Active),
            decreases self.stake_store().entries().len() - i,
        {
            let (_, stake) = self.stakes.entry_at(i);
            if stake.account_id == id && stake.status == StakeStatus::Active {
                return Err(Error::InvalidState);
            }
            i = i + 1;
        }
        self.accounts.remove(id);
        Ok(())
    }

    /// The ids of the transactions of account `id` that look suspicious at
    /// time `now`.
    pub fn check_for_suspicious_activity(&self, account_id: u64, now: u64) -> (r: Vec<u64>)
        ensures
            r@ == suspicious_ids(self.transaction_store().entries(), account_id, now),
    {
        let ghost s = self.transaction_store().entries();
        let mut related: Vec<u64> = Vec::new();
        let mut large: Vec<u64> = Vec::new();
        let mut i: usize = 0;
        while i < self.transactions.len()
            invariant
                s == self.transaction_store().entries(),
                i <= s.len(),
                related@ == related_ids(s.subrange(0, i as int), account_id, now),
                large@ == large_ids(s.subrange(0, i as int), account_id, now),
            decreases s.len() - i,
        {
            let (key, t) = self.transactions.entry_at(i);
            proof {
                assert(s.subrange(0, i + 1).drop_last() =~= s.subrange(0, i as int));
            }
            let recent = t.timestamp <= now && now - t.timestamp <= SUSPICIOUS_WINDOW;
            if (t.sender_id == account_id || t.receiver_id == account_id) && recent {
                related.push(key);
                if t.amount > SUSPICIOUS_AMOUNT_THRESHOLD {
                    large.push(key);
                }
            }
            i = i + 1;
        }
        proof {
            assert(s.subrange(0, i as int) =~= s);
        }
        if related.len() > MAX_TRANSACTIONS_IN_WINDOW {
            related
        } else {
            large
        }
    }

    /// Locks `amount` of account `account_id` in a new stake for
    /// `staking_period` seconds from `now`, and returns the stake's id.
    pub fn create_stake(&mut self, account_id: u64, amount: u64, staking_period: u64, now: u64) -> (r:
        Result<u64, Error>)
        requires
            old(self).wf(),
        ensures
            final(self).wf(),
            final(self).account_store().next_key() == old(self).account_store().next_key(),
            final(self).transaction_store() == old(self).transaction_store(),
            final(self).audit_store() == old(self).audit_store(),
            final(self).notification_store() == old(self).notification_store(),
            !old(self).accounts().contains_key(account_id) ==> r == Err::<u64, Error>(
                Error::NotFound,
            ) && *final(self) == *old(self),
            old(self).accounts().contains_key(account_id) && amount == 0 ==> r == Err::<u64, Error>(
                Error::InvalidState,
            ) && *final(self) == *old(self),
            old(self).accounts().contains_key(account_id) && amount > 0 && old(self).accounts()[account_id].balance
                < amount ==> r == Err::<u64, Error>(Error::InsufficientFunds) && *final(self)
                == *old(self),
            ({
                let a = old(self).accounts();
                let key = old(self).stake_store().next_key();
                a.contains_key(account_id) && amount > 0 && a[account_id].balance >= amount ==> if key
                    == u64::MAX {
                    r == Err::<u64, Error>(Error::InvalidState) && *final(self) == *old(self)
                } else {
                    let stake = Stake {
                        account_id,
                        staked_amount: amount,
                        staking_since: now,
                        staking_period,
                        status: StakeStatus::Active,
                    };
                    &&& r == Ok::<u64, Error>(key)
                    &&& !old(self).stakes().contains_key(key)
                    &&& final(self).stakes() == old(self).stakes().insert(key, stake)
                    &&& final(self).stake_store().entries() == old(self).stake_store().entries().push(
                        (key, stake),
                    )
                    &&& final(self).stake_store().next_key() == key + 1
                    &&& final(self).accounts() == a.insert(
                        account_id,
                        a[account_id].with_balance((a[account_id].balance - amount) as u64),
                    )
                }
            }),
    {
        let account = match self.accounts.get(account_id) {
            Some(a) => a.duplicate(),
            None => return Err(Error::NotFound),
        };
        if amount == 0 {
            return Err(Error::InvalidState);
        }
        if account.balance < amount {
            return Err(Error::InsufficientFunds);
        }
        let stake = Stake {
            account_id,
            staked_amount: amount,
            staking_since: now,
            staking_period,
            status: StakeStatus::Active,
        };
        match self.stakes.append(stake) {
            Some(key) => {
                let debited = Account { balance: account.balance - amount, ..account };
                self.accounts.update(account_id, debited);
                Ok(key)
            },
            None => Err(Error::InvalidState),
        }
    }

    /// The stake with id `stake_id`.
    pub fn get_stake(&self, stake_id: u64) -> (r: Result<Stake, Error>)
        requires
            self.wf(),
        ensures
            self.stakes().contains_key(stake_id) ==> r == Ok::<Stake, Error>(
                self.stakes()[stake_id],
            ),
            !self.stakes().contains_key(stake_id) ==> r == Err::<Stake, Error>(Error::NotFound),
    {
        match self.stakes.get(stake_id) {
            Some(st) => Ok(*st),
            None => Err(Error::NotFound),
        }
    }

    /// All stakes, by increasing stake id.
    pub fn get_all_stakes(&self) -> (r: Vec<Stake>)
        ensures
            r@ == self.stake_store().values(),
    {
        self.stakes.to_vec()
    }

    /// Records a notification for account `account_id` under a fresh
    /// notification id, which it returns.
    pub fn create_log_entry(&mut self, account_id: u64, message: String, now: u64) -> (r: Result<
        u64,
        Error,
    >)
        requires
            old(self).wf(),
        ensures
            final(self).wf(),
            final(self).account_store() == old(self).account_store(),
            final(self).transaction_store() == old(self).transaction_store(),
            final(self).stake_store() == old(self).stake_store(),
            final(self).audit_store() == old(self).audit_store(),
            ({
                let key = old(self).notification_store().next_key();
                if key == u64::MAX {
                    r == Err::<u64, Error>(Error::InvalidState) && *final(self) == *old(self)
                } else {
                    let entry = NotificationLogEntry { id: key, account_id, message, timestamp: now };
                    &&& r == Ok::<u64, Error>(key)
                    &&& final(self).notification_store()@ == old(self).notification_store()@.insert(
                        key,
                        entry,
                    )
                    &&& final(self).notification_store().values() == old(
                        self,
                    ).notification_store().values().push(entry)
                }
            }),
    {
        let id = self.notification_logs.peek_next_key();
        let entry = NotificationLogEntry { id, account_id, message, timestamp: now };
        match self.notification_logs.append(entry) {
            Some(key) => Ok(key),
            None => Err(Error::InvalidState),
        }
    }

    /// All notifications, by increasing id.
    pub fn get_logs(&self) -> (r: Vec<NotificationLogEntry>)
        ensures
            r@ == self.notification_store().values(),
    {
        self.notification_logs.to_vec()
    }

    /// Records an audit entry under a fresh audit id and returns it.
    pub fn log_audit_entry(
        &mut self,
        action_type: ActionType,
        affected_account_id: u64,
        details: String,
        now: u64,
    ) -> (r: Result<AuditLogEntry, Error>)
        requires
            old(self).wf(),
        ensures
            final(self).wf(),
            final(self).account_store() == old(self).account_store(),
            final(self).transaction_store() == old(self).transaction_store(),
            final(self).stake_store() == old(self).stake_store(),
            final(self).notification_store() == old(self).notification_store(),
            Self::audit_logged(
                old(self).audit_store(),
                final(self).audit_store(),
                action_type,
                affected_account_id,
                details,
                now,
                r,
            ),
    {
        let id = self.audit_logs.peek_next_key();
        let entry = AuditLogEntry { id, action_type, affected_account_id, timestamp: now, details };
        let copy = entry.duplicate();
        match self.audit_logs.append(entry) {
            Some(_) => Ok(copy),
            None => Err(Error::InvalidState),
        }
    }

    /// The outcome of appending an audit entry to `pre`, giving `post`.
    pub open spec fn audit_logged(
        pre: Store<AuditLogEntry>,
        post: Store<AuditLogEntry>,
        action_type: ActionType,
        affected_account_id: u64,
        details: String,
        now: u64,
        r: Result<AuditLogEntry, Error>,
    ) -> bool {
        let key = pre.next_key();
        if key == u64::MAX {
            r == Err::<AuditLogEntry, Error>(Error::InvalidState) && post == pre
        } else {
            let entry = AuditLogEntry {
                id: key,
                action_type,
                affected_account_id,
                timestamp: now,
                details,
            };
            &&& r == Ok::<AuditLogEntry, Error>(entry)
            &&& post@ == pre@.insert(key, entry)
            &&& post.values() == pre.values().push(entry)
            &&& post.entries() == pre.entries().push((key, entry))
            &&& post.next_key() == key + 1
            &&& post.wf()
        }
    }

    /// All audit entries, by increasing id.
    pub fn get_audit_logs(&self) -> (r: Vec<AuditLogEntry>)
        ensures
            r@ == self.audit_store().values(),
    {
        self.audit_logs.to_vec()
    }
}

} // verus!
