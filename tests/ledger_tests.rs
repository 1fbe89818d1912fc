use ledger::policy::SUSPICIOUS_AMOUNT_THRESHOLD;
use ledger::state::LedgerState;
use ledger::model::UNITS_PER_TOKEN;
use ledger::store::StoreImage;
use ledger::text::reward_details;
use ledger::{ActionType, Error, StakeStatus, Transaction};

const T: u64 = UNITS_PER_TOKEN;

fn balance(l: &LedgerState, id: u64) -> u64 {
    l.get_account_balance(id).unwrap()
}

#[test]
fn transfer_then_reverse_scenario() {
    let mut l = LedgerState::new();
    let a = l.create_account("A".to_string(), 1000 * T, 10).unwrap();
    let b = l.create_account("B".to_string(), 0, 10).unwrap();
    let t = l.transfer_funds(a.id, b.id, 300 * T, 20).unwrap();
    assert_eq!(t, Transaction { sender_id: a.id, receiver_id: b.id, amount: 300 * T, timestamp: 20 });
    assert_eq!(balance(&l, a.id), 700 * T);
    assert_eq!(balance(&l, b.id), 300 * T);
    let log = l.get_all_transactions().unwrap();
    assert_eq!(log, vec![t]);
    let r = l.reverse_transaction(1, 30).unwrap();
    assert_eq!(r, Transaction { sender_id: b.id, receiver_id: a.id, amount: 300 * T, timestamp: 30 });
    assert_eq!(balance(&l, a.id), 1000 * T);
    assert_eq!(balance(&l, b.id), 0);
    assert_eq!(l.get_all_transactions().unwrap().len(), 2);
}

#[test]
fn stake_reward_scenario() {
    let mut l = LedgerState::new();
    let a = l.create_account("A".to_string(), 500 * T, 0).unwrap();
    let sid = l.create_stake(a.id, 500 * T, 86400, 100).unwrap();
    assert_eq!(balance(&l, a.id), 0);
    // Not yet mature: nothing is paid.
    l.calculate_and_distribute_rewards(100 + 86399).unwrap();
    assert_eq!(balance(&l, a.id), 0);
    l.calculate_and_distribute_rewards(100 + 86400).unwrap();
    // 500 * 0.05 / 365 = 0.06849315... units.
    assert_eq!(balance(&l, a.id), 6_849_315);
    assert_eq!(l.get_stake(sid).unwrap().status, StakeStatus::Settled);
    let audit = l.get_audit_logs();
    assert_eq!(audit.len(), 1);
    assert_eq!(audit[0].action_type, ActionType::RewardDistribution);
    assert_eq!(audit[0].affected_account_id, a.id);
    assert_eq!(audit[0].details, "Distributed reward of 6849315");
}

#[test]
fn calculate_reward_values() {
    assert_eq!(LedgerState::calculate_reward(500 * T, 86400), 6_849_315);
    assert_eq!(LedgerState::calculate_reward(0, 86400), 0);
    assert_eq!(LedgerState::calculate_reward(365 * T, 365 * 86400), 1_825_000_000);
    assert_eq!(
        LedgerState::calculate_reward(u64::MAX, u64::MAX),
        (u64::MAX as u128 * u64::MAX as u128) / 630_720_000
    );
}

#[test]
fn rewards_are_not_paid_twice() {
    let mut l = LedgerState::new();
    let a = l.create_account("A".to_string(), 1000 * T, 0).unwrap();
    l.create_stake(a.id, 500 * T, 86400, 0).unwrap();
    l.calculate_and_distribute_rewards(86400).unwrap();
    let after_first = balance(&l, a.id);
    assert_eq!(after_first, 500 * T + 6_849_315);
    l.calculate_and_distribute_rewards(86400).unwrap();
    assert_eq!(balance(&l, a.id), after_first);
    l.calculate_and_distribute_rewards(10 * 86400).unwrap();
    assert_eq!(balance(&l, a.id), after_first);
    assert_eq!(l.get_audit_logs().len(), 1);
}

#[test]
fn create_then_get_round_trip() {
    let mut l = LedgerState::new();
    let a = l.create_account("Alice".to_string(), 42, 77).unwrap();
    let got = l.get_account(a.id).unwrap();
    assert_eq!(got.holder_name, "Alice");
    assert_eq!(got.balance, 42);
    assert!(got.created_at <= 77);
    assert_eq!(got, a);
    assert_eq!(l.get_account_created_at(a.id), Ok(77));
    assert_eq!(l.get_sender_account(a.id).unwrap(), a);
    assert_eq!(l.get_receiver_account(a.id).unwrap(), a);
    assert_ne!(a.id, 0);
}

#[test]
fn account_ids_are_unique_and_increasing() {
    let mut l = LedgerState::new();
    let a = l.create_account("A".to_string(), 1, 0).unwrap();
    let b = l.create_account("B".to_string(), 2, 0).unwrap();
    assert!(b.id > a.id);
    l.delete_account(b.id).unwrap();
    let c = l.create_account("C".to_string(), 3, 0).unwrap();
    assert!(c.id > b.id);
    let all = l.get_all_accounts();
    assert_eq!(all.len(), 2);
    assert_eq!(all[0].id, a.id);
    assert_eq!(all[1].id, c.id);
}

#[test]
fn overdraft_is_rejected_without_change() {
    let mut l = LedgerState::new();
    let a = l.create_account("A".to_string(), 100, 0).unwrap();
    let b = l.create_account("B".to_string(), 5, 0).unwrap();
    assert_eq!(l.transfer_funds(a.id, b.id, 101, 1), Err(Error::InsufficientFunds));
    assert_eq!(balance(&l, a.id), 100);
    assert_eq!(balance(&l, b.id), 5);
    assert_eq!(l.get_all_transactions(), Err(Error::NotFound));
}

#[test]
fn transfer_of_whole_balance() {
    let mut l = LedgerState::new();
    let a = l.create_account("A".to_string(), 100, 0).unwrap();
    let b = l.create_account("B".to_string(), 5, 0).unwrap();
    l.transfer_funds(a.id, b.id, 100, 1).unwrap();
    assert_eq!(balance(&l, a.id), 0);
    assert_eq!(balance(&l, b.id), 105);
}

#[test]
fn transfer_to_missing_account() {
    let mut l = LedgerState::new();
    let a = l.create_account("A".to_string(), 100, 0).unwrap();
    assert_eq!(l.transfer_funds(a.id, 99, 1, 1), Err(Error::NotFound));
    assert_eq!(l.transfer_funds(99, a.id, 1, 1), Err(Error::NotFound));
    assert_eq!(balance(&l, a.id), 100);
}

#[test]
fn transfer_that_would_overflow_receiver() {
    let mut l = LedgerState::new();
    let a = l.create_account("A".to_string(), 10, 0).unwrap();
    let b = l.create_account("B".to_string(), u64::MAX - 5, 0).unwrap();
    assert_eq!(l.transfer_funds(a.id, b.id, 6, 1), Err(Error::InvalidState));
    assert_eq!(balance(&l, a.id), 10);
    l.transfer_funds(a.id, b.id, 5, 1).unwrap();
    assert_eq!(balance(&l, b.id), u64::MAX);
}

#[test]
fn transfer_to_self_keeps_balance() {
    let mut l = LedgerState::new();
    let a = l.create_account("A".to_string(), 10, 0).unwrap();
    l.transfer_funds(a.id, a.id, 7, 1).unwrap();
    assert_eq!(balance(&l, a.id), 10);
    assert_eq!(l.get_all_transactions().unwrap().len(), 1);
}

#[test]
fn reversal_errors() {
    let mut l = LedgerState::new();
    let a = l.create_account("A".to_string(), 100, 0).unwrap();
    let b = l.create_account("B".to_string(), 0, 0).unwrap();
    assert_eq!(l.reverse_transaction(1, 5), Err(Error::NotFound));
    l.transfer_funds(a.id, b.id, 40, 2).unwrap();
    l.transfer_funds(b.id, a.id, 30, 3).unwrap();
    // B now holds 10 and cannot pay back 40.
    assert_eq!(l.reverse_transaction(1, 5), Err(Error::InsufficientFunds));
    assert_eq!(balance(&l, b.id), 10);
    l.delete_account(b.id).unwrap();
    assert_eq!(l.reverse_transaction(2, 5), Err(Error::NotFound));
    assert_eq!(l.get_all_transactions().unwrap().len(), 2);
}

#[test]
fn zero_amount_transfer_is_rejected() {
    let mut l = LedgerState::new();
    let a = l.create_account("A".to_string(), 100, 0).unwrap();
    let b = l.create_account("B".to_string(), 0, 0).unwrap();
    assert_eq!(l.transfer_funds(a.id, b.id, 0, 1), Err(Error::InvalidState));
    assert_eq!(l.transfer_funds(a.id, 99, 0, 1), Err(Error::NotFound));
    assert_eq!(l.get_all_transactions(), Err(Error::NotFound));
    assert_eq!(balance(&l, a.id), 100);
}

#[test]
fn zero_amount_transaction_is_not_reversed() {
    let mut l = LedgerState::new();
    let a = l.create_account("A".to_string(), 100, 0).unwrap();
    let b = l.create_account("B".to_string(), 0, 0).unwrap();
    let mut img = l.image();
    img.transactions = StoreImage {
        entries: vec![(1, Transaction { sender_id: a.id, receiver_id: b.id, amount: 0, timestamp: 0 })],
        next_key: 2,
    };
    let mut l = LedgerState::from_image(img).unwrap();
    assert_eq!(l.reverse_transaction(1, 5), Err(Error::InvalidState));
}

#[test]
fn transaction_ids_are_listed_and_reversible() {
    let mut l = LedgerState::new();
    let a = l.create_account("A".to_string(), 100, 0).unwrap();
    let b = l.create_account("B".to_string(), 0, 0).unwrap();
    let t1 = l.transfer_funds(a.id, b.id, 10, 1).unwrap();
    let t2 = l.transfer_funds(a.id, b.id, 20, 2).unwrap();
    assert_eq!(l.get_transaction_entries(), vec![(1, t1), (2, t2)]);
    let r = l.reverse_transaction(2, 3).unwrap();
    assert_eq!(l.get_transaction_entries(), vec![(1, t1), (2, t2), (3, r)]);
    assert_eq!(balance(&l, a.id), 90);
}

#[test]
fn interest_records_take_fresh_ids() {
    let mut l = LedgerState::new();
    let a = l.create_account("A".to_string(), 1000, 0).unwrap();
    let b = l.create_account("B".to_string(), 500, 0).unwrap();
    let t = l.transfer_funds(a.id, b.id, 100, 1).unwrap();
    l.apply_interest_to_all_accounts(9).unwrap();
    assert_eq!(
        l.get_transaction_entries(),
        vec![
            (1, t),
            (2, Transaction { sender_id: 0, receiver_id: a.id, amount: 9, timestamp: 9 }),
            (3, Transaction { sender_id: 0, receiver_id: b.id, amount: 6, timestamp: 9 }),
        ]
    );
    let c = l.transfer_funds(a.id, b.id, 1, 10).unwrap();
    assert_eq!(l.get_transaction_entries()[3], (4, c));
}

#[test]
fn reward_audit_entries_name_the_owner() {
    let mut l = LedgerState::new();
    let a = l.create_account("A".to_string(), 500 * T, 0).unwrap();
    let b = l.create_account("B".to_string(), 500 * T, 0).unwrap();
    l.log_audit_entry(ActionType::AccountCreation, a.id, "made".to_string(), 0).unwrap();
    l.create_stake(b.id, 500 * T, 86400, 0).unwrap();
    l.create_stake(a.id, 500 * T, 2 * 86400, 0).unwrap();
    l.calculate_and_distribute_rewards(2 * 86400).unwrap();
    let audit = l.get_audit_logs();
    assert_eq!(audit.len(), 3);
    assert_eq!((audit[1].id, audit[1].affected_account_id), (2, b.id));
    assert_eq!(audit[1].details, "Distributed reward of 6849315");
    assert_eq!((audit[2].id, audit[2].affected_account_id), (3, a.id));
    assert_eq!(audit[2].details, "Distributed reward of 13698630");
    assert_eq!(audit[2].timestamp, 2 * 86400);
    assert_eq!(balance(&l, a.id), 13_698_630);
}

#[test]
fn image_with_orphan_active_stake_is_refused() {
    let mut l = LedgerState::new();
    let a = l.create_account("A".to_string(), 100, 0).unwrap();
    l.create_stake(a.id, 10, 5, 0).unwrap();
    let mut img = l.image();
    img.accounts.entries.clear();
    assert!(LedgerState::from_image(img).is_none());
    l.calculate_and_distribute_rewards(5).unwrap();
    let mut img = l.image();
    img.accounts.entries.clear();
    assert!(LedgerState::from_image(img).is_some());
}

#[test]
fn update_holder_name() {
    let mut l = LedgerState::new();
    let a = l.create_account("A".to_string(), 100, 0).unwrap();
    l.update_account_holder_name(a.id, "Z".to_string()).unwrap();
    let got = l.get_account(a.id).unwrap();
    assert_eq!(got.holder_name, "Z");
    assert_eq!(got.balance, 100);
    assert_eq!(l.update_account_holder_name(99, "Q".to_string()), Err(Error::NotFound));
    assert_eq!(l.get_account(99), Err(Error::NotFound));
    assert_eq!(l.get_account_balance(99), Err(Error::NotFound));
    assert_eq!(l.get_account_created_at(99), Err(Error::NotFound));
}

#[test]
fn interest_is_credited_and_recorded() {
    let mut l = LedgerState::new();
    let a = l.create_account("A".to_string(), 1000, 0).unwrap();
    let b = l.create_account("B".to_string(), 50, 0).unwrap();
    let c = l.create_account("C".to_string(), u64::MAX - 1, 0).unwrap();
    l.apply_interest_to_all_accounts(9).unwrap();
    assert_eq!(balance(&l, a.id), 1010);
    assert_eq!(balance(&l, b.id), 50);
    assert_eq!(balance(&l, c.id), u64::MAX - 1);
    let log = l.get_all_transactions().unwrap();
    assert_eq!(log, vec![Transaction { sender_id: 0, receiver_id: a.id, amount: 10, timestamp: 9 }]);
}

#[test]
fn suspicious_by_count() {
    let mut l = LedgerState::new();
    let a = l.create_account("A".to_string(), 1000, 0).unwrap();
    let b = l.create_account("B".to_string(), 0, 0).unwrap();
    for k in 0..11u64 {
        l.transfer_funds(a.id, b.id, 1, 100_000 + k).unwrap();
    }
    let ids = l.check_for_suspicious_activity(a.id, 100_020);
    assert_eq!(ids, (1..=11).collect::<Vec<u64>>());
    // Ten within the window are not too many.
    let ids = l.check_for_suspicious_activity(b.id, 100_000 + 86401);
    assert_eq!(ids, Vec::<u64>::new());
}

#[test]
fn suspicious_by_amount() {
    let mut l = LedgerState::new();
    let a = l.create_account("A".to_string(), 100_000 * T, 0).unwrap();
    let b = l.create_account("B".to_string(), 0, 0).unwrap();
    let c = l.create_account("C".to_string(), 0, 0).unwrap();
    l.transfer_funds(a.id, b.id, SUSPICIOUS_AMOUNT_THRESHOLD + 1, 10).unwrap();
    l.transfer_funds(a.id, b.id, SUSPICIOUS_AMOUNT_THRESHOLD, 10).unwrap();
    l.transfer_funds(a.id, c.id, 20_000 * T, 200_000).unwrap();
    l.transfer_funds(a.id, c.id, 1, 200_000).unwrap();
    assert_eq!(l.check_for_suspicious_activity(a.id, 200_000), vec![3]);
    assert_eq!(l.check_for_suspicious_activity(b.id, 20), vec![1]);
    assert_eq!(l.check_for_suspicious_activity(c.id, 200_000 + 86400), vec![3]);
    assert_eq!(l.check_for_suspicious_activity(c.id, 200_000 + 86401), Vec::<u64>::new());
    // A transaction stamped after `now` is outside the window.
    assert_eq!(l.check_for_suspicious_activity(c.id, 5), Vec::<u64>::new());
}

#[test]
fn stake_errors() {
    let mut l = LedgerState::new();
    let a = l.create_account("A".to_string(), 100, 0).unwrap();
    assert_eq!(l.create_stake(99, 1, 10, 0), Err(Error::NotFound));
    assert_eq!(l.create_stake(a.id, 0, 10, 0), Err(Error::InvalidState));
    assert_eq!(l.create_stake(a.id, 101, 10, 0), Err(Error::InsufficientFunds));
    assert_eq!(balance(&l, a.id), 100);
    assert_eq!(l.get_all_stakes().len(), 0);
    assert_eq!(l.get_stake(1), Err(Error::NotFound));
}

#[test]
fn two_stakes_in_same_second_are_both_kept() {
    let mut l = LedgerState::new();
    let a = l.create_account("A".to_string(), 100, 0).unwrap();
    let s1 = l.create_stake(a.id, 30, 10, 5).unwrap();
    let s2 = l.create_stake(a.id, 20, 10, 5).unwrap();
    assert_ne!(s1, s2);
    assert_eq!(l.get_all_stakes().len(), 2);
    assert_eq!(balance(&l, a.id), 50);
}

#[test]
fn delete_account_policy() {
    let mut l = LedgerState::new();
    let a = l.create_account("A".to_string(), 100 * T, 0).unwrap();
    assert_eq!(l.delete_account(99), Err(Error::NotFound));
    l.create_stake(a.id, 10 * T, 86400, 0).unwrap();
    assert_eq!(l.delete_account(a.id), Err(Error::InvalidState));
    assert!(l.get_account(a.id).is_ok());
    l.calculate_and_distribute_rewards(86400).unwrap();
    assert_eq!(l.delete_account(a.id), Ok(()));
    assert_eq!(l.get_account(a.id), Err(Error::NotFound));
}

#[test]
fn logs_are_independent() {
    let mut l = LedgerState::new();
    let n1 = l.create_log_entry(7, "hello".to_string(), 3).unwrap();
    let n2 = l.create_log_entry(8, "again".to_string(), 4).unwrap();
    assert_eq!(l.get_logs().len(), 2);
    assert_eq!(l.get_audit_logs().len(), 0);
    let e = l.log_audit_entry(ActionType::AccountUpdate, 7, "renamed".to_string(), 5).unwrap();
    assert_eq!(e.id, 1);
    assert_eq!(e.timestamp, 5);
    assert_eq!(e.details, "renamed");
    assert_eq!(l.get_logs().len(), 2);
    assert_eq!(l.get_audit_logs().len(), 1);
    assert_eq!((n1, n2), (1, 2));
    let logs = l.get_logs();
    assert_eq!(logs[1].message, "again");
    assert_eq!(logs[1].account_id, 8);
    assert_eq!(ActionType::default(), ActionType::Unspecified);
}

#[test]
fn reward_details_text() {
    assert_eq!(reward_details(0), "Distributed reward of 0");
    assert_eq!(reward_details(6_849_315), "Distributed reward of 6849315");
}

#[test]
fn image_round_trip_keeps_ids_increasing() {
    let mut l = LedgerState::new();
    let a = l.create_account("A".to_string(), 100, 0).unwrap();
    let b = l.create_account("B".to_string(), 0, 0).unwrap();
    l.transfer_funds(a.id, b.id, 10, 1).unwrap();
    l.delete_account(b.id).unwrap();
    l.create_stake(a.id, 5, 10, 2).unwrap();
    l.create_log_entry(a.id, "hi".to_string(), 3).unwrap();
    l.log_audit_entry(ActionType::AccountCreation, a.id, "made".to_string(), 3).unwrap();
    let mut r = LedgerState::from_image(l.image()).unwrap();
    assert_eq!(r.get_all_accounts(), l.get_all_accounts());
    assert_eq!(r.get_all_transactions(), l.get_all_transactions());
    assert_eq!(r.get_all_stakes(), l.get_all_stakes());
    assert_eq!(r.get_logs(), l.get_logs());
    assert_eq!(r.get_audit_logs(), l.get_audit_logs());
    // The deleted id is not handed out again.
    let c = r.create_account("C".to_string(), 0, 4).unwrap();
    assert_eq!(c.id, 3);
}

#[test]
fn malformed_images_are_refused() {
    let mut l = LedgerState::new();
    l.create_account("A".to_string(), 100, 0).unwrap();
    l.create_account("B".to_string(), 100, 0).unwrap();
    let mut img = l.image();
    img.accounts.entries.swap(0, 1);
    assert!(LedgerState::from_image(img).is_none());
    let mut img = l.image();
    img.accounts.next_key = 2;
    assert!(LedgerState::from_image(img).is_none());
    let mut img = l.image();
    img.accounts.entries[0].1.id = 7;
    assert!(LedgerState::from_image(img).is_none());
    let mut img = l.image();
    img.accounts.entries[0].0 = 0;
    img.accounts.entries[0].1.id = 0;
    assert!(LedgerState::from_image(img).is_none());
    let mut img = l.image();
    img.transactions = StoreImage {
        entries: vec![(4, Transaction { sender_id: 1, receiver_id: 2, amount: 1, timestamp: 0 })],
        next_key: 4,
    };
    assert!(LedgerState::from_image(img).is_none());
    assert!(LedgerState::from_image(l.image()).is_some());
}
