use ledger_engine::amount::{Amount, MAX_MANTISSA};
use ledger_engine::input::{RawCsvTransaction, TransactionType};
use ledger_engine::ledger::{summarize, Ledger};
use ledger_engine::transaction::{
    Chargeback, Deposit, Dispute, Resolve, Transaction, Withdrawal,
};

fn deposit(client: u16, tx: u32, amount: Amount) -> Transaction {
    Transaction::Deposit(Deposit { client, tx, amount })
}

fn withdrawal(client: u16, tx: u32, amount: Amount) -> Transaction {
    Transaction::Withdrawal(Withdrawal { client, tx, amount })
}

fn dispute(client: u16, tx: u32) -> Transaction {
    Transaction::Dispute(Dispute { client, tx })
}

fn resolve(client: u16, tx: u32) -> Transaction {
    Transaction::Resolve(Resolve { client, tx })
}

fn chargeback(client: u16, tx: u32) -> Transaction {
    Transaction::Chargeback(Chargeback { client, tx })
}

fn record(kind: TransactionType, client: u16, tx: u32, amount: Option<i32>) -> RawCsvTransaction {
    RawCsvTransaction { kind, client, tx, amount: amount.map(Amount::from) }
}

fn run(records: &[RawCsvTransaction]) -> Ledger {
    let mut ledger = Ledger::new();
    for record in records {
        let transaction = Transaction::try_from(record).unwrap();
        assert!(ledger.try_process(&transaction));
    }
    ledger
}

fn exactly(amount: Amount, mantissa: i128, scale: u32) -> bool {
    amount.mantissa() == mantissa && amount.scale() == scale
}

#[test]
fn dispute_then_resolve_end_to_end() {
    let ledger = run(&[
        record(TransactionType::Deposit, 1, 1, Some(5)),
        record(TransactionType::Deposit, 1, 2, Some(5)),
        record(TransactionType::Dispute, 1, 2, None),
        record(TransactionType::Resolve, 1, 2, None),
    ]);
    let rows = ledger.report().unwrap();
    assert_eq!(rows.len(), 1);
    let (client, balances) = rows[0];
    assert_eq!(client, 1);
    assert!(exactly(balances.available, 10, 0));
    assert!(exactly(balances.held, 0, 0));
    assert!(exactly(balances.total, 10, 0));
    assert!(!balances.locked);
}

#[test]
fn dispute_then_chargeback_end_to_end() {
    let ledger = run(&[
        record(TransactionType::Deposit, 1, 1, Some(5)),
        record(TransactionType::Deposit, 1, 2, Some(5)),
        record(TransactionType::Dispute, 1, 2, None),
        record(TransactionType::Chargeback, 1, 2, None),
    ]);
    let rows = ledger.report().unwrap();
    assert_eq!(rows.len(), 1);
    let (client, balances) = rows[0];
    assert_eq!(client, 1);
    assert!(exactly(balances.available, 5, 0));
    assert!(exactly(balances.held, 0, 0));
    assert!(exactly(balances.total, 5, 0));
    assert!(balances.locked);
}

#[test]
fn withdrawal_beyond_the_balance_end_to_end() {
    let ledger = run(&[
        record(TransactionType::Deposit, 2, 1, Some(10)),
        record(TransactionType::Withdrawal, 2, 2, Some(15)),
    ]);
    let rows = ledger.report().unwrap();
    assert_eq!(rows.len(), 1);
    let (client, balances) = rows[0];
    assert_eq!(client, 2);
    assert!(exactly(balances.available, 10, 0));
    assert!(exactly(balances.held, 0, 0));
    assert!(exactly(balances.total, 10, 0));
    assert!(!balances.locked);
}

#[test]
fn new_ledger_has_no_accounts() {
    let ledger = Ledger::new();
    assert!(ledger.clients().is_empty());
    assert!(ledger.account(1).is_none());
    assert!(ledger.report().unwrap().is_empty());
}

#[test]
fn first_deposit_opens_one_account() {
    let mut ledger = Ledger::new();
    ledger.process(&deposit(3, 11, Amount::new(1250, 2).unwrap()));
    assert_eq!(ledger.clients(), vec![3]);
    let account = ledger.account(3).unwrap();
    assert!(exactly(account.balance(), 1250, 2));
    assert!(exactly(account.held().unwrap(), 0, 0));
    assert!(!account.locked());
    assert!(exactly(account.deposited(11).unwrap(), 1250, 2));
    assert!(account.deposited(12).is_none());
    assert!(!account.disputed(11));
}

#[test]
fn deposit_adds_to_the_balance_and_is_recorded() {
    let mut ledger = Ledger::new();
    ledger.process(&deposit(1, 1, Amount::new(15, 1).unwrap()));
    ledger.process(&deposit(1, 2, Amount::new(225, 2).unwrap()));
    let account = ledger.account(1).unwrap();
    assert!(exactly(account.balance(), 375, 2));
    assert!(exactly(account.deposited(1).unwrap(), 15, 1));
    assert!(exactly(account.deposited(2).unwrap(), 225, 2));
}

#[test]
fn deposit_with_a_used_transaction_overwrites_the_record() {
    let mut ledger = Ledger::new();
    ledger.process(&deposit(1, 1, 5.into()));
    ledger.process(&deposit(1, 1, 3.into()));
    {
        let account = ledger.account(1).unwrap();
        assert_eq!(account.balance(), 8.into());
        assert_eq!(account.deposited(1).unwrap(), 3.into());
    }
    ledger.process(&dispute(1, 1));
    let account = ledger.account(1).unwrap();
    assert_eq!(account.balance(), 5.into());
    assert_eq!(account.held().unwrap(), 3.into());
}

#[test]
fn accounts_of_different_clients_do_not_interact() {
    let mut ledger = Ledger::new();
    ledger.process(&deposit(1, 1, 5.into()));
    ledger.process(&deposit(2, 2, 7.into()));
    ledger.process(&withdrawal(1, 3, 2.into()));
    ledger.process(&dispute(1, 2));
    assert_eq!(ledger.account(1).unwrap().balance(), 3.into());
    assert_eq!(ledger.account(2).unwrap().balance(), 7.into());
    assert!(!ledger.account(2).unwrap().disputed(2));
    let mut clients = ledger.clients();
    clients.sort();
    assert_eq!(clients, vec![1, 2]);
}

#[test]
fn only_a_deposit_opens_an_account() {
    let mut ledger = Ledger::new();
    ledger.process(&withdrawal(1, 1, 5.into()));
    ledger.process(&dispute(1, 1));
    ledger.process(&resolve(1, 1));
    ledger.process(&chargeback(1, 1));
    assert!(ledger.account(1).is_none());
    assert!(ledger.clients().is_empty());
}

#[test]
fn withdrawal_of_the_whole_balance_is_applied() {
    let mut ledger = Ledger::new();
    ledger.process(&deposit(1, 1, 10.into()));
    ledger.process(&withdrawal(1, 2, 10.into()));
    assert!(exactly(ledger.account(1).unwrap().balance(), 0, 0));
}

#[test]
fn second_withdrawal_is_refused_where_the_first_left_too_little() {
    let mut ledger = Ledger::new();
    ledger.process(&deposit(1, 1, 10.into()));
    ledger.process(&withdrawal(1, 2, 6.into()));
    assert_eq!(ledger.account(1).unwrap().balance(), 4.into());
    ledger.process(&withdrawal(1, 2, 6.into()));
    assert_eq!(ledger.account(1).unwrap().balance(), 4.into());
}

#[test]
fn withdrawal_is_not_recorded_and_cannot_be_disputed() {
    let mut ledger = Ledger::new();
    ledger.process(&deposit(1, 1, 10.into()));
    ledger.process(&withdrawal(1, 2, 4.into()));
    ledger.process(&dispute(1, 2));
    let account = ledger.account(1).unwrap();
    assert_eq!(account.balance(), 6.into());
    assert!(account.deposited(2).is_none());
    assert!(!account.disputed(2));
}

#[test]
fn dispute_holds_the_deposit() {
    let mut ledger = Ledger::new();
    ledger.process(&deposit(1, 1, 5.into()));
    ledger.process(&deposit(1, 2, 7.into()));
    ledger.process(&dispute(1, 2));
    let account = ledger.account(1).unwrap();
    assert!(account.disputed(2));
    assert!(!account.disputed(1));
    assert_eq!(account.balance(), 5.into());
    assert_eq!(account.held().unwrap(), 7.into());
    let balances = account.balances().unwrap();
    assert!(exactly(balances.available, 5, 0));
    assert!(exactly(balances.held, 7, 0));
    assert!(exactly(balances.total, 12, 0));
}

#[test]
fn held_is_the_sum_of_all_disputed_deposits() {
    let mut ledger = Ledger::new();
    ledger.process(&deposit(1, 1, Amount::new(150, 2).unwrap()));
    ledger.process(&deposit(1, 2, Amount::new(225, 2).unwrap()));
    ledger.process(&deposit(1, 3, Amount::new(1000, 2).unwrap()));
    ledger.process(&dispute(1, 1));
    ledger.process(&dispute(1, 2));
    let account = ledger.account(1).unwrap();
    assert!(exactly(account.balance(), 1000, 2));
    assert!(exactly(account.held().unwrap(), 375, 2));
    let balances = account.balances().unwrap();
    assert!(exactly(balances.available, 10, 0));
    assert!(exactly(balances.held, 375, 2));
    assert!(exactly(balances.total, 1375, 2));
}

#[test]
fn dispute_of_a_disputed_deposit_takes_the_amount_again() {
    let mut ledger = Ledger::new();
    ledger.process(&deposit(1, 1, 5.into()));
    ledger.process(&dispute(1, 1));
    ledger.process(&dispute(1, 1));
    let account = ledger.account(1).unwrap();
    assert_eq!(account.balance(), (-5).into());
    assert_eq!(account.held().unwrap(), 5.into());
}

#[test]
fn dispute_of_an_unknown_transaction_changes_nothing() {
    let mut ledger = Ledger::new();
    ledger.process(&deposit(1, 1, 5.into()));
    ledger.process(&dispute(1, 9));
    let account = ledger.account(1).unwrap();
    assert_eq!(account.balance(), 5.into());
    assert!(!account.disputed(9));
    assert!(exactly(account.held().unwrap(), 0, 0));
}

#[test]
fn dispute_then_resolve_restores_the_account() {
    let mut ledger = Ledger::new();
    ledger.process(&deposit(1, 1, Amount::new(1050, 2).unwrap()));
    ledger.process(&deposit(1, 2, Amount::new(25, 1).unwrap()));
    ledger.process(&dispute(1, 2));
    ledger.process(&resolve(1, 2));
    let account = ledger.account(1).unwrap();
    assert!(exactly(account.balance(), 1300, 2));
    assert!(!account.disputed(2));
    assert!(!account.locked());
    assert!(exactly(account.deposited(2).unwrap(), 25, 1));
}

#[test]
fn dispute_then_resolve_can_round() {
    let mut ledger = Ledger::new();
    ledger.process(&deposit(1, 1, Amount::new(MAX_MANTISSA, 0).unwrap()));
    ledger.process(&withdrawal(1, 2, Amount::new(MAX_MANTISSA, 0).unwrap()));
    ledger.process(&deposit(1, 3, Amount::new(5, 1).unwrap()));
    assert!(exactly(ledger.account(1).unwrap().balance(), 5, 1));
    assert!(ledger.try_process(&dispute(1, 1)));
    assert!(ledger.try_process(&resolve(1, 1)));
    let account = ledger.account(1).unwrap();
    assert!(!account.disputed(1));
    assert_ne!(account.balance(), Amount::new(5, 1).unwrap());
}

#[test]
fn chargeback_locks_and_keeps_the_balance() {
    let mut ledger = Ledger::new();
    ledger.process(&deposit(1, 1, 5.into()));
    ledger.process(&deposit(1, 2, 7.into()));
    ledger.process(&dispute(1, 2));
    ledger.process(&chargeback(1, 2));
    let account = ledger.account(1).unwrap();
    assert!(account.locked());
    assert!(!account.disputed(2));
    assert_eq!(account.balance(), 5.into());
    assert_eq!(account.deposited(2).unwrap(), 7.into());
    assert!(exactly(account.held().unwrap(), 0, 0));
}

#[test]
fn locked_account_refuses_withdrawals_and_takes_the_rest() {
    let mut ledger = Ledger::new();
    ledger.process(&deposit(1, 1, 5.into()));
    ledger.process(&deposit(1, 2, 7.into()));
    ledger.process(&dispute(1, 2));
    ledger.process(&chargeback(1, 2));
    ledger.process(&withdrawal(1, 3, 1.into()));
    assert_eq!(ledger.account(1).unwrap().balance(), 5.into());
    ledger.process(&deposit(1, 4, 2.into()));
    assert_eq!(ledger.account(1).unwrap().balance(), 7.into());
    ledger.process(&dispute(1, 4));
    assert_eq!(ledger.account(1).unwrap().balance(), 5.into());
    assert!(ledger.account(1).unwrap().disputed(4));
    ledger.process(&resolve(1, 4));
    assert_eq!(ledger.account(1).unwrap().balance(), 7.into());
    ledger.process(&dispute(1, 1));
    ledger.process(&chargeback(1, 1));
    assert_eq!(ledger.account(1).unwrap().balance(), 2.into());
    assert!(ledger.account(1).unwrap().locked());
}

#[test]
fn resolve_without_a_dispute_changes_nothing() {
    let mut ledger = Ledger::new();
    ledger.process(&deposit(1, 1, 5.into()));
    ledger.process(&resolve(1, 1));
    ledger.process(&chargeback(1, 1));
    ledger.process(&resolve(1, 9));
    let account = ledger.account(1).unwrap();
    assert_eq!(account.balance(), 5.into());
    assert!(exactly(account.held().unwrap(), 0, 0));
    assert!(!account.locked());
}

#[test]
fn resolve_twice_gives_the_amount_back_once() {
    let mut ledger = Ledger::new();
    ledger.process(&deposit(1, 1, 5.into()));
    ledger.process(&dispute(1, 1));
    ledger.process(&resolve(1, 1));
    ledger.process(&resolve(1, 1));
    ledger.process(&chargeback(1, 1));
    let account = ledger.account(1).unwrap();
    assert_eq!(account.balance(), 5.into());
    assert!(exactly(account.held().unwrap(), 0, 0));
    assert!(!account.locked());
}

#[test]
fn chargeback_twice_changes_nothing_more() {
    let mut ledger = Ledger::new();
    ledger.process(&deposit(1, 1, 5.into()));
    ledger.process(&dispute(1, 1));
    ledger.process(&chargeback(1, 1));
    ledger.process(&chargeback(1, 1));
    ledger.process(&resolve(1, 1));
    let account = ledger.account(1).unwrap();
    assert_eq!(account.balance(), 0.into());
    assert!(exactly(account.held().unwrap(), 0, 0));
    assert!(account.locked());
}

#[test]
fn try_process_says_when_the_balance_overflows() {
    let most = Amount::new(MAX_MANTISSA, 0).unwrap();
    let mut ledger = Ledger::new();
    assert!(ledger.try_process(&deposit(1, 1, most)));
    assert!(!ledger.applies(&deposit(1, 2, most)));
    assert!(!ledger.try_process(&deposit(1, 2, most)));
    let account = ledger.account(1).unwrap();
    assert!(exactly(account.balance(), MAX_MANTISSA, 0));
    assert!(account.deposited(2).is_none());
    assert!(ledger.applies(&withdrawal(1, 3, most)));
    assert!(ledger.applies(&deposit(2, 4, most)));
    assert!(account.applies(&dispute(1, 1)));
    assert!(!account.applies(&deposit(1, 2, 1.into())));
}

#[test]
fn held_says_when_the_sum_overflows() {
    let most = Amount::new(MAX_MANTISSA, 0).unwrap();
    let mut ledger = Ledger::new();
    ledger.process(&deposit(1, 1, most));
    ledger.process(&withdrawal(1, 2, most));
    ledger.process(&deposit(1, 3, most));
    ledger.process(&dispute(1, 1));
    ledger.process(&dispute(1, 3));
    let account = ledger.account(1).unwrap();
    assert!(account.held().is_none());
    assert!(account.balances().is_none());
    assert!(ledger.report().is_none());
}

#[test]
fn sum_of_deposits_follows_the_order() {
    let mut ledger = Ledger::new();
    ledger.process(&deposit(1, 1, Amount::new(15, 1).unwrap()));
    ledger.process(&deposit(1, 2, Amount::new(225, 2).unwrap()));
    let account = ledger.account(1).unwrap();
    assert!(exactly(account.sum_of_deposits(&vec![]).unwrap(), 0, 0));
    assert!(exactly(account.sum_of_deposits(&vec![1]).unwrap(), 15, 1));
    assert!(exactly(account.sum_of_deposits(&vec![2, 1]).unwrap(), 375, 2));
    assert!(exactly(account.sum_of_deposits(&vec![1, 2, 1]).unwrap(), 525, 2));
}

#[test]
fn summarize_adds_up_and_drops_trailing_zeros() {
    let balances =
        summarize(Amount::new(1500, 3).unwrap(), Amount::new(250, 2).unwrap(), true).unwrap();
    assert!(exactly(balances.available, 15, 1));
    assert!(exactly(balances.held, 25, 1));
    assert!(exactly(balances.total, 4, 0));
    assert!(balances.locked);
    let most = Amount::new(MAX_MANTISSA, 0).unwrap();
    assert!(summarize(most, most, false).is_none());
}

#[test]
fn report_has_one_row_for_each_client() {
    let mut ledger = Ledger::new();
    ledger.process(&deposit(5, 1, Amount::new(150, 2).unwrap()));
    ledger.process(&deposit(3, 2, 7.into()));
    ledger.process(&deposit(5, 3, 2.into()));
    ledger.process(&dispute(3, 2));
    let mut rows = ledger.report().unwrap();
    rows.sort_by_key(|row| row.0);
    assert_eq!(rows.len(), 2);
    assert_eq!(rows[0].0, 3);
    assert!(exactly(rows[0].1.available, 0, 0));
    assert!(exactly(rows[0].1.held, 7, 0));
    assert!(exactly(rows[0].1.total, 7, 0));
    assert!(!rows[0].1.locked);
    assert_eq!(rows[1].0, 5);
    assert!(exactly(rows[1].1.available, 35, 1));
    assert!(exactly(rows[1].1.held, 0, 0));
    assert!(exactly(rows[1].1.total, 35, 1));
    assert!(!rows[1].1.locked);
}
