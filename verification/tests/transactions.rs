use ledger_engine::amount::Amount;
use ledger_engine::input::{RawCsvTransaction, TransactionType};
use ledger_engine::transaction::{ConstructionError, Transaction};

fn raw(kind: TransactionType, amount: Option<Amount>) -> RawCsvTransaction {
    RawCsvTransaction { kind, client: 7, tx: 9, amount }
}

#[test]
fn deposit_keeps_its_amount() {
    let amount = Amount::new(12345, 4).unwrap();
    match Transaction::try_from(&raw(TransactionType::Deposit, Some(amount))) {
        Ok(Transaction::Deposit(d)) => {
            assert_eq!(d.client, 7);
            assert_eq!(d.tx, 9);
            assert_eq!(d.amount.mantissa(), 12345);
            assert_eq!(d.amount.scale(), 4);
        }
        other => panic!("no deposit: {:?}", other),
    }
}

#[test]
fn withdrawal_keeps_its_amount() {
    let amount = Amount::new(500, 2).unwrap();
    match Transaction::try_from(&raw(TransactionType::Withdrawal, Some(amount))) {
        Ok(Transaction::Withdrawal(w)) => {
            assert_eq!(w.client, 7);
            assert_eq!(w.tx, 9);
            assert_eq!(w.amount.mantissa(), 500);
            assert_eq!(w.amount.scale(), 2);
        }
        other => panic!("no withdrawal: {:?}", other),
    }
}

#[test]
fn deposit_without_amount_is_refused() {
    let made = Transaction::try_from(&raw(TransactionType::Deposit, None));
    assert!(matches!(
        made,
        Err(ConstructionError::MissingAmount(TransactionType::Deposit))
    ));
    assert_eq!(
        made.unwrap_err().message(),
        "amount is mandatory when type is deposit"
    );
}

#[test]
fn withdrawal_without_amount_is_refused() {
    let made = Transaction::try_from(&raw(TransactionType::Withdrawal, None));
    assert!(matches!(
        made,
        Err(ConstructionError::MissingAmount(TransactionType::Withdrawal))
    ));
    assert_eq!(
        made.unwrap_err().message(),
        "amount is mandatory when type is withdrawal"
    );
}

#[test]
fn dispute_needs_no_amount() {
    match Transaction::try_from(&raw(TransactionType::Dispute, None)) {
        Ok(Transaction::Dispute(d)) => {
            assert_eq!(d.client, 7);
            assert_eq!(d.tx, 9);
        }
        other => panic!("no dispute: {:?}", other),
    }
}

#[test]
fn resolve_and_chargeback_drop_a_stray_amount() {
    let stray = Some(Amount::from(3));
    match Transaction::try_from(&raw(TransactionType::Resolve, stray)) {
        Ok(Transaction::Resolve(r)) => {
            assert_eq!(r.client, 7);
            assert_eq!(r.tx, 9);
        }
        other => panic!("no resolve: {:?}", other),
    }
    match Transaction::try_from(&raw(TransactionType::Chargeback, stray)) {
        Ok(Transaction::Chargeback(c)) => {
            assert_eq!(c.client, 7);
            assert_eq!(c.tx, 9);
        }
        other => panic!("no chargeback: {:?}", other),
    }
}

#[test]
fn try_into_makes_the_same_transaction() {
    let record = raw(TransactionType::Dispute, None);
    let made: Result<Transaction, ConstructionError> = (&record).try_into();
    assert!(matches!(made, Ok(Transaction::Dispute(_))));
}

#[test]
fn client_of_each_kind() {
    for kind in [
        TransactionType::Deposit,
        TransactionType::Withdrawal,
        TransactionType::Dispute,
        TransactionType::Resolve,
        TransactionType::Chargeback,
    ] {
        let made = Transaction::try_from(&raw(kind, Some(Amount::from(1)))).unwrap();
        assert_eq!(made.client(), 7);
    }
}
