//! Well-formed transactions, and how one is made from a record.
use crate::amount::Amount;
use crate::input::{RawCsvTransaction, TransactionType};
use crate::ClientId;
use vstd::prelude::*;
use vstd::std_specs::convert::TryFromSpecImpl;

verus! {

/// A transaction that the ledger can apply.
#[derive(Clone, Copy, Debug)]
pub enum Transaction {
    Deposit(Deposit),
    Withdrawal(Withdrawal),
    Dispute(Dispute),
    Resolve(Resolve),
    Chargeback(Chargeback),
}

/// Money coming in.
#[derive(Clone, Copy, Debug)]
pub struct Deposit {
    pub client: ClientId,
    pub tx: u32,
    pub amount: Amount,
}

/// Money going out.
#[derive(Clone, Copy, Debug)]
pub struct Withdrawal {
    pub client: ClientId,
    pub tx: u32,
    pub amount: Amount,
}

/// A claim that the deposit `tx` was made in error: its amount is held.
#[derive(Clone, Copy, Debug)]
pub struct Dispute {
    pub client: ClientId,
    pub tx: u32,
}

/// The end of a dispute in the client's favour: the held amount is released.
#[derive(Clone, Copy, Debug)]
pub struct Resolve {
    pub client: ClientId,
    pub tx: u32,
}

/// The end of a dispute against the client: the held amount is lost and the
/// account is locked.
#[derive(Clone, Copy, Debug)]
pub struct Chargeback {
    pub client: ClientId,
    pub tx: u32,
}

/// Why a record is no transaction.
#[derive(Clone, Copy, Debug)]
pub enum ConstructionError {
    /// A record of the given kind, a deposit or a withdrawal, without an
    /// amount.
    MissingAmount(TransactionType),
}

impl ConstructionError {
    /// The error in words.
    pub open spec fn spec_message(&self) -> Seq<char> {
        match self {
            ConstructionError::MissingAmount(TransactionType::Withdrawal) => {
                "amount is mandatory when type is withdrawal"@
            },
            ConstructionError::MissingAmount(_) => "amount is mandatory when type is deposit"@,
        }
    }

    /// The error in words.
    pub fn message(&self) -> (text: &'static str)
        ensures
            text@ == self.spec_message(),
    {
        match self {
            ConstructionError::MissingAmount(TransactionType::Withdrawal) => {
                "amount is mandatory when type is withdrawal"
            },
            ConstructionError::MissingAmount(_) => "amount is mandatory when type is deposit",
        }
    }
}

/// The transaction that a record stands for. A deposit or a withdrawal needs
/// its amount; the other kinds drop whatever amount the record carries.
pub open spec fn construct(raw: RawCsvTransaction) -> Result<Transaction, ConstructionError> {
    match raw.kind {
        TransactionType::Deposit => match raw.amount {
            Some(amount) => Ok(
                Transaction::Deposit(Deposit { client: raw.client, tx: raw.tx, amount }),
            ),
            None => Err(ConstructionError::MissingAmount(raw.kind)),
        },
        TransactionType::Withdrawal => match raw.amount {
            Some(amount) => Ok(
                Transaction::Withdrawal(Withdrawal { client: raw.client, tx: raw.tx, amount }),
            ),
            None => Err(ConstructionError::MissingAmount(raw.kind)),
        },
        TransactionType::Dispute => Ok(
            Transaction::Dispute(Dispute { client: raw.client, tx: raw.tx }),
        ),
        TransactionType::Resolve => Ok(
            Transaction::Resolve(Resolve { client: raw.client, tx: raw.tx }),
        ),
        TransactionType::Chargeback => Ok(
            Transaction::Chargeback(Chargeback { client: raw.client, tx: raw.tx }),
        ),
    }
}

impl<'a> TryFrom<&'a RawCsvTransaction> for Transaction {
    type Error = ConstructionError;

    /// Makes the transaction that `value` stands for, or says that its amount
    /// is missing.
    fn try_from(value: &'a RawCsvTransaction) -> (made: Result<Transaction, ConstructionError>) {
        let transaction = match value.kind {
            TransactionType::Deposit => {
                let amount = match value.amount {
                    Some(amount) => amount,
                    None => {
                        return Err(ConstructionError::MissingAmount(value.kind));
                    },
                };
                Transaction::Deposit(Deposit { client: value.client, tx: value.tx, amount })
            },
            TransactionType::Withdrawal => {
                let amount = match value.amount {
                    Some(amount) => amount,
                    None => {
                        return Err(ConstructionError::MissingAmount(value.kind));
                    },
                };
                Transaction::Withdrawal(Withdrawal { client: value.client, tx: value.tx, amount })
            },
            TransactionType::Dispute => Transaction::Dispute(
                Dispute { client: value.client, tx: value.tx },
            ),
            TransactionType::Resolve => Transaction::Resolve(
                Resolve { client: value.client, tx: value.tx },
            ),
            TransactionType::Chargeback => Transaction::Chargeback(
                Chargeback { client: value.client, tx: value.tx },
            ),
        };
        Ok(transaction)
    }
}

impl<'a> TryFromSpecImpl<&'a RawCsvTransaction> for Transaction {
    open spec fn obeys_try_from_spec() -> bool {
        true
    }

    open spec fn try_from_spec(value: &'a RawCsvTransaction) -> Result<
        Transaction,
        ConstructionError,
    > {
        construct(*value)
    }
}

impl Transaction {
    /// The client whose account the transaction is for.
    pub open spec fn spec_client(&self) -> ClientId {
        match self {
            Transaction::Deposit(d) => d.client,
            Transaction::Withdrawal(w) => w.client,
            Transaction::Dispute(d) => d.client,
            Transaction::Resolve(r) => r.client,
            Transaction::Chargeback(c) => c.client,
        }
    }

    /// The client whose account the transaction is for.
    #[verifier::when_used_as_spec(spec_client)]
    pub fn client(&self) -> (client: ClientId)
        ensures
            client == self.spec_client(),
    {
        match self {
            Transaction::Deposit(d) => d.client,
            Transaction::Withdrawal(w) => w.client,
            Transaction::Dispute(d) => d.client,
            Transaction::Resolve(r) => r.client,
            Transaction::Chargeback(c) => c.client,
        }
    }
}

} // verus!
