//! Records as they arrive, before they are known to be well formed.
use crate::amount::Amount;
use crate::ClientId;
use vstd::prelude::*;

verus! {

/// The kind of a record.
#[derive(Clone, Copy, Debug)]
pub enum TransactionType {
    Deposit,
    Withdrawal,
    Dispute,
    Resolve,
    Chargeback,
}

/// A record as it was read: the amount may be missing, whatever the kind.
#[derive(Clone, Copy, Debug)]
pub struct RawCsvTransaction {
    pub kind: TransactionType,
    pub client: ClientId,
    pub tx: u32,
    pub amount: Option<Amount>,
}

} // verus!
