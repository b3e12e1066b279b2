//! Accounts and the ledger that owns them.
use crate::amount::Amount;
use crate::model::{
    account_step, balances_of, charge_back, deposit_to, dispute_in, holds, holds_exactly,
    is_report, ledger_wf, lemma_held_in_any_order, lemma_overflow_stays,
    lemma_report_in_any_order, lists, modest_deposits, opened, report_in_order, reports,
    raised_total, reports_exactly, resolve_in, step, sum_in_order, withdraw_from,
    AccountState, LedgerState,
};
use crate::store::{
    account_entries, accounts_clients, accounts_get, accounts_get_mut, accounts_insert,
    accounts_new, deposit_entries, deposits_get, deposits_insert, deposits_new, dispute_items,
    disputes_contains, disputes_insert, disputes_list, disputes_new, disputes_remove,
    AccountTable, DepositBook, DisputeSet,
};
use crate::transaction::Transaction;
use crate::{ClientId, TransactionId};
use vstd::prelude::*;

verus! {

/// The state of one client.
pub struct Account {
    balance: Amount,
    deposits: DepositBook,
    disputes: DisputeSet,
    locked: bool,
}

impl View for Account {
    type V = AccountState;

    closed spec fn view(&self) -> AccountState {
        AccountState {
            balance: self.balance,
            deposits: deposit_entries(self.deposits),
            disputes: dispute_items(self.disputes),
            locked: self.locked,
        }
    }
}

impl Account {
    /// Every transaction under dispute is a deposit of the account.
    pub open spec fn wf(&self) -> bool {
        self@.wf()
    }

    /// The account that a first deposit opens.
    pub(crate) fn open(tx: TransactionId, amount: Amount) -> (account: Account)
        ensures
            account@ == opened(tx, amount),
            account.wf(),
    {
        let mut deposits = deposits_new();
        deposits_insert(&mut deposits, tx, amount);
        Account { balance: amount, deposits, disputes: disputes_new(), locked: false }
    }

    /// Applies a deposit: adds it to the balance and records it under `tx`.
    pub(crate) fn deposit(&mut self, tx: TransactionId, amount: Amount)
        requires
            old(self).wf(),
            deposit_to(old(self)@, tx, amount) is Some,
        ensures
            Some(final(self)@) == deposit_to(old(self)@, tx, amount),
            final(self).wf(),
    {
        self.balance = self.balance.checked_add(amount).unwrap();
        deposits_insert(&mut self.deposits, tx, amount);
    }

    /// Applies a withdrawal: takes it from the balance, unless the balance is
    /// too small or the account is locked.
    pub(crate) fn withdraw(&mut self, amount: Amount)
        requires
            old(self).wf(),
            withdraw_from(old(self)@, amount) is Some,
        ensures
            Some(final(self)@) == withdraw_from(old(self)@, amount),
            final(self).wf(),
    {
        if self.balance.less_than(amount) || self.locked {
            return ;
        }
        self.balance = self.balance.checked_sub(amount).unwrap();
    }

    /// Applies a dispute: holds the deposit `tx`, where the account has one.
    pub(crate) fn dispute(&mut self, tx: TransactionId)
        requires
            old(self).wf(),
            dispute_in(old(self)@, tx) is Some,
        ensures
            Some(final(self)@) == dispute_in(old(self)@, tx),
            final(self).wf(),
    {
        let amount = match deposits_get(&self.deposits, tx) {
            Some(amount) => amount,
            None => {
                return ;
            },
        };
        disputes_insert(&mut self.disputes, tx);
        self.balance = self.balance.checked_sub(amount).unwrap();
    }

    /// Resolves a dispute: gives the deposit `tx` back to the balance, where it
    /// is under dispute.
    pub(crate) fn resolve(&mut self, tx: TransactionId)
        requires
            old(self).wf(),
            resolve_in(old(self)@, tx) is Some,
        ensures
            Some(final(self)@) == resolve_in(old(self)@, tx),
            final(self).wf(),
    {
        if !disputes_remove(&mut self.disputes, tx) {
            assert(dispute_items(self.disputes) =~= dispute_items(old(self).disputes));
            return ;
        }
        // a transaction under dispute is a deposit of the account
        let amount = deposits_get(&self.deposits, tx).unwrap();
        self.balance = self.balance.checked_add(amount).unwrap();
    }

    /// Charges a dispute back: ends the dispute of `tx` and locks the account,
    /// where `tx` is under dispute.
    pub(crate) fn chargeback(&mut self, tx: TransactionId)
        requires
            old(self).wf(),
        ensures
            final(self)@ == charge_back(old(self)@, tx),
            final(self).wf(),
    {
        if !disputes_remove(&mut self.disputes, tx) {
            assert(dispute_items(self.disputes) =~= dispute_items(old(self).disputes));
            return ;
        }
        self.locked = true;
        assert forall|other: TransactionId| #[trigger]
            self@.disputes.contains(other) implies self@.deposits.contains_key(other) by {
            assert(old(self)@.disputes.contains(other));
        }
    }

    /// Applies a transaction of this account's client.
    pub(crate) fn apply(&mut self, transaction: &Transaction)
        requires
            old(self).wf(),
            account_step(old(self)@, *transaction) is Some,
        ensures
            Some(final(self)@) == account_step(old(self)@, *transaction),
            final(self).wf(),
    {
        match transaction {
            Transaction::Deposit(d) => self.deposit(d.tx, d.amount),
            Transaction::Withdrawal(w) => self.withdraw(w.amount),
            Transaction::Dispute(d) => self.dispute(d.tx),
            Transaction::Resolve(r) => self.resolve(r.tx),
            Transaction::Chargeback(c) => self.chargeback(c.tx),
        }
    }

    /// Whether a transaction of this account's client can be applied: whether
    /// the balance that it leads to can be computed.
    pub fn applies(&self, transaction: &Transaction) -> (ok: bool)
        requires
            self.wf(),
        ensures
            ok == account_step(self@, *transaction) is Some,
    {
        match transaction {
            Transaction::Deposit(d) => self.balance.checked_add(d.amount).is_some(),
            Transaction::Withdrawal(w) => {
                self.balance.less_than(w.amount) || self.locked || self.balance.checked_sub(
                    w.amount,
                ).is_some()
            },
            Transaction::Dispute(d) => match deposits_get(&self.deposits, d.tx) {
                Some(amount) => self.balance.checked_sub(amount).is_some(),
                None => true,
            },
            Transaction::Resolve(r) => {
                if disputes_contains(&self.disputes, r.tx) {
                    let amount = deposits_get(&self.deposits, r.tx).unwrap();
                    self.balance.checked_add(amount).is_some()
                } else {
                    true
                }
            },
            Transaction::Chargeback(_) => true,
        }
    }

    /// The funds that are available.
    pub fn balance(&self) -> (balance: Amount)
        ensures
            balance == self@.balance,
    {
        self.balance
    }

    /// Whether a chargeback has locked the account.
    pub fn locked(&self) -> (locked: bool)
        ensures
            locked == self@.locked,
    {
        self.locked
    }

    /// The amount that was deposited under `tx`, where there is such a
    /// deposit.
    pub fn deposited(&self, tx: TransactionId) -> (found: Option<Amount>)
        ensures
            found is Some <==> self@.deposits.contains_key(tx),
            found matches Some(amount) ==> amount == self@.deposits[tx],
    {
        deposits_get(&self.deposits, tx)
    }

    /// Whether `tx` is under dispute.
    pub fn disputed(&self, tx: TransactionId) -> (held: bool)
        ensures
            held == self@.disputes.contains(tx),
    {
        disputes_contains(&self.disputes, tx)
    }

    /// The deposits of the transactions of `order`, added to zero one after
    /// the other, or `None` where a sum on the way overflows.
    pub fn sum_of_deposits(&self, order: &Vec<TransactionId>) -> (sum: Option<Amount>)
        requires
            forall|i: int| 0 <= i < order.len() ==> self@.deposits.contains_key(#[trigger] order[i]),
        ensures
            sum == sum_in_order(self@.deposits, order@),
    {
        let mut sum = Amount::zero();
        let mut i: usize = 0;
        while i < order.len()
            invariant
                0 <= i <= order.len(),
                forall|i: int|
                    0 <= i < order.len() ==> self@.deposits.contains_key(#[trigger] order[i]),
                Some(sum) == sum_in_order(self@.deposits, order@.take(i as int)),
            decreases order.len() - i,
        {
            let amount = deposits_get(&self.deposits, order[i]).unwrap();
            proof {
                assert(order@.take(i + 1).drop_last() =~= order@.take(i as int));
            }
            match sum.checked_add(amount) {
                Some(next) => {
                    sum = next;
                },
                None => {
                    proof {
                        lemma_overflow_stays(self@.deposits, order@, i + 1);
                    }
                    return None;
                },
            }
            i += 1;
        }
        proof {
            assert(order@.take(order.len() as int) =~= order@);
        }
        Some(sum)
    }

    /// The funds that are held: the deposits under dispute together, or `None`
    /// where their sum overflows. The order in which they are added up is not
    /// specified.
    pub fn held(&self) -> (held: Option<Amount>)
        requires
            self.wf(),
        ensures
            holds(self@, held),
            holds_exactly(self@, held),
    {
        let order = disputes_list(&self.disputes);
        proof {
            assert forall|i: int| 0 <= i < order.len() implies self@.deposits.contains_key(
                #[trigger] order[i],
            ) by {
                assert(order@.to_set().contains(order[i]));
                assert(self@.disputes.contains(order[i]));
            }
            assert forall|other: Seq<TransactionId>, e: u32|
                lists(other, self@.disputes) && #[trigger] modest_deposits(
                    self@.deposits,
                    other,
                    e,
                ) implies {
                &&& sum_in_order(self@.deposits, order@) is Some
                &&& sum_in_order(self@.deposits, order@).unwrap().spec_scale() <= e
                &&& sum_in_order(self@.deposits, order@).unwrap().raised(e) == raised_total(
                    self@.deposits,
                    other,
                    e,
                )
            } by {
                lemma_held_in_any_order(self@, other, order@, e);
            }
        }
        self.sum_of_deposits(&order)
    }

    /// The report of this account: what is available, what is held and both
    /// together, or `None` where one of the sums overflows.
    pub fn balances(&self) -> (report: Option<Balances>)
        requires
            self.wf(),
        ensures
            reports(self@, report),
            reports_exactly(self@, report),
    {
        let order = disputes_list(&self.disputes);
        proof {
            assert forall|i: int| 0 <= i < order.len() implies self@.deposits.contains_key(
                #[trigger] order[i],
            ) by {
                assert(order@.to_set().contains(order[i]));
                assert(self@.disputes.contains(order[i]));
            }
        }
        let report = match self.sum_of_deposits(&order) {
            Some(held) => summarize(self.balance, held, self.locked),
            None => None,
        };
        assert(report == report_in_order(self@, order@));
        proof {
            assert forall|other: Seq<TransactionId>, e: u32|
                lists(other, self@.disputes) && #[trigger] modest_deposits(
                    self@.deposits,
                    other,
                    e,
                ) implies report == report_in_order(self@, other) by {
                lemma_report_in_any_order(self@, other, order@, e);
            }
        }
        report
    }
}

/// The funds of an account as they are reported, each without trailing
/// zeros.
#[derive(Clone, Copy, Debug)]
pub struct Balances {
    /// The balance.
    pub available: Amount,
    /// The amounts under dispute together.
    pub held: Amount,
    /// What is available and what is held together.
    pub total: Amount,
    /// Whether the account is locked.
    pub locked: bool,
}

/// The report of an account with the given balance and held amount, or `None`
/// where their sum overflows.
pub fn summarize(balance: Amount, held: Amount, locked: bool) -> (report: Option<Balances>)
    ensures
        report == balances_of(balance, held, locked),
{
    let held = held.normalize();
    match balance.checked_add(held) {
        Some(total) => Some(
            Balances { available: balance.normalize(), held, total: total.normalize(), locked },
        ),
        None => None,
    }
}

/// The accounts of all clients.
pub struct Ledger {
    accounts: AccountTable,
}

impl View for Ledger {
    type V = LedgerState;

    closed spec fn view(&self) -> LedgerState {
        account_entries(self.accounts).map_values(|a: Account| a@)
    }
}

impl Ledger {
    /// Every account of the ledger is well formed.
    pub open spec fn wf(&self) -> bool {
        ledger_wf(self@)
    }

    /// A ledger without accounts.
    pub fn new() -> (ledger: Ledger)
        ensures
            ledger@ == (Map::<ClientId, AccountState>::empty()),
            ledger.wf(),
    {
        let ledger = Ledger { accounts: accounts_new() };
        assert(ledger@ =~= Map::<ClientId, AccountState>::empty());
        ledger
    }

    /// Applies a transaction to the account of its client. A transaction that
    /// does not apply changes nothing: one for a client without an account,
    /// unless it is a deposit, a withdrawal that is refused, a dispute of what
    /// is no deposit, a resolution or a chargeback of what is not under
    /// dispute. The balance that the transaction leads to must not overflow:
    /// `try_process` tests that first.
    pub fn process(&mut self, transaction: &Transaction)
        requires
            old(self).wf(),
            step(old(self)@, *transaction) is Some,
        ensures
            Some(final(self)@) == step(old(self)@, *transaction),
            final(self).wf(),
    {
        let client = transaction.client();
        match accounts_get_mut(&mut self.accounts, client) {
            Some(account) => {
                account.apply(transaction);
            },
            None => {
                match transaction {
                    Transaction::Deposit(d) => {
                        accounts_insert(&mut self.accounts, client, Account::open(d.tx, d.amount));
                    },
                    _ => {},
                }
            },
        }
        assert(self@ =~= step(old(self)@, *transaction).unwrap());
    }

    /// Whether a transaction can be applied: whether the balance that it leads
    /// to can be computed.
    pub fn applies(&self, transaction: &Transaction) -> (ok: bool)
        requires
            self.wf(),
        ensures
            ok == step(self@, *transaction) is Some,
    {
        match accounts_get(&self.accounts, transaction.client()) {
            Some(account) => account.applies(transaction),
            None => true,
        }
    }

    /// Applies a transaction where it can be applied, and says whether it
    /// could. Where it could not, the ledger is unchanged.
    pub fn try_process(&mut self, transaction: &Transaction) -> (applied: bool)
        requires
            old(self).wf(),
        ensures
            applied == step(old(self)@, *transaction) is Some,
            applied ==> Some(final(self)@) == step(old(self)@, *transaction),
            !applied ==> final(self)@ == old(self)@,
            final(self).wf(),
    {
        if self.applies(transaction) {
            self.process(transaction);
            true
        } else {
            false
        }
    }

    /// The account of `client`, where they have one.
    pub fn account(&self, client: ClientId) -> (found: Option<&Account>)
        ensures
            found is Some <==> self@.contains_key(client),
            found matches Some(account) ==> account@ == self@[client],
    {
        accounts_get(&self.accounts, client)
    }

    /// The clients that have an account, each once, in an order that is not
    /// specified.
    pub fn clients(&self) -> (clients: Vec<ClientId>)
        ensures
            lists(clients@, self@.dom()),
    {
        let clients = accounts_clients(&self.accounts);
        assert(self@.dom() =~= account_entries(self.accounts).dom());
        clients
    }

    /// The report of the ledger: one row for each client that has an account,
    /// in an order that is not specified, or `None` where the sums of one
    /// account overflow.
    pub fn report(&self) -> (report: Option<Vec<(ClientId, Balances)>>)
        requires
            self.wf(),
        ensures
            report matches Some(rows) ==> is_report(self@, rows@),
            report is None ==> exists|client: ClientId| #[trigger]
                self@.contains_key(client) && reports(self@[client], None),
    {
        let clients = self.clients();
        let mut rows: Vec<(ClientId, Balances)> = Vec::new();
        let mut i: usize = 0;
        while i < clients.len()
            invariant
                0 <= i <= clients.len(),
                self.wf(),
                lists(clients@, self@.dom()),
                rows.len() == i,
                forall|j: int| 0 <= j < i ==> (#[trigger] rows[j]).0 == clients[j],
                forall|j: int|
                    0 <= j < i ==> reports(self@[(#[trigger] rows[j]).0], Some(rows[j].1)),
                forall|j: int|
                    0 <= j < i ==> reports_exactly(
                        self@[(#[trigger] rows[j]).0],
                        Some(rows[j].1),
                    ),
            decreases clients.len() - i,
        {
            let client = clients[i];
            assert(clients@.to_set().contains(client));
            assert(self@.contains_key(client));
            let account = self.account(client).unwrap();
            match account.balances() {
                Some(balances) => {
                    rows.push((client, balances));
                },
                None => {
                    return None;
                },
            }
            i += 1;
        }
        assert(rows@.map_values(|row: (ClientId, Balances)| row.0) =~= clients@);
        Some(rows)
    }
}

} // verus!
