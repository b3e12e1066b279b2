//! The ledger as mathematics: what an account holds, and what each
//! transaction makes of it.
//!
//! Sums and differences are those of [`crate::amount`]: a transition is
//! `None` where the new balance overflows.
use crate::amount::{
    amount_difference, amount_eq, amount_lt, amount_normal, amount_sum, gives_back,
    lemma_modest_sum, lemma_same_normal, lemma_same_raised, magnitude, Amount, MODEST_LIMIT,
};
use crate::ledger::Balances;
use crate::transaction::{Chargeback, Deposit, Dispute, Resolve, Transaction, Withdrawal};
use crate::{ClientId, TransactionId};
use vstd::prelude::*;
use vstd::seq_lib::{lemma_fold_left_permutation, to_multiset_contains};

verus! {

/// What an account holds.
#[verifier::ext_equal]
pub ghost struct AccountState {
    /// The funds that are available: what was deposited, less what was
    /// withdrawn, is held or was charged back.
    pub balance: Amount,
    /// Every deposit that was applied, by transaction.
    pub deposits: Map<TransactionId, Amount>,
    /// The deposits that are under dispute.
    pub disputes: Set<TransactionId>,
    /// Whether a chargeback was applied.
    pub locked: bool,
}

/// What a ledger holds: the accounts of the clients that made a deposit.
pub type LedgerState = Map<ClientId, AccountState>;

impl AccountState {
    /// Every transaction under dispute is a deposit of the account.
    pub open spec fn wf(self) -> bool {
        forall|tx: TransactionId| #[trigger]
            self.disputes.contains(tx) ==> self.deposits.contains_key(tx)
    }
}

/// Every account of the ledger is well formed.
pub open spec fn ledger_wf(l: LedgerState) -> bool {
    forall|client: ClientId| #[trigger] l.contains_key(client) ==> l[client].wf()
}

/// The account that a first deposit opens.
pub open spec fn opened(tx: TransactionId, amount: Amount) -> AccountState {
    AccountState {
        balance: amount,
        deposits: Map::<TransactionId, Amount>::empty().insert(tx, amount),
        disputes: Set::<TransactionId>::empty(),
        locked: false,
    }
}

/// A deposit adds to the balance and is recorded under its transaction, in
/// place of an earlier deposit of that transaction; a lock does not stop it.
pub open spec fn deposit_to(a: AccountState, tx: TransactionId, amount: Amount) -> Option<
    AccountState,
> {
    match amount_sum(a.balance, amount) {
        Some(balance) => Some(
            AccountState { balance, deposits: a.deposits.insert(tx, amount), ..a },
        ),
        None => None,
    }
}

/// Whether a withdrawal of `amount` is refused: the balance is too small, or
/// the account is locked.
pub open spec fn refuses(a: AccountState, amount: Amount) -> bool {
    amount_lt(a.balance, amount) || a.locked
}

/// A withdrawal takes from the balance, unless it is refused.
pub open spec fn withdraw_from(a: AccountState, amount: Amount) -> Option<AccountState> {
    if refuses(a, amount) {
        Some(a)
    } else {
        match amount_difference(a.balance, amount) {
            Some(balance) => Some(AccountState { balance, ..a }),
            None => None,
        }
    }
}

/// A dispute of a deposit of the account holds its amount: the transaction
/// is under dispute and the balance is less by the amount, also where the
/// transaction was under dispute already. Of any other transaction it changes
/// nothing.
pub open spec fn dispute_in(a: AccountState, tx: TransactionId) -> Option<AccountState> {
    if !a.deposits.contains_key(tx) {
        Some(a)
    } else {
        match amount_difference(a.balance, a.deposits[tx]) {
            Some(balance) => Some(
                AccountState { balance, disputes: a.disputes.insert(tx), ..a },
            ),
            None => None,
        }
    }
}

/// Resolving a transaction under dispute ends the dispute and gives the
/// amount back to the balance. Of any other transaction it changes nothing.
pub open spec fn resolve_in(a: AccountState, tx: TransactionId) -> Option<AccountState> {
    if !a.disputes.contains(tx) {
        Some(a)
    } else {
        match amount_sum(a.balance, a.deposits[tx]) {
            Some(balance) => Some(
                AccountState { balance, disputes: a.disputes.remove(tx), ..a },
            ),
            None => None,
        }
    }
}

/// Charging back a transaction under dispute ends the dispute and locks the
/// account; the balance stays as the dispute left it. Of any other
/// transaction it changes nothing.
pub open spec fn charge_back(a: AccountState, tx: TransactionId) -> AccountState {
    if !a.disputes.contains(tx) {
        a
    } else {
        AccountState { disputes: a.disputes.remove(tx), locked: true, ..a }
    }
}

/// What a transaction makes of the account that it is for.
pub open spec fn account_step(a: AccountState, t: Transaction) -> Option<AccountState> {
    match t {
        Transaction::Deposit(d) => deposit_to(a, d.tx, d.amount),
        Transaction::Withdrawal(w) => withdraw_from(a, w.amount),
        Transaction::Dispute(d) => dispute_in(a, d.tx),
        Transaction::Resolve(r) => resolve_in(a, r.tx),
        Transaction::Chargeback(c) => Some(charge_back(a, c.tx)),
    }
}

/// What a transaction makes of a ledger. Only the account of its client can
/// change. Where the client has none, a deposit opens one and every other
/// transaction changes nothing.
pub open spec fn step(l: LedgerState, t: Transaction) -> Option<LedgerState> {
    if l.contains_key(t.spec_client()) {
        match account_step(l[t.spec_client()], t) {
            Some(a) => Some(l.insert(t.spec_client(), a)),
            None => None,
        }
    } else {
        match t {
            Transaction::Deposit(d) => Some(l.insert(d.client, opened(d.tx, d.amount))),
            _ => Some(l),
        }
    }
}

/// Whether `order` names every member of `set` once, and nothing else.
pub open spec fn lists<T>(order: Seq<T>, set: Set<T>) -> bool {
    order.no_duplicates() && order.to_set() == set
}

/// The deposits of the transactions of `order`, added to zero one after the
/// other, or `None` where a sum on the way overflows.
pub open spec fn sum_in_order(
    deposits: Map<TransactionId, Amount>,
    order: Seq<TransactionId>,
) -> Option<Amount>
    decreases order.len(),
{
    if order.len() == 0 {
        Some(Amount::from_parts(0, 0))
    } else {
        match sum_in_order(deposits, order.drop_last()) {
            Some(sum) => amount_sum(sum, deposits[order.last()]),
            None => None,
        }
    }
}

/// The report of an account with the given balance and held amount, or `None`
/// where their sum overflows.
pub open spec fn balances_of(balance: Amount, held: Amount, locked: bool) -> Option<Balances> {
    match amount_sum(balance, amount_normal(held)) {
        Some(total) => Some(
            Balances {
                available: amount_normal(balance),
                held: amount_normal(held),
                total: amount_normal(total),
                locked,
            },
        ),
        None => None,
    }
}

/// The report of an account whose disputes are added up in the given order,
/// or `None` where a sum overflows.
pub open spec fn report_in_order(a: AccountState, order: Seq<TransactionId>) -> Option<Balances> {
    match sum_in_order(a.deposits, order) {
        Some(held) => balances_of(a.balance, held, a.locked),
        None => None,
    }
}

/// Whether `held` is what the deposits under dispute add up to, in one of the
/// orders in which they can be added.
pub open spec fn holds(a: AccountState, held: Option<Amount>) -> bool {
    exists|order: Seq<TransactionId>|
        lists(order, a.disputes) && held == #[trigger] sum_in_order(a.deposits, order)
}

/// Whether `report` is the report of the account, with the deposits under
/// dispute added up in one of the orders in which they can be added.
pub open spec fn reports(a: AccountState, report: Option<Balances>) -> bool {
    exists|order: Seq<TransactionId>|
        lists(order, a.disputes) && report == #[trigger] report_in_order(a, order)
}

/// Whether `rows` is a report of the ledger: one row for each client that has
/// an account, with the report of that account.
pub open spec fn is_report(l: LedgerState, rows: Seq<(ClientId, Balances)>) -> bool {
    &&& lists(rows.map_values(|row: (ClientId, Balances)| row.0), l.dom())
    &&& forall|i: int|
        0 <= i < rows.len() ==> reports(l[(#[trigger] rows[i]).0], Some(rows[i].1))
    &&& forall|i: int|
        0 <= i < rows.len() ==> reports_exactly(l[(#[trigger] rows[i]).0], Some(rows[i].1))
}

/// Once a sum on the way has overflowed, the whole sum has.
pub proof fn lemma_overflow_stays(
    deposits: Map<TransactionId, Amount>,
    order: Seq<TransactionId>,
    k: int,
)
    requires
        0 <= k <= order.len(),
        sum_in_order(deposits, order.take(k)) is None,
    ensures
        sum_in_order(deposits, order) is None,
    decreases order.len() - k,
{
    if k == order.len() {
        assert(order.take(k) =~= order);
    } else {
        assert(order.take(k + 1).drop_last() =~= order.take(k));
        lemma_overflow_stays(deposits, order, k + 1);
    }
}

/// What the transactions of `ts`, applied one after the other, make of a
/// ledger, or `None` where one of them overflows.
pub open spec fn run(l: LedgerState, ts: Seq<Transaction>) -> Option<LedgerState>
    decreases ts.len(),
{
    if ts.len() == 0 {
        Some(l)
    } else {
        match run(l, ts.drop_last()) {
            Some(m) => step(m, ts.last()),
            None => None,
        }
    }
}

/// A transaction changes the account of its client and no other, and closes
/// none.
pub proof fn lemma_step_changes_one_account(l: LedgerState, t: Transaction, other: ClientId)
    requires
        step(l, t) is Some,
        other != t.spec_client(),
    ensures
        step(l, t).unwrap().contains_key(other) == l.contains_key(other),
        l.contains_key(other) ==> step(l, t).unwrap()[other] == l[other],
        l.contains_key(t.spec_client()) ==> step(l, t).unwrap().contains_key(t.spec_client()),
        !l.contains_key(t.spec_client()) && !(t is Deposit) ==> step(l, t) == Some(l),
{
}

/// A transaction keeps well-formed accounts well formed: what is under
/// dispute afterwards is a deposit.
pub proof fn lemma_step_keeps_wf(l: LedgerState, t: Transaction)
    requires
        ledger_wf(l),
        step(l, t) is Some,
    ensures
        ledger_wf(step(l, t).unwrap()),
{
    let m = step(l, t).unwrap();
    let client = t.spec_client();
    assert forall|c: ClientId| #[trigger] m.contains_key(c) implies m[c].wf() by {
        if c != client {
            assert(l.contains_key(c));
        } else if l.contains_key(client) {
            let a = l[client];
            assert(a.wf());
            assert forall|tx: TransactionId| #[trigger]
                m[c].disputes.contains(tx) implies m[c].deposits.contains_key(tx) by {
                if !a.disputes.contains(tx) {
                    assert(t is Dispute);
                }
            }
        }
    }
}

/// Whatever transactions were applied, in every account the transactions
/// under dispute are deposits of that account: the held amount is the sum of
/// deposits that the account has.
pub proof fn lemma_run_keeps_wf(l: LedgerState, ts: Seq<Transaction>)
    requires
        ledger_wf(l),
        run(l, ts) is Some,
    ensures
        ledger_wf(run(l, ts).unwrap()),
    decreases ts.len(),
{
    if ts.len() > 0 {
        lemma_run_keeps_wf(l, ts.drop_last());
        lemma_step_keeps_wf(run(l, ts.drop_last()).unwrap(), ts.last());
    }
}

/// A deposit for a client without an account opens one account, and no
/// other: its balance is the deposit, nothing is held, and it is not locked.
pub proof fn lemma_first_deposit(l: LedgerState, d: Deposit, order: Seq<TransactionId>)
    requires
        !l.contains_key(d.client),
    ensures
        step(l, Transaction::Deposit(d)) == Some(l.insert(d.client, opened(d.tx, d.amount))),
        l.insert(d.client, opened(d.tx, d.amount)).dom() == l.dom().insert(d.client),
        opened(d.tx, d.amount).balance == d.amount,
        opened(d.tx, d.amount).deposits.dom() == set![d.tx],
        opened(d.tx, d.amount).deposits[d.tx] == d.amount,
        opened(d.tx, d.amount).disputes.is_empty(),
        !opened(d.tx, d.amount).locked,
        holds(opened(d.tx, d.amount), Some(Amount::from_parts(0, 0))),
        lists(order, opened(d.tx, d.amount).disputes) ==> sum_in_order(
            opened(d.tx, d.amount).deposits,
            order,
        ) == Some(Amount::from_parts(0, 0)),
{
    let a = opened(d.tx, d.amount);
    assert(a.deposits.dom() =~= set![d.tx]);
    let none = Seq::<TransactionId>::empty();
    assert(none.to_set() =~= a.disputes);
    assert(lists(none, a.disputes));
    assert(sum_in_order(a.deposits, none) == Some(Amount::from_parts(0, 0)));
    if lists(order, a.disputes) {
        if order.len() > 0 {
            assert(order.to_set().contains(order[0]));
        }
    }
}

/// A withdrawal that is refused changes nothing: the balance does not go
/// below zero on its account.
pub proof fn lemma_refused_withdrawal(l: LedgerState, w: Withdrawal)
    requires
        l.contains_key(w.client) ==> refuses(l[w.client], w.amount),
    ensures
        step(l, Transaction::Withdrawal(w)) == Some(l),
{
    if l.contains_key(w.client) {
        assert(l.insert(w.client, l[w.client]) =~= l);
    }
}

/// Where a withdrawal is applied and leaves less than its amount, the same
/// withdrawal applied once more changes nothing.
pub proof fn lemma_second_withdrawal(l: LedgerState, w: Withdrawal)
    requires
        l.contains_key(w.client),
        step(l, Transaction::Withdrawal(w)) is Some,
        amount_lt(step(l, Transaction::Withdrawal(w)).unwrap()[w.client].balance, w.amount),
    ensures
        step(step(l, Transaction::Withdrawal(w)).unwrap(), Transaction::Withdrawal(w)) == step(
            l,
            Transaction::Withdrawal(w),
        ),
{
    let m = step(l, Transaction::Withdrawal(w)).unwrap();
    lemma_refused_withdrawal(m, w);
}

/// A dispute of a deposit that is not under dispute, followed by its
/// resolution, ends the dispute and leaves the deposits and the lock as they
/// were. The balance is the old one less the deposit and plus it again.
pub proof fn lemma_dispute_then_resolve_ends_dispute(
    l: LedgerState,
    client: ClientId,
    tx: TransactionId,
)
    requires
        l.contains_key(client),
        l[client].deposits.contains_key(tx),
        !l[client].disputes.contains(tx),
        step(l, Transaction::Dispute(Dispute { client, tx })) is Some,
        step(
            step(l, Transaction::Dispute(Dispute { client, tx })).unwrap(),
            Transaction::Resolve(Resolve { client, tx }),
        ) is Some,
    ensures
        ({
            let disputed = step(l, Transaction::Dispute(Dispute { client, tx })).unwrap();
            let resolved = step(disputed, Transaction::Resolve(Resolve { client, tx })).unwrap();
            &&& disputed[client].disputes.contains(tx)
            &&& Some(disputed[client].balance) == amount_difference(
                l[client].balance,
                l[client].deposits[tx],
            )
            &&& resolved.dom() == l.dom()
            &&& resolved[client].disputes == l[client].disputes
            &&& resolved[client].deposits == l[client].deposits
            &&& resolved[client].locked == l[client].locked
            &&& Some(resolved[client].balance) == amount_sum(
                disputed[client].balance,
                l[client].deposits[tx],
            )
        }),
{
    let disputed = step(l, Transaction::Dispute(Dispute { client, tx })).unwrap();
    let resolved = step(disputed, Transaction::Resolve(Resolve { client, tx })).unwrap();
    assert(resolved.dom() =~= l.dom());
    assert(resolved[client].disputes =~= l[client].disputes);
}

/// A dispute of a deposit that is not under dispute, followed by its
/// resolution, restores the account: the balance is the number that it was,
/// and the deposits, the disputes and the lock are as they were. This holds
/// where the decimals give back what they took, as those of modest size do.
pub proof fn lemma_dispute_then_resolve(l: LedgerState, client: ClientId, tx: TransactionId)
    requires
        l.contains_key(client),
        l[client].deposits.contains_key(tx),
        !l[client].disputes.contains(tx),
        gives_back(l[client].balance, l[client].deposits[tx]),
    ensures
        step(l, Transaction::Dispute(Dispute { client, tx })) is Some,
        step(
            step(l, Transaction::Dispute(Dispute { client, tx })).unwrap(),
            Transaction::Resolve(Resolve { client, tx }),
        ) is Some,
        ({
            let disputed = step(l, Transaction::Dispute(Dispute { client, tx })).unwrap();
            let resolved = step(disputed, Transaction::Resolve(Resolve { client, tx })).unwrap();
            &&& resolved.dom() == l.dom()
            &&& forall|other: ClientId|
                other != client && l.contains_key(other) ==> #[trigger] resolved[other] == l[other]
            &&& amount_eq(resolved[client].balance, l[client].balance)
            &&& resolved[client].deposits == l[client].deposits
            &&& resolved[client].disputes == l[client].disputes
            &&& resolved[client].locked == l[client].locked
        }),
{
    let disputed = step(l, Transaction::Dispute(Dispute { client, tx })).unwrap();
    assert(disputed[client].disputes.contains(tx));
    lemma_dispute_then_resolve_ends_dispute(l, client, tx);
}

/// A dispute of a deposit followed by its chargeback locks the account and
/// ends the dispute. The balance stays as the dispute left it, and every
/// withdrawal from then on is refused.
pub proof fn lemma_dispute_then_chargeback(
    l: LedgerState,
    client: ClientId,
    tx: TransactionId,
    w: Withdrawal,
)
    requires
        l.contains_key(client),
        l[client].deposits.contains_key(tx),
        step(l, Transaction::Dispute(Dispute { client, tx })) is Some,
        w.client == client,
    ensures
        ({
            let disputed = step(l, Transaction::Dispute(Dispute { client, tx })).unwrap();
            let charged = step(disputed, Transaction::Chargeback(Chargeback { client, tx }));
            &&& charged is Some
            &&& charged.unwrap()[client].locked
            &&& charged.unwrap()[client].balance == disputed[client].balance
            &&& !charged.unwrap()[client].disputes.contains(tx)
            &&& charged.unwrap()[client].deposits == l[client].deposits
            &&& step(charged.unwrap(), Transaction::Withdrawal(w)) == charged
        }),
{
    let disputed = step(l, Transaction::Dispute(Dispute { client, tx })).unwrap();
    let charged = step(disputed, Transaction::Chargeback(Chargeback { client, tx })).unwrap();
    assert(disputed[client].disputes.contains(tx));
    lemma_locked_refuses(charged, w);
}

/// A locked account refuses every withdrawal.
pub proof fn lemma_locked_refuses(l: LedgerState, w: Withdrawal)
    requires
        l.contains_key(w.client),
        l[w.client].locked,
    ensures
        step(l, Transaction::Withdrawal(w)) == Some(l),
{
    lemma_refused_withdrawal(l, w);
}

/// Resolving or charging back a transaction that is not under dispute
/// changes nothing: neither the balance, nor what is held, nor the lock.
pub proof fn lemma_without_dispute(l: LedgerState, client: ClientId, tx: TransactionId)
    requires
        l.contains_key(client) ==> !l[client].disputes.contains(tx),
    ensures
        step(l, Transaction::Resolve(Resolve { client, tx })) == Some(l),
        step(l, Transaction::Chargeback(Chargeback { client, tx })) == Some(l),
{
    if l.contains_key(client) {
        assert(l.insert(client, l[client]) =~= l);
    }
}

/// Once a transaction was resolved or charged back, resolving it or charging
/// it back again changes nothing.
pub proof fn lemma_settled_once(l: LedgerState, client: ClientId, tx: TransactionId)
    ensures
        step(l, Transaction::Resolve(Resolve { client, tx })) matches Some(m) ==> {
            &&& step(m, Transaction::Resolve(Resolve { client, tx })) == Some(m)
            &&& step(m, Transaction::Chargeback(Chargeback { client, tx })) == Some(m)
        },
        step(l, Transaction::Chargeback(Chargeback { client, tx })) matches Some(m) ==> {
            &&& step(m, Transaction::Resolve(Resolve { client, tx })) == Some(m)
            &&& step(m, Transaction::Chargeback(Chargeback { client, tx })) == Some(m)
        },
{
    let resolved = step(l, Transaction::Resolve(Resolve { client, tx }));
    if resolved is Some {
        lemma_without_dispute(resolved.unwrap(), client, tx);
    }
    let charged = step(l, Transaction::Chargeback(Chargeback { client, tx }));
    if charged is Some {
        lemma_without_dispute(charged.unwrap(), client, tx);
    }
}

/// The mantissas of the deposits of `order`, each written with the scale
/// `e`, added up.
pub open spec fn raised_total(
    deposits: Map<TransactionId, Amount>,
    order: Seq<TransactionId>,
    e: u32,
) -> int {
    order.fold_left(0int, |sum: int, tx: TransactionId| sum + deposits[tx].raised(e))
}

/// The magnitudes of the mantissas of the deposits of `order`, each written
/// with the scale `e`, added up.
pub open spec fn raised_size(
    deposits: Map<TransactionId, Amount>,
    order: Seq<TransactionId>,
    e: u32,
) -> int {
    order.fold_left(0int, |sum: int, tx: TransactionId| sum + magnitude(deposits[tx].raised(e)))
}

/// Whether the deposits of `order` are of modest size together: none has a
/// scale above `e`, and written with the scale `e` the magnitudes of their
/// mantissas add up to less than `2^63`.
pub open spec fn modest_deposits(
    deposits: Map<TransactionId, Amount>,
    order: Seq<TransactionId>,
    e: u32,
) -> bool {
    &&& forall|i: int| 0 <= i < order.len() ==> deposits[#[trigger] order[i]].spec_scale() <= e
    &&& raised_size(deposits, order, e) < MODEST_LIMIT
}

/// Deposits of modest size add up exactly: written with the scale `e`, the
/// mantissa of their sum is the sum of theirs.
pub proof fn lemma_modest_sum_in_order(
    deposits: Map<TransactionId, Amount>,
    order: Seq<TransactionId>,
    e: u32,
)
    requires
        modest_deposits(deposits, order, e),
    ensures
        sum_in_order(deposits, order) is Some,
        sum_in_order(deposits, order).unwrap().spec_scale() <= e,
        sum_in_order(deposits, order).unwrap().raised(e) == raised_total(deposits, order, e),
        magnitude(raised_total(deposits, order, e)) <= raised_size(deposits, order, e),
    decreases order.len(),
{
    broadcast use Amount::lemma_parts;

    if order.len() == 0 {
        assert(Amount::from_parts(0, 0).raised(e) == 0) by (nonlinear_arith)
            requires
                Amount::from_parts(0, 0).raised(e) == 0 * crate::amount::pow10(
                    (e - 0) as nat,
                ),
        ;
    } else {
        let before = order.drop_last();
        assert forall|i: int| 0 <= i < before.len() implies deposits[#[trigger] before[i]].spec_scale()
            <= e by {
            assert(before[i] == order[i]);
        }
        assert(deposits[order[order.len() - 1]].spec_scale() <= e);
        lemma_modest_sum_in_order(deposits, before, e);
        lemma_modest_sum(sum_in_order(deposits, before).unwrap(), deposits[order.last()], e);
    }
}

/// Two sequences that list one set hold the same members equally often.
pub proof fn lemma_listings_agree<T>(first: Seq<T>, second: Seq<T>, set: Set<T>)
    requires
        lists(first, set),
        lists(second, set),
    ensures
        first.to_multiset() == second.to_multiset(),
{
    broadcast use to_multiset_contains;

    first.lemma_multiset_has_no_duplicates();
    second.lemma_multiset_has_no_duplicates();
    assert forall|x: T| first.to_multiset().count(x) == second.to_multiset().count(x) by {
        assert(first.contains(x) <==> first.to_set().contains(x));
        assert(second.contains(x) <==> second.to_set().contains(x));
        if first.contains(x) {
            assert(first.to_multiset().contains(x));
            assert(second.to_multiset().contains(x));
        }
    }
    assert(first.to_multiset() =~= second.to_multiset());
}

/// What is held does not depend on the order in which the deposits under
/// dispute are added up, where they are of modest size together: every order
/// gives the same number, the exact sum.
pub proof fn lemma_held_in_any_order(
    a: AccountState,
    first: Seq<TransactionId>,
    second: Seq<TransactionId>,
    e: u32,
)
    requires
        lists(first, a.disputes),
        lists(second, a.disputes),
        modest_deposits(a.deposits, first, e),
    ensures
        modest_deposits(a.deposits, second, e),
        sum_in_order(a.deposits, first) is Some,
        sum_in_order(a.deposits, second) is Some,
        sum_in_order(a.deposits, first).unwrap().raised(e) == raised_total(a.deposits, first, e),
        sum_in_order(a.deposits, second).unwrap().raised(e) == raised_total(a.deposits, first, e),
        sum_in_order(a.deposits, second).unwrap().spec_scale() <= e,
        amount_eq(
            sum_in_order(a.deposits, first).unwrap(),
            sum_in_order(a.deposits, second).unwrap(),
        ),
{
    let deposits = a.deposits;
    lemma_listings_agree(first, second, a.disputes);
    let add = |sum: int, tx: TransactionId| sum + deposits[tx].raised(e);
    let add_size = |sum: int, tx: TransactionId| sum + magnitude(deposits[tx].raised(e));
    lemma_fold_left_permutation(first, second, add, 0int);
    lemma_fold_left_permutation(first, second, add_size, 0int);
    assert forall|i: int| 0 <= i < second.len() implies deposits[#[trigger] second[i]].spec_scale()
        <= e by {
        assert(second.to_set().contains(second[i]));
        assert(first.to_set().contains(second[i]));
        assert(first.contains(second[i]));
        let j = choose|j: int| 0 <= j < first.len() && first[j] == second[i];
        assert(deposits[first[j]].spec_scale() <= e);
    }
    lemma_modest_sum_in_order(deposits, first, e);
    lemma_modest_sum_in_order(deposits, second, e);
    lemma_same_raised(
        sum_in_order(deposits, first).unwrap(),
        sum_in_order(deposits, second).unwrap(),
        e,
    );
}

/// Whether `held` is the exact sum of the deposits under dispute, where
/// these are of modest size together: written with a scale `e` that none of
/// them exceeds, its mantissa is the sum of theirs.
pub open spec fn holds_exactly(a: AccountState, held: Option<Amount>) -> bool {
    forall|order: Seq<TransactionId>, e: u32|
        lists(order, a.disputes) && #[trigger] modest_deposits(a.deposits, order, e) ==> {
            &&& held is Some
            &&& held.unwrap().spec_scale() <= e
            &&& held.unwrap().raised(e) == raised_total(a.deposits, order, e)
        }
}

/// Whether `report` is the one report of the account, where the deposits
/// under dispute are of modest size together: in whatever order they are
/// added up, the report is this.
pub open spec fn reports_exactly(a: AccountState, report: Option<Balances>) -> bool {
    forall|order: Seq<TransactionId>, e: u32|
        lists(order, a.disputes) && #[trigger] modest_deposits(a.deposits, order, e) ==> report
            == report_in_order(a, order)
}

/// The report of an account does not depend on the order in which the
/// deposits under dispute are added up, where they are of modest size
/// together.
pub proof fn lemma_report_in_any_order(
    a: AccountState,
    first: Seq<TransactionId>,
    second: Seq<TransactionId>,
    e: u32,
)
    requires
        lists(first, a.disputes),
        lists(second, a.disputes),
        modest_deposits(a.deposits, first, e),
    ensures
        report_in_order(a, first) == report_in_order(a, second),
{
    lemma_held_in_any_order(a, first, second, e);
    lemma_same_normal(
        sum_in_order(a.deposits, first).unwrap(),
        sum_in_order(a.deposits, second).unwrap(),
    );
}

} // verus!
