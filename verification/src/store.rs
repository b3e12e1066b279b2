//! The tables that the ledger keeps, held in `hashbrown` collections.
//!
//! Each table is opaque to the verifier. What it holds has a name, and every
//! function here states over that name what the `hashbrown` method it calls
//! does to the table and what it returns.
use crate::amount::Amount;
use crate::ledger::Account;
use crate::{ClientId, TransactionId};
use vstd::prelude::*;

verus! {

/// The deposits of one account, by transaction: a `hashbrown::HashMap`.
#[verifier::external_body]
pub struct DepositBook {
    entries: hashbrown::HashMap<TransactionId, Amount>,
}

/// The transactions of one account that are under dispute: a
/// `hashbrown::HashSet`.
#[verifier::external_body]
pub struct DisputeSet {
    items: hashbrown::HashSet<TransactionId>,
}

/// The accounts of a ledger, by client: a `hashbrown::HashMap`.
#[verifier::external_body]
pub struct AccountTable {
    entries: hashbrown::HashMap<ClientId, Account>,
}

/// The deposits that a book holds.
pub uninterp spec fn deposit_entries(book: DepositBook) -> Map<TransactionId, Amount>;

/// The transactions that a set holds.
pub uninterp spec fn dispute_items(set: DisputeSet) -> Set<TransactionId>;

/// The accounts that a table holds.
pub uninterp spec fn account_entries(table: AccountTable) -> Map<ClientId, Account>;

/// `HashMap::new`: a book without deposits.
#[verifier::external_body]
pub(crate) fn deposits_new() -> (book: DepositBook)
    ensures
        deposit_entries(book) == (Map::<TransactionId, Amount>::empty()),
{
    DepositBook { entries: hashbrown::HashMap::new() }
}

/// `HashMap::insert`: the book holds `amount` under `tx` afterwards, in place
/// of what it held there, and is otherwise unchanged.
#[verifier::external_body]
pub(crate) fn deposits_insert(book: &mut DepositBook, tx: TransactionId, amount: Amount)
    ensures
        deposit_entries(*final(book)) == deposit_entries(*old(book)).insert(tx, amount),
{
    book.entries.insert(tx, amount);
}

/// `HashMap::get`: the amount held under `tx`, where there is one.
#[verifier::external_body]
pub(crate) fn deposits_get(book: &DepositBook, tx: TransactionId) -> (found: Option<Amount>)
    ensures
        found is Some <==> deposit_entries(*book).contains_key(tx),
        found matches Some(amount) ==> amount == deposit_entries(*book)[tx],
{
    book.entries.get(&tx).copied()
}

/// `HashSet::new`: a set without transactions.
#[verifier::external_body]
pub(crate) fn disputes_new() -> (set: DisputeSet)
    ensures
        dispute_items(set) == Set::<TransactionId>::empty(),
{
    DisputeSet { items: hashbrown::HashSet::new() }
}

/// `HashSet::insert`: the set holds `tx` afterwards, and what it held before.
#[verifier::external_body]
pub(crate) fn disputes_insert(set: &mut DisputeSet, tx: TransactionId)
    ensures
        dispute_items(*final(set)) == dispute_items(*old(set)).insert(tx),
{
    set.items.insert(tx);
}

/// `HashSet::remove`: says whether the set held `tx`, which it no longer
/// holds afterwards; the rest stays.
#[verifier::external_body]
pub(crate) fn disputes_remove(set: &mut DisputeSet, tx: TransactionId) -> (held: bool)
    ensures
        held == dispute_items(*old(set)).contains(tx),
        dispute_items(*final(set)) == dispute_items(*old(set)).remove(tx),
{
    set.items.remove(&tx)
}

/// `HashSet::contains`: whether the set holds `tx`.
#[verifier::external_body]
pub(crate) fn disputes_contains(set: &DisputeSet, tx: TransactionId) -> (held: bool)
    ensures
        held == dispute_items(*set).contains(tx),
{
    set.items.contains(&tx)
}

/// `HashSet::iter`: every transaction of the set once, in an order that is
/// not specified.
#[verifier::external_body]
pub(crate) fn disputes_list(set: &DisputeSet) -> (listed: Vec<TransactionId>)
    ensures
        listed@.no_duplicates(),
        listed@.to_set() == dispute_items(*set),
{
    set.items.iter().copied().collect()
}

/// `HashMap::new`: a table without accounts.
#[verifier::external_body]
pub(crate) fn accounts_new() -> (table: AccountTable)
    ensures
        account_entries(table) == (Map::<ClientId, Account>::empty()),
{
    AccountTable { entries: hashbrown::HashMap::new() }
}

/// `HashMap::insert`: the table holds `account` under `client` afterwards, in
/// place of what it held there, and is otherwise unchanged.
#[verifier::external_body]
pub(crate) fn accounts_insert(table: &mut AccountTable, client: ClientId, account: Account)
    ensures
        account_entries(*final(table)) == account_entries(*old(table)).insert(client, account),
{
    table.entries.insert(client, account);
}

/// `HashMap::get`: the account held under `client`, where there is one.
#[verifier::external_body]
pub(crate) fn accounts_get(table: &AccountTable, client: ClientId) -> (found: Option<&Account>)
    ensures
        found is Some <==> account_entries(*table).contains_key(client),
        found matches Some(account) ==> *account == account_entries(*table)[client],
{
    table.entries.get(&client)
}

/// `HashMap::get_mut`: the account held under `client`, where there is one,
/// to be changed in place. The table then holds under `client` what the
/// caller leaves there; nothing else in it changes.
#[verifier::external_body]
pub(crate) fn accounts_get_mut(table: &mut AccountTable, client: ClientId) -> (found: Option<
    &mut Account,
>)
    ensures
        found is Some <==> account_entries(*old(table)).contains_key(client),
        found matches Some(account) ==> *account == account_entries(*old(table))[client]
            && account_entries(*final(table)) == account_entries(*old(table)).insert(
            client,
            *final(account),
        ),
        found is None ==> account_entries(*final(table)) == account_entries(*old(table)),
{
    table.entries.get_mut(&client)
}

/// `HashMap::keys`: every client of the table once, in an order that is not
/// specified.
#[verifier::external_body]
pub(crate) fn accounts_clients(table: &AccountTable) -> (listed: Vec<ClientId>)
    ensures
        listed@.no_duplicates(),
        listed@.to_set() == account_entries(*table).dom(),
{
    table.entries.keys().copied().collect()
}

} // verus!
