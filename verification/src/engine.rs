use std::collections::HashMap;
use std::collections::TryReserveError;
use std::hash::Hash;

use vstd::prelude::*;
use vstd::string::StringExecFns;

use crate::account::{
    account_error_text, chargeback_outcome, difference_overflows, deposit_outcome, dispute_outcome, resolve_outcome,
    withdraw_outcome, AccountError, ClientAccount, ClientId,
};
use crate::amt::Amt;
use crate::transaction::{
    ProcessedTransaction, TransactionInput, TransactionStatus, TransactionType, TxId,
};

verus! {

broadcast use vstd::std_specs::hash::group_hash_axioms;

/// The accounts of the engine, by client.
pub type AccountBalances = HashMap<ClientId, ClientAccount>;

/// How many entries are reserved at a time when a map is full.
const BATCH_RESERVING: usize = 50;

/// Stateful engine for processing a stream of transactions.
///
/// Keeps the account of every client it has seen and every deposit it has
/// processed, so that deposits can be disputed, resolved and charged back.
#[derive(Debug)]
pub struct TransactionEngine {
    /// The accounts of all clients seen so far.
    accounts: AccountBalances,
    /// The deposits processed so far, by transaction id.
    deposits: HashMap<TxId, ProcessedTransaction>,
    /// The client of each withdrawal processed so far, by transaction id.
    withdrawals: HashMap<TxId, ClientId>,
}

/// Why the engine refused a transaction.
#[derive(Debug, Clone, PartialEq)]
pub enum TransactionError {
    AccountError(AccountError),
    NotEnoughMemoryAvailable(TryReserveError),
    DuplicatedTransactionId,
    AmtMissing,
    AmtPresent,
    TransactionIdNotExistent,
    TransactionNotDisputed,
    TransactionNotDisputable,
    ClientIdMismatch,
    NegativeAmtValue,
}

/// The state of an engine: its accounts, its processed deposits and the
/// clients of its processed withdrawals.
#[verifier::ext_equal]
pub struct Ledger {
    pub accounts: Map<ClientId, ClientAccount>,
    pub deposits: Map<TxId, ProcessedTransaction>,
    pub withdrawals: Map<TxId, ClientId>,
}

impl View for TransactionEngine {
    type V = Ledger;

    closed spec fn view(&self) -> Ledger {
        Ledger {
            accounts: self.accounts@,
            deposits: self.deposits@,
            withdrawals: self.withdrawals@,
        }
    }
}

/// The account of `c` in `accounts`, or a new one where there is none.
pub open spec fn account_or_new(accounts: Map<ClientId, ClientAccount>, c: ClientId) -> ClientAccount {
    if accounts.contains_key(c) {
        accounts[c]
    } else {
        ClientAccount { id: c, available: Amt(0), held: Amt(0), locked: false }
    }
}

/// What the deposit `p` adds to the held funds of client `c`: its amount
/// while it is a disputed deposit of `c`, nothing otherwise.
pub open spec fn disputed_amount(p: ProcessedTransaction, c: ClientId) -> int {
    if p.client_id == c && p.status == TransactionStatus::Disputed {
        p.amt@
    } else {
        0
    }
}

/// Whether `p` is a charged back deposit of client `c`, as 1 or 0.
pub open spec fn charged_back_mark(p: ProcessedTransaction, c: ClientId) -> int {
    if p.client_id == c && p.status == TransactionStatus::ChargedBack {
        1
    } else {
        0
    }
}

/// The weight of a deposit in the held funds of `c`.
pub open spec fn dispute_weight(c: ClientId) -> spec_fn(ProcessedTransaction) -> int {
    |p: ProcessedTransaction| disputed_amount(p, c)
}

/// The weight of a deposit in the count of charged back deposits of `c`.
pub open spec fn chargeback_weight(c: ClientId) -> spec_fn(ProcessedTransaction) -> int {
    |p: ProcessedTransaction| charged_back_mark(p, c)
}

/// Adds the weight `w` of the deposit `t` of `d`.
pub open spec fn add_weight(
    d: Map<TxId, ProcessedTransaction>,
    w: spec_fn(ProcessedTransaction) -> int,
) -> spec_fn(int, TxId) -> int {
    |acc: int, t: TxId| acc + w(d[t])
}

/// The sum of the weights `w` of the deposits in `d`.
pub open spec fn weighted_total(
    d: Map<TxId, ProcessedTransaction>,
    w: spec_fn(ProcessedTransaction) -> int,
) -> int {
    d.dom().fold(0int, add_weight(d, w))
}

/// The sum of the amounts of the disputed deposits of client `c` in `d`.
pub open spec fn disputed_total(d: Map<TxId, ProcessedTransaction>, c: ClientId) -> int {
    weighted_total(d, dispute_weight(c))
}

/// How many deposits of client `c` in `d` are charged back.
pub open spec fn charged_back_count(d: Map<TxId, ProcessedTransaction>, c: ClientId) -> int {
    weighted_total(d, chargeback_weight(c))
}

/// What the engine keeps true of its state: each account is filed under its
/// own client, has no negative balance, holds exactly the sum of its disputed
/// deposits, and is locked exactly when one of its deposits is charged back
/// (and never more than one is); each processed deposit is of an amount that
/// is not negative and belongs to a client with an account; no id is both
/// that of a deposit and that of a withdrawal.
pub open spec fn ledger_inv(l: Ledger) -> bool {
    &&& l.deposits.dom().finite()
    &&& forall|c: ClientId| #[trigger]
        l.accounts.contains_key(c) ==> {
            &&& l.accounts[c].id == c
            &&& l.accounts[c].available@ >= 0
            &&& l.accounts[c].held@ >= 0
            &&& l.accounts[c].held@ == disputed_total(l.deposits, c)
            &&& charged_back_count(l.deposits, c) <= 1
            &&& (l.accounts[c].locked <==> charged_back_count(l.deposits, c) == 1)
        }
    &&& forall|t: TxId| #[trigger]
        l.deposits.contains_key(t) ==> {
            &&& l.deposits[t].amt@ >= 0
            &&& l.accounts.contains_key(l.deposits[t].client_id)
            &&& !l.withdrawals.contains_key(t)
        }
}

/// The state with the account of `c` replaced by `acc`.
pub open spec fn with_account(l: Ledger, c: ClientId, acc: ClientAccount) -> Ledger {
    Ledger { accounts: l.accounts.insert(c, acc), ..l }
}

/// The processed deposit that a dispute, resolve or chargeback `tx` refers
/// to, or why there is none: such a transaction carries no amount, and it must
/// name a recorded deposit of its own client.
pub open spec fn referenced_deposit(l: Ledger, tx: TransactionInput) -> Result<
    ProcessedTransaction,
    TransactionError,
> {
    if tx.amt is Some {
        Err(TransactionError::AmtPresent)
    } else if !l.deposits.contains_key(tx.tx_id) {
        Err(TransactionError::TransactionIdNotExistent)
    } else if l.deposits[tx.tx_id].client_id != tx.client_id {
        Err(TransactionError::ClientIdMismatch)
    } else {
        Ok(l.deposits[tx.tx_id])
    }
}

/// The effect of an account operation on the state: where it succeeds, the
/// account is updated and the deposit `p` of `tx` moves to `status`; where it
/// fails, the account (perhaps a new, empty one) is filed as it was.
pub open spec fn settle(
    l: Ledger,
    tx: TransactionInput,
    acc: ClientAccount,
    outcome: Result<ClientAccount, AccountError>,
    p: ProcessedTransaction,
    status: TransactionStatus,
) -> (Ledger, Result<(), TransactionError>) {
    match outcome {
        Ok(n) => (
            Ledger {
                accounts: l.accounts.insert(tx.client_id, n),
                deposits: l.deposits.insert(tx.tx_id, ProcessedTransaction { status, ..p }),
                withdrawals: l.withdrawals,
            },
            Ok(()),
        ),
        Err(e) => (with_account(l, tx.client_id, acc), Err(TransactionError::AccountError(e))),
    }
}

/// What applying `tx` to the state `l` gives, once the checks that come
/// first (see `screen`) have passed.
pub open spec fn dispatch(l: Ledger, tx: TransactionInput) -> (Ledger, Result<(), TransactionError>) {
    let c = tx.client_id;
    let acc = account_or_new(l.accounts, c);
    match tx.tx_type {
        TransactionType::Deposit => match tx.amt {
            None => (l, Err(TransactionError::AmtMissing)),
            Some(a) => match deposit_outcome(acc, a) {
                Ok(n) => (
                    Ledger {
                        accounts: l.accounts.insert(c, n),
                        deposits: l.deposits.insert(
                            tx.tx_id,
                            ProcessedTransaction {
                                client_id: c,
                                amt: a,
                                status: TransactionStatus::Normal,
                            },
                        ),
                        withdrawals: l.withdrawals,
                    },
                    Ok(()),
                ),
                Err(e) => (with_account(l, c, acc), Err(TransactionError::AccountError(e))),
            },
        },
        TransactionType::Withdrawal => match tx.amt {
            None => (l, Err(TransactionError::AmtMissing)),
            Some(a) => match withdraw_outcome(acc, a) {
                Ok(n) => (
                    Ledger {
                        accounts: l.accounts.insert(c, n),
                        deposits: l.deposits,
                        withdrawals: l.withdrawals.insert(tx.tx_id, c),
                    },
                    Ok(()),
                ),
                Err(e) => (with_account(l, c, acc), Err(TransactionError::AccountError(e))),
            },
        },
        TransactionType::Dispute => match referenced_deposit(l, tx) {
            Err(e) => (l, Err(e)),
            Ok(p) => if p.status != TransactionStatus::Normal {
                (l, Err(TransactionError::TransactionNotDisputable))
            } else {
                settle(l, tx, acc, dispute_outcome(acc, p.amt), p, TransactionStatus::Disputed)
            },
        },
        TransactionType::Resolve => match referenced_deposit(l, tx) {
            Err(e) => (l, Err(e)),
            Ok(p) => if p.status != TransactionStatus::Disputed {
                (l, Err(TransactionError::TransactionNotDisputed))
            } else {
                settle(l, tx, acc, resolve_outcome(acc, p.amt), p, TransactionStatus::Normal)
            },
        },
        TransactionType::Chargeback => match referenced_deposit(l, tx) {
            Err(e) => (l, Err(e)),
            Ok(p) => if p.status != TransactionStatus::Disputed {
                (l, Err(TransactionError::TransactionNotDisputed))
            } else {
                settle(
                    l,
                    tx,
                    acc,
                    chargeback_outcome(acc, p.amt),
                    p,
                    TransactionStatus::ChargedBack,
                )
            },
        },
    }
}

/// The checks made on every transaction before anything else: a deposit or
/// withdrawal must not reuse the id of a processed deposit or withdrawal, and
/// no amount may be negative.
pub open spec fn screen(l: Ledger, tx: TransactionInput) -> Option<TransactionError> {
    if (tx.tx_type == TransactionType::Deposit || tx.tx_type == TransactionType::Withdrawal) && (
    l.deposits.contains_key(tx.tx_id) || l.withdrawals.contains_key(tx.tx_id)) {
        Some(TransactionError::DuplicatedTransactionId)
    } else if tx.amt matches Some(a) && a@ < 0 {
        Some(TransactionError::NegativeAmtValue)
    } else {
        None
    }
}

/// What processing `tx` does to the state `l`, where memory does not run out.
pub open spec fn step(l: Ledger, tx: TransactionInput) -> (Ledger, Result<(), TransactionError>) {
    match screen(l, tx) {
        Some(e) => (l, Err(e)),
        None => dispatch(l, tx),
    }
}

/// `Clone::clone` of `TryReserveError`, which the derived `Clone` of
/// `TransactionError` calls. Nothing is stated of the copy.
pub assume_specification[ <TryReserveError as Clone>::clone ](e: &TryReserveError) -> (r: TryReserveError);

/// `HashMap::capacity`: how many entries the map holds without allocating.
/// Nothing is stated of the number, which depends on the allocator.
#[verifier::external_body]
fn map_capacity<K, V>(m: &HashMap<K, V>) -> usize {
    m.capacity()
}

/// `HashMap::try_reserve`: tries to make room for `additional` more entries.
/// Whether it succeeds depends on the allocator and is not stated; either way
/// the entries of the map are unchanged.
#[verifier::external_body]
fn map_try_reserve<K: Eq + Hash, V>(m: &mut HashMap<K, V>, additional: usize) -> (r: Result<
    (),
    TryReserveError,
>)
    ensures
        final(m)@ == old(m)@,
{
    m.try_reserve(additional)
}

impl TransactionEngine {
    /// Whether the state of the engine keeps `ledger_inv`.
    pub open spec fn inv(&self) -> bool {
        ledger_inv(self@)
    }

    /// Processes one transaction and updates the accounts.
    ///
    /// - a deposit adds its amount to the available funds,
    /// - a withdrawal takes its amount off the available funds,
    /// - a dispute moves the amount of a recorded deposit from available to
    ///   held; only deposits can be disputed,
    /// - a resolve moves the amount of a disputed deposit back to available,
    /// - a chargeback takes the amount of a disputed deposit off held and
    ///   locks the account.
    ///
    /// A deposit or withdrawal that reuses the id of a processed deposit or
    /// withdrawal is refused first, then any transaction with a negative amount; nothing
    /// changes then. Where memory for the internal maps cannot be reserved,
    /// the transaction fails with `NotEnoughMemoryAvailable` and nothing
    /// changes; otherwise the outcome is that of `dispatch`.
    pub fn process_transaction(&mut self, tx: TransactionInput) -> (r: Result<(), TransactionError>)
        requires
            old(self).inv(),
        ensures
            final(self).inv(),
            match screen(old(self)@, tx) {
                Some(e) => r == Err::<(), TransactionError>(e) && final(self)@ == old(self)@,
                None => (r matches Err(TransactionError::NotEnoughMemoryAvailable(_))
                    && final(self)@ == old(self)@) || (final(self)@, r) == dispatch(
                    old(self)@,
                    tx,
                ),
            },
    {
        match tx.tx_type {
            TransactionType::Deposit | TransactionType::Withdrawal => {
                if self.deposits.contains_key(&tx.tx_id) || self.withdrawals.contains_key(
                    &tx.tx_id,
                ) {
                    return Err(TransactionError::DuplicatedTransactionId);
                }
            },
            _ => {},
        }
        if let Some(amt) = tx.amt {
            if amt.is_negative() {
                return Err(TransactionError::NegativeAmtValue);
            }
        }
        if map_capacity(&self.deposits) <= self.deposits.len() {
            if let Err(e) = map_try_reserve(&mut self.deposits, BATCH_RESERVING) {
                return Err(TransactionError::NotEnoughMemoryAvailable(e));
            }
        }
        if map_capacity(&self.accounts) <= self.accounts.len() {
            if let Err(e) = map_try_reserve(&mut self.accounts, BATCH_RESERVING) {
                return Err(TransactionError::NotEnoughMemoryAvailable(e));
            }
        }
        if map_capacity(&self.withdrawals) <= self.withdrawals.len() {
            if let Err(e) = map_try_reserve(&mut self.withdrawals, BATCH_RESERVING) {
                return Err(TransactionError::NotEnoughMemoryAvailable(e));
            }
        }
        self.apply_transaction(tx)
    }

    /// Applies `tx`, which passes the checks of `screen`, as `dispatch` says:
    /// the part of `process_transaction` after its checks.
    pub fn apply_transaction(&mut self, tx: TransactionInput) -> (r: Result<(), TransactionError>)
        requires
            old(self).inv(),
            screen(old(self)@, tx) is None,
        ensures
            final(self).inv(),
            (final(self)@, r) == dispatch(old(self)@, tx),
    {
        proof {
            lemma_dispatch_keeps_inv(self@, tx);
        }
        match tx.tx_type {
            TransactionType::Deposit => self.handle_deposit(tx),
            TransactionType::Withdrawal => self.handle_withdrawal(tx),
            TransactionType::Dispute => self.handle_dispute(tx),
            TransactionType::Resolve => self.handle_resolve(tx),
            TransactionType::Chargeback => self.handle_chargeback(tx),
        }
    }

    /// The accounts of all clients seen so far.
    pub fn get_account_balances(&self) -> (r: &AccountBalances)
        ensures
            r@ == self@.accounts,
    {
        &self.accounts
    }

    /// The deposits processed so far, by transaction id.
    pub fn get_deposits(&self) -> (r: &HashMap<TxId, ProcessedTransaction>)
        ensures
            r@ == self@.deposits,
    {
        &self.deposits
    }

    /// Takes the account of `c` out of the map, or makes a new one.
    fn take_account(&mut self, c: ClientId) -> (acc: ClientAccount)
        ensures
            acc == account_or_new(old(self)@.accounts, c),
            final(self)@.accounts == old(self)@.accounts.remove(c),
            final(self)@.deposits == old(self)@.deposits,
            final(self)@.withdrawals == old(self)@.withdrawals,
    {
        match self.accounts.remove(&c) {
            Some(a) => a,
            None => ClientAccount::new(c),
        }
    }

    fn handle_deposit(&mut self, tx: TransactionInput) -> (r: Result<(), TransactionError>)
        requires
            tx.tx_type == TransactionType::Deposit,
        ensures
            (final(self)@, r) == dispatch(old(self)@, tx),
    {
        let amt = match tx.amt {
            Some(a) => a,
            None => {
                return Err(TransactionError::AmtMissing);
            },
        };
        let mut account = self.take_account(tx.client_id);
        let res = account.deposit(amt);
        self.accounts.insert(tx.client_id, account);
        proof {
            assert(self@.accounts =~= old(self)@.accounts.insert(tx.client_id, account));
        }
        match res {
            Ok(()) => {
                self.deposits.insert(tx.tx_id, ProcessedTransaction::new(tx.client_id, amt));
                Ok(())
            },
            Err(e) => Err(TransactionError::AccountError(e)),
        }
    }

    fn handle_withdrawal(&mut self, tx: TransactionInput) -> (r: Result<(), TransactionError>)
        requires
            tx.tx_type == TransactionType::Withdrawal,
            tx.amt matches Some(a) ==> account_or_new(old(self)@.accounts, tx.client_id).locked
                || !difference_overflows(
                account_or_new(old(self)@.accounts, tx.client_id).available,
                a,
            ),
        ensures
            (final(self)@, r) == dispatch(old(self)@, tx),
    {
        let amt = match tx.amt {
            Some(a) => a,
            None => {
                return Err(TransactionError::AmtMissing);
            },
        };
        let mut account = self.take_account(tx.client_id);
        let res = account.withdraw(amt);
        self.accounts.insert(tx.client_id, account);
        proof {
            assert(self@.accounts =~= old(self)@.accounts.insert(tx.client_id, account));
        }
        match res {
            Ok(()) => {
                self.withdrawals.insert(tx.tx_id, tx.client_id);
                Ok(())
            },
            Err(e) => Err(TransactionError::AccountError(e)),
        }
    }

    /// Looks up the deposit that `tx` refers to, as `referenced_deposit` says,
    /// and gives its client, amount and whether it is in `Normal` and in
    /// `Disputed` status.
    fn lookup_deposit(&self, tx: &TransactionInput) -> (r: Result<
        (ClientId, Amt, bool, bool),
        TransactionError,
    >)
        ensures
            match referenced_deposit(self@, *tx) {
                Ok(p) => r == Ok::<(ClientId, Amt, bool, bool), TransactionError>(
                    (
                        p.client_id,
                        p.amt,
                        p.status == TransactionStatus::Normal,
                        p.status == TransactionStatus::Disputed,
                    ),
                ),
                Err(e) => r == Err::<(ClientId, Amt, bool, bool), TransactionError>(e),
            },
    {
        if tx.amt.is_some() {
            return Err(TransactionError::AmtPresent);
        }
        match self.deposits.get(&tx.tx_id) {
            None => Err(TransactionError::TransactionIdNotExistent),
            Some(p) => {
                if tx.client_id != p.client_id {
                    return Err(TransactionError::ClientIdMismatch);
                }
                let normal = match p.status {
                    TransactionStatus::Normal => true,
                    _ => false,
                };
                let disputed = match p.status {
                    TransactionStatus::Disputed => true,
                    _ => false,
                };
                Ok((p.client_id, p.amt, normal, disputed))
            },
        }
    }

    fn handle_dispute(&mut self, tx: TransactionInput) -> (r: Result<(), TransactionError>)
        requires
            tx.tx_type == TransactionType::Dispute,
            old(self).inv(),
        ensures
            (final(self)@, r) == dispatch(old(self)@, tx),
    {
        let (client_id, amt, normal, _disputed) = match self.lookup_deposit(&tx) {
            Ok(found) => found,
            Err(e) => {
                return Err(e);
            },
        };
        if !normal {
            return Err(TransactionError::TransactionNotDisputable);
        }
        let mut account = self.take_account(tx.client_id);
        let res = account.dispute(amt);
        self.accounts.insert(tx.client_id, account);
        proof {
            assert(self@.accounts =~= old(self)@.accounts.insert(tx.client_id, account));
        }
        match res {
            Ok(()) => {
                self.deposits.insert(
                    tx.tx_id,
                    ProcessedTransaction { client_id, amt, status: TransactionStatus::Disputed },
                );
                Ok(())
            },
            Err(e) => Err(TransactionError::AccountError(e)),
        }
    }

    fn handle_resolve(&mut self, tx: TransactionInput) -> (r: Result<(), TransactionError>)
        requires
            tx.tx_type == TransactionType::Resolve,
            old(self).inv(),
        ensures
            (final(self)@, r) == dispatch(old(self)@, tx),
    {
        let (client_id, amt, _normal, disputed) = match self.lookup_deposit(&tx) {
            Ok(found) => found,
            Err(e) => {
                return Err(e);
            },
        };
        if !disputed {
            return Err(TransactionError::TransactionNotDisputed);
        }
        let mut account = self.take_account(tx.client_id);
        let res = account.resolve(amt);
        self.accounts.insert(tx.client_id, account);
        proof {
            assert(self@.accounts =~= old(self)@.accounts.insert(tx.client_id, account));
        }
        match res {
            Ok(()) => {
                self.deposits.insert(
                    tx.tx_id,
                    ProcessedTransaction { client_id, amt, status: TransactionStatus::Normal },
                );
                Ok(())
            },
            Err(e) => Err(TransactionError::AccountError(e)),
        }
    }

    fn handle_chargeback(&mut self, tx: TransactionInput) -> (r: Result<(), TransactionError>)
        requires
            tx.tx_type == TransactionType::Chargeback,
            old(self).inv(),
        ensures
            (final(self)@, r) == dispatch(old(self)@, tx),
    {
        let (client_id, amt, _normal, disputed) = match self.lookup_deposit(&tx) {
            Ok(found) => found,
            Err(e) => {
                return Err(e);
            },
        };
        if !disputed {
            return Err(TransactionError::TransactionNotDisputed);
        }
        let mut account = self.take_account(tx.client_id);
        let res = account.chargeback(amt);
        self.accounts.insert(tx.client_id, account);
        proof {
            assert(self@.accounts =~= old(self)@.accounts.insert(tx.client_id, account));
        }
        match res {
            Ok(()) => {
                self.deposits.insert(
                    tx.tx_id,
                    ProcessedTransaction { client_id, amt, status: TransactionStatus::ChargedBack },
                );
                Ok(())
            },
            Err(e) => Err(TransactionError::AccountError(e)),
        }
    }
}

impl Default for TransactionEngine {
    /// An engine with no accounts and no deposits.
    fn default() -> (r: Self)
        ensures
            r@.accounts == Map::<ClientId, ClientAccount>::empty(),
            r@.deposits == Map::<TxId, ProcessedTransaction>::empty(),
            r@.withdrawals == Map::<TxId, ClientId>::empty(),
            r.inv(),
    {
        TransactionEngine {
            accounts: HashMap::new(),
            deposits: HashMap::new(),
            withdrawals: HashMap::new(),
        }
    }
}

/// The message of a transaction error other than `NotEnoughMemoryAvailable`.
pub open spec fn transaction_error_text(e: TransactionError) -> Seq<char> {
    match e {
        TransactionError::AccountError(a) => "account error: "@ + account_error_text(a),
        TransactionError::NotEnoughMemoryAvailable(_) => "error trying to reserve space for internal states: "@,
        TransactionError::DuplicatedTransactionId => "duplicated transaction id"@,
        TransactionError::AmtMissing => "amt missing"@,
        TransactionError::AmtPresent => "amt present"@,
        TransactionError::NegativeAmtValue => "amt value negative (only positive values allowed)"@,
        TransactionError::TransactionIdNotExistent => "transaction id referred to not existent"@,
        TransactionError::TransactionNotDisputed => "transaction is not disputed"@,
        TransactionError::TransactionNotDisputable => "transaction is not disputable"@,
        TransactionError::ClientIdMismatch => "client id mismatch"@,
    }
}

impl From<AccountError> for TransactionError {
    /// Wraps an account error.
    fn from(value: AccountError) -> (r: Self) {
        TransactionError::AccountError(value)
    }
}

impl vstd::std_specs::convert::FromSpecImpl<AccountError> for TransactionError {
    open spec fn obeys_from_spec() -> bool {
        true
    }

    open spec fn from_spec(v: AccountError) -> TransactionError {
        TransactionError::AccountError(v)
    }
}

impl TransactionError {
    /// The message that describes the error. For `NotEnoughMemoryAvailable`
    /// it is `transaction_error_text` followed by the text that the
    /// `Display` of `TryReserveError` gives, whose wording is not stated here.
    pub fn to_string(&self) -> (r: String)
        ensures
            match self {
                TransactionError::NotEnoughMemoryAvailable(e) => exists|d: String|
                    #[trigger] vstd::string::to_string_from_display_ensures::<TryReserveError>(e, d) && r@
                        == transaction_error_text(*self) + d@,
                _ => r@ == transaction_error_text(*self),
            },
    {
        match self {
            TransactionError::AccountError(a) => {
                let mut s = String::from_str("account error: ");
                s.append(a.message());
                s
            },
            TransactionError::NotEnoughMemoryAvailable(e) => {
                let mut s = String::from_str("error trying to reserve space for internal states: ");
                let d = e.to_string();
                s.append(d.as_str());
                assert(vstd::string::to_string_from_display_ensures::<TryReserveError>(e, d));
                s
            },
            TransactionError::DuplicatedTransactionId => String::from_str("duplicated transaction id"),
            TransactionError::AmtMissing => String::from_str("amt missing"),
            TransactionError::AmtPresent => String::from_str("amt present"),
            TransactionError::NegativeAmtValue => String::from_str(
                "amt value negative (only positive values allowed)",
            ),
            TransactionError::TransactionIdNotExistent => String::from_str(
                "transaction id referred to not existent",
            ),
            TransactionError::TransactionNotDisputed => String::from_str("transaction is not disputed"),
            TransactionError::TransactionNotDisputable => String::from_str(
                "transaction is not disputable",
            ),
            TransactionError::ClientIdMismatch => String::from_str("client id mismatch"),
        }
    }
}

/// `dispatch` keeps `ledger_inv` for a transaction that passes `screen`.
pub proof fn lemma_dispatch_keeps_inv(l: Ledger, tx: TransactionInput)
    requires
        ledger_inv(l),
        screen(l, tx) is None,
    ensures
        ledger_inv(dispatch(l, tx).0),
{
    let c = tx.client_id;
    let l2 = dispatch(l, tx).0;
    let d = l.deposits;
    if !l.accounts.contains_key(c) {
        assert forall|t: TxId| d.contains_key(t) implies d[t].client_id != c by {}
        lemma_weighted_total_zero(d, dispute_weight(c));
        lemma_weighted_total_zero(d, chargeback_weight(c));
    }
    if l2.deposits != d {
        let t = tx.tx_id;
        let p2 = l2.deposits[t];
        assert(l2.deposits == d.insert(t, p2));
        assert forall|k: ClientId| #[trigger] l2.accounts.contains_key(k) implies {
            &&& l2.accounts[k].held@ == disputed_total(l2.deposits, k)
            &&& charged_back_count(l2.deposits, k) <= 1
            &&& (l2.accounts[k].locked <==> charged_back_count(l2.deposits, k) == 1)
        } by {
            lemma_weighted_total_insert(d, t, p2, dispute_weight(k));
            lemma_weighted_total_insert(d, t, p2, chargeback_weight(k));
            if l.accounts.contains_key(k) {
                lemma_fold_non_negative(d.dom(), d, chargeback_weight(k));
            }
        }
    }
}

proof fn lemma_add_weight_commutative(
    d: Map<TxId, ProcessedTransaction>,
    w: spec_fn(ProcessedTransaction) -> int,
)
    ensures
        vstd::set::fold::is_fun_commutative(add_weight(d, w)),
{
}

/// Folding over the same keys of two maps whose deposits weigh the same
/// gives the same sum.
proof fn lemma_fold_agree(
    s: Set<TxId>,
    d1: Map<TxId, ProcessedTransaction>,
    d2: Map<TxId, ProcessedTransaction>,
    w: spec_fn(ProcessedTransaction) -> int,
)
    requires
        s.finite(),
        forall|t: TxId| s.contains(t) ==> w(d1[t]) == w(d2[t]),
    ensures
        s.fold(0int, add_weight(d1, w)) == s.fold(0int, add_weight(d2, w)),
    decreases s.len(),
{
    lemma_add_weight_commutative(d1, w);
    lemma_add_weight_commutative(d2, w);
    if s.len() == 0 {
        assert(s =~= Set::<TxId>::empty());
        vstd::set::fold::lemma_fold_empty(0int, add_weight(d1, w));
        vstd::set::fold::lemma_fold_empty(0int, add_weight(d2, w));
    } else {
        let t = s.choose();
        let r = s.remove(t);
        lemma_fold_agree(r, d1, d2, w);
        vstd::set::fold::lemma_fold_insert(r, 0int, add_weight(d1, w), t);
        vstd::set::fold::lemma_fold_insert(r, 0int, add_weight(d2, w), t);
        assert(r.insert(t) =~= s);
    }
}

/// Folding over keys whose deposits weigh nothing gives zero.
proof fn lemma_fold_zero(
    s: Set<TxId>,
    d: Map<TxId, ProcessedTransaction>,
    w: spec_fn(ProcessedTransaction) -> int,
)
    requires
        s.finite(),
        forall|t: TxId| s.contains(t) ==> w(d[t]) == 0,
    ensures
        s.fold(0int, add_weight(d, w)) == 0,
    decreases s.len(),
{
    lemma_add_weight_commutative(d, w);
    if s.len() == 0 {
        assert(s =~= Set::<TxId>::empty());
        vstd::set::fold::lemma_fold_empty(0int, add_weight(d, w));
    } else {
        let t = s.choose();
        let r = s.remove(t);
        lemma_fold_zero(r, d, w);
        vstd::set::fold::lemma_fold_insert(r, 0int, add_weight(d, w), t);
        assert(r.insert(t) =~= s);
    }
}

/// Folding over keys whose deposits weigh nothing negative gives at least
/// the weight of any one of them.
proof fn lemma_fold_at_least(
    s: Set<TxId>,
    d: Map<TxId, ProcessedTransaction>,
    w: spec_fn(ProcessedTransaction) -> int,
    t: TxId,
)
    requires
        s.finite(),
        s.contains(t),
        forall|k: TxId| s.contains(k) ==> w(d[k]) >= 0,
    ensures
        s.fold(0int, add_weight(d, w)) >= w(d[t]),
{
    lemma_add_weight_commutative(d, w);
    let r = s.remove(t);
    lemma_fold_non_negative(r, d, w);
    vstd::set::fold::lemma_fold_insert(r, 0int, add_weight(d, w), t);
    assert(r.insert(t) =~= s);
}

proof fn lemma_fold_non_negative(
    s: Set<TxId>,
    d: Map<TxId, ProcessedTransaction>,
    w: spec_fn(ProcessedTransaction) -> int,
)
    requires
        s.finite(),
        forall|k: TxId| s.contains(k) ==> w(d[k]) >= 0,
    ensures
        s.fold(0int, add_weight(d, w)) >= 0,
    decreases s.len(),
{
    lemma_add_weight_commutative(d, w);
    if s.len() == 0 {
        assert(s =~= Set::<TxId>::empty());
        vstd::set::fold::lemma_fold_empty(0int, add_weight(d, w));
    } else {
        let t = s.choose();
        let r = s.remove(t);
        lemma_fold_non_negative(r, d, w);
        vstd::set::fold::lemma_fold_insert(r, 0int, add_weight(d, w), t);
        assert(r.insert(t) =~= s);
    }
}

/// Deposits that weigh nothing add up to zero.
proof fn lemma_weighted_total_zero(
    d: Map<TxId, ProcessedTransaction>,
    w: spec_fn(ProcessedTransaction) -> int,
)
    requires
        d.dom().finite(),
        forall|t: TxId| d.contains_key(t) ==> w(d[t]) == 0,
    ensures
        weighted_total(d, w) == 0,
{
    lemma_fold_zero(d.dom(), d, w);
}

/// Recording `p` under `t` changes a weighted total by the weight of `p`,
/// less the weight of the record it replaces.
proof fn lemma_weighted_total_insert(
    d: Map<TxId, ProcessedTransaction>,
    t: TxId,
    p: ProcessedTransaction,
    w: spec_fn(ProcessedTransaction) -> int,
)
    requires
        d.dom().finite(),
    ensures
        weighted_total(d.insert(t, p), w) == weighted_total(d, w) - (if d.contains_key(t) {
            w(d[t])
        } else {
            0
        }) + w(p),
{
    let d2 = d.insert(t, p);
    let r = d.dom().remove(t);
    lemma_add_weight_commutative(d, w);
    lemma_add_weight_commutative(d2, w);
    assert forall|k: TxId| r.contains(k) implies w(d[k]) == w(d2[k]) by {}
    lemma_fold_agree(r, d, d2, w);
    vstd::set::fold::lemma_fold_insert(r, 0int, add_weight(d2, w), t);
    assert(r.insert(t) =~= d2.dom());
    if d.contains_key(t) {
        vstd::set::fold::lemma_fold_insert(r, 0int, add_weight(d, w), t);
        assert(r.insert(t) =~= d.dom());
    } else {
        assert(r =~= d.dom());
    }
}

// ---------------------------------------------------------------------------
// Laws of the engine.
// ---------------------------------------------------------------------------

/// Every step keeps `ledger_inv`: in particular no balance ever goes below
/// zero.
pub proof fn lemma_step_keeps_inv(l: Ledger, tx: TransactionInput)
    requires
        ledger_inv(l),
    ensures
        ledger_inv(step(l, tx).0),
        forall|c: ClientId| #[trigger]
            step(l, tx).0.accounts.contains_key(c) ==> step(l, tx).0.accounts[c].available@ >= 0
                && step(l, tx).0.accounts[c].held@ >= 0,
{
    if screen(l, tx) is None {
        lemma_dispatch_keeps_inv(l, tx);
    }
}

/// A locked account takes no further transaction: every transaction of its
/// client is refused and changes nothing, and no other transaction changes
/// the account.
pub proof fn lemma_locked_account_is_frozen(l: Ledger, tx: TransactionInput, c: ClientId)
    requires
        ledger_inv(l),
        l.accounts.contains_key(c),
        l.accounts[c].locked,
    ensures
        step(l, tx).0.accounts.contains_key(c),
        step(l, tx).0.accounts[c] == l.accounts[c],
        tx.client_id == c ==> step(l, tx).1 is Err && step(l, tx).0 == l,
{
    if tx.client_id == c {
        assert(l.accounts.insert(c, l.accounts[c]) =~= l.accounts);
    }
}

/// A charged back deposit stays as it is, whatever comes after.
pub proof fn lemma_charged_back_is_final(l: Ledger, tx: TransactionInput, t: TxId)
    requires
        l.deposits.contains_key(t),
        l.deposits[t].status == TransactionStatus::ChargedBack,
    ensures
        step(l, tx).0.deposits.contains_key(t),
        step(l, tx).0.deposits[t] == l.deposits[t],
{
}

/// Recorded deposits are never forgotten, nor do their client or amount
/// change; the only new deposit record a step makes is that of a successful
/// deposit. So withdrawals are never recorded as deposits and cannot be
/// disputed.
pub proof fn lemma_deposits_are_kept(l: Ledger, tx: TransactionInput, t: TxId)
    ensures
        l.deposits.contains_key(t) ==> {
            &&& step(l, tx).0.deposits.contains_key(t)
            &&& step(l, tx).0.deposits[t].client_id == l.deposits[t].client_id
            &&& step(l, tx).0.deposits[t].amt == l.deposits[t].amt
        },
        step(l, tx).0.deposits.contains_key(t) <==> (l.deposits.contains_key(t) || (tx.tx_type
            == TransactionType::Deposit && step(l, tx).1 is Ok && t == tx.tx_id)),
{
}

/// A refused transaction changes no balance, no deposit and no withdrawal; at most it
/// opens an empty account for its client.
pub proof fn lemma_refused_changes_no_balance(l: Ledger, tx: TransactionInput)
    requires
        ledger_inv(l),
        step(l, tx).1 is Err,
    ensures
        step(l, tx).0.deposits == l.deposits,
        step(l, tx).0.withdrawals == l.withdrawals,
        step(l, tx).0.accounts == l.accounts || (!l.accounts.contains_key(tx.client_id)
            && step(l, tx).0.accounts == l.accounts.insert(
            tx.client_id,
            ClientAccount { id: tx.client_id, available: Amt(0), held: Amt(0), locked: false },
        )),
{
    if l.accounts.contains_key(tx.client_id) {
        assert(l.accounts.insert(tx.client_id, l.accounts[tx.client_id]) =~= l.accounts);
    }
}

/// A resolve undoes a dispute: where a dispute of deposit `t` by client `c`
/// succeeds, a resolve of it right after succeeds and gives back the state
/// from before the dispute. Disputes and resolves pass `screen`, so this
/// holds alike of `step` (`process_transaction`) and of `dispatch`
/// (`apply_transaction`).
pub proof fn lemma_resolve_undoes_dispute(l: Ledger, c: ClientId, t: TxId)
    requires
        ledger_inv(l),
        step(l, TransactionInput { tx_type: TransactionType::Dispute, client_id: c, tx_id: t, amt: None }).1 is Ok,
    ensures
        ({
            let disputed = step(
                l,
                TransactionInput { tx_type: TransactionType::Dispute, client_id: c, tx_id: t, amt: None },
            ).0;
            step(
                disputed,
                TransactionInput { tx_type: TransactionType::Resolve, client_id: c, tx_id: t, amt: None },
            ) == (l, Ok::<(), TransactionError>(()))
        }),
        ({
            let disputed = dispatch(
                l,
                TransactionInput { tx_type: TransactionType::Dispute, client_id: c, tx_id: t, amt: None },
            );
            disputed.1 is Ok && dispatch(
                disputed.0,
                TransactionInput { tx_type: TransactionType::Resolve, client_id: c, tx_id: t, amt: None },
            ) == (l, Ok::<(), TransactionError>(()))
        }),
{
    let d = TransactionInput { tx_type: TransactionType::Dispute, client_id: c, tx_id: t, amt: None };
    let r = TransactionInput { tx_type: TransactionType::Resolve, client_id: c, tx_id: t, amt: None };
    let l1 = step(l, d).0;
    let p = l.deposits[t];
    let acc = l.accounts[c];
    crate::account::lemma_resolve_undoes_dispute(acc, p.amt);
    let acc1 = dispute_outcome(acc, p.amt)->Ok_0;
    assert(l1.accounts[c] == acc1);
    assert(l1.deposits[t] == ProcessedTransaction { status: TransactionStatus::Disputed, ..p });
    assert(account_or_new(l1.accounts, c) == acc1);
    let l2 = step(l1, r).0;
    assert(l2.accounts =~= l.accounts);
    assert(l2.deposits =~= l.deposits);
}

/// The held funds of a client cover each of its disputed deposits: in a
/// state that keeps `ledger_inv`, the chargeback of a disputed deposit of an
/// unlocked account succeeds, and its resolve fails at most because the
/// available funds would overflow.
pub proof fn lemma_held_covers_disputes(l: Ledger, c: ClientId, t: TxId)
    requires
        ledger_inv(l),
        l.deposits.contains_key(t),
        l.deposits[t].client_id == c,
        l.deposits[t].status == TransactionStatus::Disputed,
        !l.accounts[c].locked,
    ensures
        l.accounts[c].held@ >= l.deposits[t].amt@,
        step(
            l,
            TransactionInput { tx_type: TransactionType::Chargeback, client_id: c, tx_id: t, amt: None },
        ).1 is Ok,
        ({
            let r = step(
                l,
                TransactionInput { tx_type: TransactionType::Resolve, client_id: c, tx_id: t, amt: None },
            ).1;
            r is Ok || r == Err::<(), TransactionError>(
                TransactionError::AccountError(AccountError::AvailableOverflow),
            )
        }),
{
    let d = l.deposits;
    assert(l.accounts.contains_key(c));
    assert forall|k: TxId| d.dom().contains(k) implies dispute_weight(c)(d[k]) >= 0 by {}
    lemma_fold_at_least(d.dom(), d, dispute_weight(c), t);
}

/// An account is locked exactly when one of its deposits has been charged
/// back, and no account has more than one charged back deposit: this holds
/// after every step from a state that keeps `ledger_inv`, as it holds of the
/// empty state that `TransactionEngine::default` gives.
pub proof fn lemma_locked_iff_one_chargeback(l: Ledger, tx: TransactionInput)
    requires
        ledger_inv(l),
    ensures
        forall|c: ClientId| #[trigger]
            step(l, tx).0.accounts.contains_key(c) ==> charged_back_count(step(l, tx).0.deposits, c)
                <= 1 && (step(l, tx).0.accounts[c].locked <==> charged_back_count(
                step(l, tx).0.deposits,
                c,
            ) == 1),
{
    lemma_step_keeps_inv(l, tx);
}

/// A deposit or withdrawal that reuses the id of a processed deposit or
/// withdrawal is refused with `DuplicatedTransactionId` and changes nothing.
pub proof fn lemma_reused_id_refused(l: Ledger, tx: TransactionInput)
    requires
        tx.tx_type == TransactionType::Deposit || tx.tx_type == TransactionType::Withdrawal,
        l.deposits.contains_key(tx.tx_id) || l.withdrawals.contains_key(tx.tx_id),
    ensures
        step(l, tx) == (l, Err::<(), TransactionError>(TransactionError::DuplicatedTransactionId)),
{
}

/// The ids of processed withdrawals are never forgotten, and the only new one
/// a step records is that of a successful withdrawal.
pub proof fn lemma_withdrawal_ids_are_kept(l: Ledger, tx: TransactionInput, t: TxId)
    ensures
        l.withdrawals.contains_key(t) ==> step(l, tx).0.withdrawals.contains_key(t)
            && step(l, tx).0.withdrawals[t] == l.withdrawals[t],
        step(l, tx).0.withdrawals.contains_key(t) <==> (l.withdrawals.contains_key(t) || (
        tx.tx_type == TransactionType::Withdrawal && step(l, tx).1 is Ok && t == tx.tx_id)),
{
}

/// A fresh deposit of an amount that is not negative into an unlocked
/// account succeeds where the sum fits: the client's available funds grow by
/// the amount, its held funds stay, the deposit is recorded as `Normal`, and
/// no other account changes.
pub proof fn law_engine_deposit(l: Ledger, tx: TransactionInput)
    requires
        tx.tx_type == TransactionType::Deposit,
        tx.amt is Some,
        tx.amt->0@ >= 0,
        !l.deposits.contains_key(tx.tx_id),
        !l.withdrawals.contains_key(tx.tx_id),
        !account_or_new(l.accounts, tx.client_id).locked,
        account_or_new(l.accounts, tx.client_id).available@ + tx.amt->0@ <= i128::MAX,
    ensures
        ({
            let (l2, r) = step(l, tx);
            let before = account_or_new(l.accounts, tx.client_id);
            let after = l2.accounts[tx.client_id];
            &&& r is Ok
            &&& l2.accounts.contains_key(tx.client_id)
            &&& after.available@ == before.available@ + tx.amt->0@
            &&& after.held == before.held
            &&& !after.locked
            &&& l2.deposits == l.deposits.insert(
                tx.tx_id,
                ProcessedTransaction {
                    client_id: tx.client_id,
                    amt: tx.amt->0,
                    status: TransactionStatus::Normal,
                },
            )
            &&& forall|k: ClientId| #[trigger]
                l.accounts.contains_key(k) && k != tx.client_id ==> l2.accounts.contains_key(k)
                    && l2.accounts[k] == l.accounts[k]
        }),
{
}

/// A fresh withdrawal of an amount that is not negative and at most the
/// available funds of an unlocked account succeeds, whatever is held: the
/// available funds shrink by the amount, the held funds stay, its id is
/// recorded, and no other account and no deposit changes.
pub proof fn law_engine_withdrawal(l: Ledger, tx: TransactionInput)
    requires
        tx.tx_type == TransactionType::Withdrawal,
        tx.amt is Some,
        tx.amt->0@ >= 0,
        !l.deposits.contains_key(tx.tx_id),
        !l.withdrawals.contains_key(tx.tx_id),
        !account_or_new(l.accounts, tx.client_id).locked,
        tx.amt->0@ <= account_or_new(l.accounts, tx.client_id).available@,
    ensures
        ({
            let (l2, r) = step(l, tx);
            let before = account_or_new(l.accounts, tx.client_id);
            let after = l2.accounts[tx.client_id];
            &&& r is Ok
            &&& l2.accounts.contains_key(tx.client_id)
            &&& after.available@ == before.available@ - tx.amt->0@
            &&& after.held == before.held
            &&& !after.locked
            &&& l2.deposits == l.deposits
            &&& l2.withdrawals.contains_key(tx.tx_id)
            &&& forall|k: ClientId| #[trigger]
                l.accounts.contains_key(k) && k != tx.client_id ==> l2.accounts.contains_key(k)
                    && l2.accounts[k] == l.accounts[k]
        }),
{
}

/// A `Normal` deposit of a client whose account is unlocked, has at least
/// its amount available and can hold it more can always be disputed: its
/// amount moves from available to held, whatever was held before, and the
/// deposit becomes `Disputed`.
pub proof fn law_engine_dispute(l: Ledger, c: ClientId, t: TxId)
    requires
        ledger_inv(l),
        l.deposits.contains_key(t),
        l.deposits[t].client_id == c,
        l.deposits[t].status == TransactionStatus::Normal,
        !l.accounts[c].locked,
        l.deposits[t].amt@ <= l.accounts[c].available@,
        l.accounts[c].held@ + l.deposits[t].amt@ <= i128::MAX,
    ensures
        ({
            let (l2, r) = step(
                l,
                TransactionInput { tx_type: TransactionType::Dispute, client_id: c, tx_id: t, amt: None },
            );
            let amt = l.deposits[t].amt@;
            &&& r is Ok
            &&& l2.accounts[c].available@ == l.accounts[c].available@ - amt
            &&& l2.accounts[c].held@ == l.accounts[c].held@ + amt
            &&& !l2.accounts[c].locked
            &&& l2.deposits[t].status == TransactionStatus::Disputed
            &&& l2.deposits[t].amt == l.deposits[t].amt
            &&& l2.deposits[t].client_id == c
        }),
{
    assert(l.accounts.contains_key(c));
}

} // verus!
