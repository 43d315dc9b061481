//! The transaction engine: dispatches deposit, withdrawal, dispute, resolve
//! and chargeback records to their handlers, maintaining the registry of
//! client accounts and the history of disputable transactions.
//!
//! The behaviour of every handler is captured by the spec functions
//! [`deposit_step`] through [`chargeback_step`], combined in [`step`]: the
//! executable engine is proved to transform its state exactly as `step` says
//! and to return exactly the result `step` says.

use std::collections::HashMap;

use vstd::prelude::*;

use crate::account::{Account, Amount};

verus! {

/// Identifies a client; the first record naming a client implicitly creates
/// its account.
pub type ClientId = u16;

/// Identifies a transaction; assumed globally unique, never validated, so a
/// reused id silently overwrites the stored history entry.
pub type TransactionId = u32;

/// Why a transaction was rejected. Every rejection is returned as a value;
/// none is fatal and none leaves a handler's mutations half-applied.
#[derive(Clone, Copy, Debug, PartialEq, Eq, Structural)]
pub enum Error {
    /// Deposit, withdrawal or dispute attempted on a frozen account.
    AccountFrozen,
    /// A dispute, resolve or chargeback names a transaction whose recorded
    /// client has no account (defensive; cannot arise from engine use alone).
    AccountNotFound,
    /// Withdrawal amount exceeds the available balance.
    InsufficientFunds,
    /// Deposit or withdrawal carries a negative amount.
    InvalidAmount,
    /// Chargeback names a transaction not currently disputed.
    InvalidChargeback,
    /// Dispute names a transaction already disputed, or not a deposit.
    InvalidDispute,
    /// Resolve names a transaction not currently disputed.
    InvalidResolve,
    /// A dispute, resolve or chargeback names an unknown transaction id.
    TransactionNotFound,
}

/// The kind of an incoming record.
#[derive(Clone, Copy, Debug, PartialEq, Eq, Structural)]
pub enum Type {
    Chargeback,
    Deposit,
    Dispute,
    Resolve,
    Withdrawal,
}

/// An incoming record, and, for deposits and withdrawals, the shape in which
/// it is retained in history while it remains eligible for disputes.
#[derive(Clone, Copy, Debug, PartialEq, Eq)]
pub struct Transaction {
    pub type_: Type,
    pub client: ClientId,
    pub tx: TransactionId,
    /// Absent amounts are treated as zero.
    pub amount: Option<Amount>,
    /// Internal bookkeeping: set by a successful dispute, erased with the
    /// entry by a successful resolve or chargeback.
    pub disputed: bool,
}

impl Transaction {
    /// The record's amount, with an absent amount read as zero.
    pub open spec fn amount_or_zero(self) -> Amount {
        match self.amount {
            Some(a) => a,
            None => 0,
        }
    }

    /// The record's amount, with an absent amount read as zero.
    pub fn amount(&self) -> (r: Amount)
        ensures
            r == self.amount_or_zero(),
    {
        match self.amount {
            Some(a) => a,
            None => 0,
        }
    }
}

/// The abstract state of the engine: the account registry and the history of
/// retained deposit/withdrawal records.
pub struct EngineView {
    pub accounts: Map<ClientId, Account>,
    pub txs: Map<TransactionId, Transaction>,
}

/// The account a record for client `c` operates on: the registered one, or a
/// fresh all-zero account created on first reference.
pub open spec fn account_or_new(s: EngineView, c: ClientId) -> Account {
    if s.accounts.contains_key(c) {
        s.accounts[c]
    } else {
        Account { available: 0, held: 0, frozen: false }
    }
}

/// Whether a mathematical amount fits the fixed-point representation.
pub open spec fn in_range(x: int) -> bool {
    i128::MIN <= x <= i128::MAX
}

/// What a deposit record does: reject a negative amount, create the account
/// on first reference, reject a frozen account, and otherwise credit
/// `available` and retain the record (undisputed) in history, overwriting any
/// entry with the same id.
pub open spec fn deposit_step(s: EngineView, t: Transaction) -> (EngineView, Result<(), Error>) {
    let amt = t.amount_or_zero();
    if amt < 0 {
        (s, Err(Error::InvalidAmount))
    } else {
        let acc = account_or_new(s, t.client);
        let created = EngineView { accounts: s.accounts.insert(t.client, acc), txs: s.txs };
        if acc.frozen {
            (created, Err(Error::AccountFrozen))
        } else {
            (
                EngineView {
                    accounts: s.accounts.insert(
                        t.client,
                        Account {
                            available: (acc.available + amt) as i128,
                            held: acc.held,
                            frozen: acc.frozen,
                        },
                    ),
                    txs: s.txs.insert(t.tx, Transaction { disputed: false, ..t }),
                },
                Ok(()),
            )
        }
    }
}

/// What a withdrawal record does: reject a negative amount, create the
/// account on first reference, reject a frozen account, reject a shortfall,
/// and otherwise debit `available` and retain the record in history.
pub open spec fn withdrawal_step(s: EngineView, t: Transaction) -> (EngineView, Result<(), Error>) {
    let amt = t.amount_or_zero();
    if amt < 0 {
        (s, Err(Error::InvalidAmount))
    } else {
        let acc = account_or_new(s, t.client);
        let created = EngineView { accounts: s.accounts.insert(t.client, acc), txs: s.txs };
        if acc.frozen {
            (created, Err(Error::AccountFrozen))
        } else if acc.available < amt {
            (created, Err(Error::InsufficientFunds))
        } else {
            (
                EngineView {
                    accounts: s.accounts.insert(
                        t.client,
                        Account {
                            available: (acc.available - amt) as i128,
                            held: acc.held,
                            frozen: acc.frozen,
                        },
                    ),
                    txs: s.txs.insert(t.tx, Transaction { disputed: false, ..t }),
                },
                Ok(()),
            )
        }
    }
}

/// What a dispute record does: look up the named transaction and its recorded
/// client's account, reject an already-disputed or non-deposit entry and a
/// frozen account, and otherwise move the stored amount from `available` to
/// `held` and mark the entry disputed.
pub open spec fn dispute_step(s: EngineView, t: Transaction) -> (EngineView, Result<(), Error>) {
    if !s.txs.contains_key(t.tx) {
        (s, Err(Error::TransactionNotFound))
    } else {
        let st = s.txs[t.tx];
        if !s.accounts.contains_key(st.client) {
            (s, Err(Error::AccountNotFound))
        } else if st.disputed || !(st.type_ is Deposit) {
            (s, Err(Error::InvalidDispute))
        } else {
            let acc = s.accounts[st.client];
            let amt = st.amount_or_zero();
            if acc.frozen {
                (s, Err(Error::AccountFrozen))
            } else {
                (
                    EngineView {
                        accounts: s.accounts.insert(
                            st.client,
                            Account {
                                available: (acc.available - amt) as i128,
                                held: (acc.held + amt) as i128,
                                frozen: acc.frozen,
                            },
                        ),
                        txs: s.txs.insert(t.tx, Transaction { disputed: true, ..st }),
                    },
                    Ok(()),
                )
            }
        }
    }
}

/// What a resolve record does: look up the named transaction and its recorded
/// client's account, reject an entry not under dispute, and otherwise move
/// the stored amount back from `held` to `available` and delete the entry.
/// A frozen account does not block a resolve.
pub open spec fn resolve_step(s: EngineView, t: Transaction) -> (EngineView, Result<(), Error>) {
    if !s.txs.contains_key(t.tx) {
        (s, Err(Error::TransactionNotFound))
    } else {
        let st = s.txs[t.tx];
        if !s.accounts.contains_key(st.client) {
            (s, Err(Error::AccountNotFound))
        } else if !st.disputed {
            (s, Err(Error::InvalidResolve))
        } else {
            let acc = s.accounts[st.client];
            let amt = st.amount_or_zero();
            (
                EngineView {
                    accounts: s.accounts.insert(
                        st.client,
                        Account {
                            available: (acc.available + amt) as i128,
                            held: (acc.held - amt) as i128,
                            frozen: acc.frozen,
                        },
                    ),
                    txs: s.txs.remove(t.tx),
                },
                Ok(()),
            )
        }
    }
}

/// What a chargeback record does: look up the named transaction and its
/// recorded client's account, reject an entry not under dispute, and
/// otherwise confiscate the held amount, freeze the account and delete the
/// entry. A frozen account does not block a chargeback.
pub open spec fn chargeback_step(s: EngineView, t: Transaction) -> (EngineView, Result<(), Error>) {
    if !s.txs.contains_key(t.tx) {
        (s, Err(Error::TransactionNotFound))
    } else {
        let st = s.txs[t.tx];
        if !s.accounts.contains_key(st.client) {
            (s, Err(Error::AccountNotFound))
        } else if !st.disputed {
            (s, Err(Error::InvalidChargeback))
        } else {
            let acc = s.accounts[st.client];
            let amt = st.amount_or_zero();
            (
                EngineView {
                    accounts: s.accounts.insert(
                        st.client,
                        Account {
                            available: acc.available,
                            held: (acc.held - amt) as i128,
                            frozen: true,
                        },
                    ),
                    txs: s.txs.remove(t.tx),
                },
                Ok(()),
            )
        }
    }
}

/// How one record transforms the engine state, and the result it returns.
pub open spec fn step(s: EngineView, t: Transaction) -> (EngineView, Result<(), Error>) {
    match t.type_ {
        Type::Deposit => deposit_step(s, t),
        Type::Withdrawal => withdrawal_step(s, t),
        Type::Dispute => dispute_step(s, t),
        Type::Resolve => resolve_step(s, t),
        Type::Chargeback => chargeback_step(s, t),
    }
}

/// The arithmetic a deposit would perform stays within the fixed-point range.
pub open spec fn deposit_fits(s: EngineView, t: Transaction) -> bool {
    let amt = t.amount_or_zero();
    let acc = account_or_new(s, t.client);
    amt >= 0 && !acc.frozen ==> in_range(acc.available + amt)
}

/// The arithmetic a dispute would perform stays within the fixed-point range.
pub open spec fn dispute_fits(s: EngineView, t: Transaction) -> bool {
    s.txs.contains_key(t.tx) ==> {
        let st = s.txs[t.tx];
        let amt = st.amount_or_zero();
        (s.accounts.contains_key(st.client) && !st.disputed && st.type_ is Deposit
            && !s.accounts[st.client].frozen) ==> {
            let acc = s.accounts[st.client];
            in_range(acc.available - amt) && in_range(acc.held + amt)
        }
    }
}

/// The arithmetic a resolve would perform stays within the fixed-point range.
pub open spec fn resolve_fits(s: EngineView, t: Transaction) -> bool {
    s.txs.contains_key(t.tx) ==> {
        let st = s.txs[t.tx];
        let amt = st.amount_or_zero();
        (s.accounts.contains_key(st.client) && st.disputed) ==> {
            let acc = s.accounts[st.client];
            in_range(acc.available + amt) && in_range(acc.held - amt)
        }
    }
}

/// The arithmetic a chargeback would perform stays within the fixed-point
/// range.
pub open spec fn chargeback_fits(s: EngineView, t: Transaction) -> bool {
    s.txs.contains_key(t.tx) ==> {
        let st = s.txs[t.tx];
        let amt = st.amount_or_zero();
        (s.accounts.contains_key(st.client) && st.disputed) ==> in_range(
            s.accounts[st.client].held - amt,
        )
    }
}

/// The arithmetic `step(s, t)` would perform stays within the fixed-point
/// range. A record whose arithmetic would leave the range has no defined
/// outcome here; [`TransactionEngine::can_apply`] tests this before a call.
pub open spec fn arith_fits(s: EngineView, t: Transaction) -> bool {
    match t.type_ {
        Type::Deposit => deposit_fits(s, t),
        Type::Withdrawal => true,
        Type::Dispute => dispute_fits(s, t),
        Type::Resolve => resolve_fits(s, t),
        Type::Chargeback => chargeback_fits(s, t),
    }
}

/// Whether `a + b` stays within the fixed-point range.
fn add_in_range(a: i128, b: i128) -> (r: bool)
    ensures
        r == in_range(a + b),
{
    if b >= 0 {
        a <= i128::MAX - b
    } else {
        a >= i128::MIN - b
    }
}

/// Whether `a - b` stays within the fixed-point range.
fn sub_in_range(a: i128, b: i128) -> (r: bool)
    ensures
        r == in_range(a - b),
{
    if b <= 0 {
        a <= i128::MAX + b
    } else {
        a >= i128::MIN + b
    }
}

/// One line of the final report: a client's balances, their sum, and the
/// frozen flag.
#[derive(Clone, Copy, Debug, PartialEq, Eq, Structural)]
pub struct ReportRow {
    pub client: ClientId,
    pub available: Amount,
    pub held: Amount,
    /// `available + held`.
    pub total: Amount,
    pub frozen: bool,
}

/// Every registered account's `available + held` fits the fixed-point range,
/// so a report can carry the totals.
pub open spec fn totals_in_range(s: EngineView) -> bool {
    forall|c: ClientId|
        s.accounts.contains_key(c) ==> in_range(
            (#[trigger] s.accounts[c]).available + s.accounts[c].held,
        )
}

/// The row reports the registered account of its client faithfully.
pub open spec fn row_matches(s: EngineView, row: ReportRow) -> bool {
    &&& s.accounts.contains_key(row.client)
    &&& row.available == s.accounts[row.client].available
    &&& row.held == s.accounts[row.client].held
    &&& row.total == s.accounts[row.client].available + s.accounts[row.client].held
    &&& row.frozen == s.accounts[row.client].frozen
}

/// Owns the account registry and the transaction history, and applies
/// records to them one at a time.
pub struct TransactionEngine {
    client_accounts: HashMap<ClientId, Account>,
    past_transactions: HashMap<TransactionId, Transaction>,
}

impl View for TransactionEngine {
    type V = EngineView;

    closed spec fn view(&self) -> EngineView {
        EngineView { accounts: self.client_accounts@, txs: self.past_transactions@ }
    }
}

impl TransactionEngine {
    /// An engine with no accounts and no history.
    pub fn new() -> (r: Self)
        ensures
            r@.accounts == Map::<ClientId, Account>::empty(),
            r@.txs == Map::<TransactionId, Transaction>::empty(),
    {
        TransactionEngine { client_accounts: HashMap::new(), past_transactions: HashMap::new() }
    }

    /// The registered account for `client`, or the fresh account its first
    /// record would create.
    fn get_or_default(&self, client: ClientId) -> (r: Account)
        ensures
            r == account_or_new(self@, client),
    {
        match self.client_accounts.get(&client) {
            Some(a) => *a,
            None => Account::default(),
        }
    }

    /// The registered account for `client`, if any.
    pub fn account(&self, client: ClientId) -> (r: Option<Account>)
        ensures
            r == if self@.accounts.contains_key(client) {
                Some(self@.accounts[client])
            } else {
                None::<Account>
            },
    {
        match self.client_accounts.get(&client) {
            Some(a) => Some(*a),
            None => None,
        }
    }

    /// The retained history entry for `tx`, if any.
    pub fn transaction(&self, tx: TransactionId) -> (r: Option<Transaction>)
        ensures
            r == if self@.txs.contains_key(tx) {
                Some(self@.txs[tx])
            } else {
                None::<Transaction>
            },
    {
        match self.past_transactions.get(&tx) {
            Some(t) => Some(*t),
            None => None,
        }
    }

    /// Whether the arithmetic `transaction` would perform stays within the
    /// fixed-point range, so that [`Self::process_transaction`] may be
    /// called. A record whose arithmetic would leave the range cannot be
    /// processed; callers decide how to fail on one.
    pub fn can_apply(&self, transaction: &Transaction) -> (r: bool)
        ensures
            r == arith_fits(self@, *transaction),
    {
        match transaction.type_ {
            Type::Deposit => {
                let amount = transaction.amount();
                if amount < 0 {
                    return true;
                }
                let acc = self.get_or_default(transaction.client);
                if acc.frozen {
                    true
                } else {
                    add_in_range(acc.available, amount)
                }
            }
            Type::Withdrawal => true,
            Type::Dispute => {
                match self.past_transactions.get(&transaction.tx) {
                    None => true,
                    Some(stored) => {
                        let stored: Transaction = *stored;
                        match self.client_accounts.get(&stored.client) {
                            None => true,
                            Some(acc) => {
                                let acc: Account = *acc;
                                if stored.disputed || stored.type_ != Type::Deposit || acc.frozen {
                                    true
                                } else {
                                    let amount = stored.amount();
                                    sub_in_range(acc.available, amount) && add_in_range(
                                        acc.held,
                                        amount,
                                    )
                                }
                            }
                        }
                    }
                }
            }
            Type::Resolve => {
                match self.past_transactions.get(&transaction.tx) {
                    None => true,
                    Some(stored) => {
                        let stored: Transaction = *stored;
                        match self.client_accounts.get(&stored.client) {
                            None => true,
                            Some(acc) => {
                                let acc: Account = *acc;
                                if !stored.disputed {
                                    true
                                } else {
                                    let amount = stored.amount();
                                    add_in_range(acc.available, amount) && sub_in_range(
                                        acc.held,
                                        amount,
                                    )
                                }
                            }
                        }
                    }
                }
            }
            Type::Chargeback => {
                match self.past_transactions.get(&transaction.tx) {
                    None => true,
                    Some(stored) => {
                        let stored: Transaction = *stored;
                        match self.client_accounts.get(&stored.client) {
                            None => true,
                            Some(acc) => {
                                let acc: Account = *acc;
                                if !stored.disputed {
                                    true
                                } else {
                                    let amount = stored.amount();
                                    sub_in_range(acc.held, amount)
                                }
                            }
                        }
                    }
                }
            }
        }
    }

    /// Routes a record to the handler for its kind; the state changes exactly
    /// as [`step`] says and the result is exactly what [`step`] says.
    pub fn process_transaction(&mut self, transaction: Transaction) -> (r: Result<(), Error>)
        requires
            arith_fits(old(self)@, transaction),
        ensures
            final(self)@ == step(old(self)@, transaction).0,
            r == step(old(self)@, transaction).1,
    {
        match transaction.type_ {
            Type::Deposit => self.process_deposit(transaction),
            Type::Withdrawal => self.process_withdrawal(transaction),
            Type::Dispute => self.process_dispute(transaction),
            Type::Resolve => self.process_resolve(transaction),
            Type::Chargeback => self.process_chargeback(transaction),
        }
    }

    /// Handles a deposit record.
    fn process_deposit(&mut self, transaction: Transaction) -> (r: Result<(), Error>)
        requires
            transaction.type_ is Deposit,
            deposit_fits(old(self)@, transaction),
        ensures
            final(self)@ == deposit_step(old(self)@, transaction).0,
            r == deposit_step(old(self)@, transaction).1,
    {
        let amount = transaction.amount();
        if amount < 0 {
            return Err(Error::InvalidAmount);
        }
        let mut acc = self.get_or_default(transaction.client);
        if acc.frozen {
            self.client_accounts.insert(transaction.client, acc);
            return Err(Error::AccountFrozen);
        }
        acc.increase_available(amount);
        self.client_accounts.insert(transaction.client, acc);
        self.past_transactions.insert(
            transaction.tx,
            Transaction { disputed: false, ..transaction },
        );
        Ok(())
    }

    /// Handles a withdrawal record.
    fn process_withdrawal(&mut self, transaction: Transaction) -> (r: Result<(), Error>)
        requires
            transaction.type_ is Withdrawal,
        ensures
            final(self)@ == withdrawal_step(old(self)@, transaction).0,
            r == withdrawal_step(old(self)@, transaction).1,
    {
        let amount = transaction.amount();
        if amount < 0 {
            return Err(Error::InvalidAmount);
        }
        let mut acc = self.get_or_default(transaction.client);
        if acc.frozen {
            self.client_accounts.insert(transaction.client, acc);
            return Err(Error::AccountFrozen);
        }
        match acc.withdraw(amount) {
            Ok(()) => {
                self.client_accounts.insert(transaction.client, acc);
                self.past_transactions.insert(
                    transaction.tx,
                    Transaction { disputed: false, ..transaction },
                );
                Ok(())
            }
            Err(e) => {
                self.client_accounts.insert(transaction.client, acc);
                Err(e)
            }
        }
    }

    /// Handles a dispute record.
    fn process_dispute(&mut self, transaction: Transaction) -> (r: Result<(), Error>)
        requires
            transaction.type_ is Dispute,
            dispute_fits(old(self)@, transaction),
        ensures
            final(self)@ == dispute_step(old(self)@, transaction).0,
            r == dispute_step(old(self)@, transaction).1,
    {
        let stored = match self.past_transactions.get(&transaction.tx) {
            Some(t) => *t,
            None => {
                return Err(Error::TransactionNotFound);
            }
        };
        let mut acc = match self.client_accounts.get(&stored.client) {
            Some(a) => *a,
            None => {
                return Err(Error::AccountNotFound);
            }
        };
        if stored.disputed || stored.type_ != Type::Deposit {
            return Err(Error::InvalidDispute);
        }
        if acc.frozen {
            return Err(Error::AccountFrozen);
        }
        let amount = stored.amount();
        acc.decrease_available(amount);
        acc.increase_held(amount);
        self.client_accounts.insert(stored.client, acc);
        self.past_transactions.insert(transaction.tx, Transaction { disputed: true, ..stored });
        Ok(())
    }

    /// Handles a resolve record.
    fn process_resolve(&mut self, transaction: Transaction) -> (r: Result<(), Error>)
        requires
            transaction.type_ is Resolve,
            resolve_fits(old(self)@, transaction),
        ensures
            final(self)@ == resolve_step(old(self)@, transaction).0,
            r == resolve_step(old(self)@, transaction).1,
    {
        let stored = match self.past_transactions.get(&transaction.tx) {
            Some(t) => *t,
            None => {
                return Err(Error::TransactionNotFound);
            }
        };
        let mut acc = match self.client_accounts.get(&stored.client) {
            Some(a) => *a,
            None => {
                return Err(Error::AccountNotFound);
            }
        };
        if !stored.disputed {
            return Err(Error::InvalidResolve);
        }
        let amount = stored.amount();
        acc.decrease_held(amount);
        acc.increase_available(amount);
        self.client_accounts.insert(stored.client, acc);
        self.past_transactions.remove(&transaction.tx);
        Ok(())
    }

    /// Handles a chargeback record.
    fn process_chargeback(&mut self, transaction: Transaction) -> (r: Result<(), Error>)
        requires
            transaction.type_ is Chargeback,
            chargeback_fits(old(self)@, transaction),
        ensures
            final(self)@ == chargeback_step(old(self)@, transaction).0,
            r == chargeback_step(old(self)@, transaction).1,
    {
        let stored = match self.past_transactions.get(&transaction.tx) {
            Some(t) => *t,
            None => {
                return Err(Error::TransactionNotFound);
            }
        };
        let mut acc = match self.client_accounts.get(&stored.client) {
            Some(a) => *a,
            None => {
                return Err(Error::AccountNotFound);
            }
        };
        if !stored.disputed {
            return Err(Error::InvalidChargeback);
        }
        let amount = stored.amount();
        acc.decrease_held(amount);
        acc.freeze();
        self.client_accounts.insert(stored.client, acc);
        self.past_transactions.remove(&transaction.tx);
        Ok(())
    }

    /// The final report: one row per registered client, in no particular
    /// order, each row carrying the client's balances, their sum and the
    /// frozen flag. Returns `None` exactly when some account's
    /// `available + held` leaves the fixed-point range and no total can be
    /// reported.
    pub fn report(&self) -> (r: Option<Vec<ReportRow>>)
        ensures
            r is Some <==> totals_in_range(self@),
            ({
                match r {
                    Some(rows) => {
                        &&& rows@.len() == self@.accounts.dom().len()
                        &&& forall|i: int|
                            0 <= i < rows@.len() ==> row_matches(self@, #[trigger] rows@[i])
                        &&& forall|c: ClientId|
                            self@.accounts.contains_key(c) ==> exists|i: int|
                                0 <= i < rows@.len() && (#[trigger] rows@[i]).client == c
                        &&& forall|i: int, j: int|
                            0 <= i < j < rows@.len() ==> rows@[i].client != rows@[j].client
                    },
                    None => true,
                }
            }),
    {
        let mut rows: Vec<ReportRow> = Vec::new();
        for kv in it: self.client_accounts.iter()
            invariant
                it.seq().no_duplicates(),
                it.seq().len() == self@.accounts.dom().len(),
                forall|i: int|
                    0 <= i < it.seq().len() ==> self@.accounts.contains_key(
                        *(#[trigger] it.seq()[i]).0,
                    ) && self@.accounts[*it.seq()[i].0] == *it.seq()[i].1,
                rows@.len() == it.index(),
                forall|i: int|
                    0 <= i < it.index() ==> row_matches(self@, #[trigger] rows@[i]),
                forall|i: int|
                    0 <= i < it.index() ==> (#[trigger] rows@[i]).client == *it.seq()[i].0,
                forall|i: int, j: int|
                    0 <= i < j < rows@.len() ==> rows@[i].client != rows@[j].client,
                forall|c: ClientId|
                    #[trigger] self@.accounts.contains_key(c) ==> (exists|i: int|
                        0 <= i < rows@.len() && (#[trigger] rows@[i]).client == c) || (exists|k: int|
                        it.index() <= k < it.seq().len() && *(#[trigger] it.seq()[k]).0 == c),
        {
            let (client, account) = kv;
            proof {
                let n = it.index();
                assert(0 <= n < it.seq().len());
                assert(kv == it.seq()[n]);
                assert(self@.accounts.contains_key(*client));
                assert(self@.accounts[*client] == *account);
            }
            if !add_in_range(account.available, account.held) {
                return None;
            }
            let ghost prev_rows = rows@;
            rows.push(
                ReportRow {
                    client: *client,
                    available: account.available,
                    held: account.held,
                    total: account.available + account.held,
                    frozen: account.frozen,
                },
            );
            proof {
                let n = it.index();
                assert(kv == it.seq()[n]);
                assert forall|i: int, j: int| 0 <= i < j < rows@.len() implies rows@[i].client
                    != rows@[j].client by {
                    if j == n && rows@[i].client == rows@[j].client {
                        assert(rows@[i].client == *it.seq()[i].0);
                        assert(self@.accounts[*it.seq()[i].0] == *it.seq()[i].1);
                        assert(self@.accounts[*it.seq()[n].0] == *it.seq()[n].1);
                        assert(it.seq()[i] == it.seq()[n]);
                    }
                }
                assert forall|c: ClientId| #[trigger]
                    self@.accounts.contains_key(c) implies (exists|i: int|
                    0 <= i < rows@.len() && (#[trigger] rows@[i]).client == c) || (exists|k: int|
                    n + 1 <= k < it.seq().len() && *(#[trigger] it.seq()[k]).0 == c) by {
                    if c == *it.seq()[n].0 {
                        assert(rows@[n].client == c);
                    } else if !(exists|i: int|
                        0 <= i < rows@.len() && (#[trigger] rows@[i]).client == c) {
                        assert(!(exists|i: int|
                            0 <= i < prev_rows.len() && (#[trigger] prev_rows[i]).client == c))
                            by {
                            if exists|i: int|
                                0 <= i < prev_rows.len() && (#[trigger] prev_rows[i]).client
                                    == c {
                                let i = choose|i: int|
                                    0 <= i < prev_rows.len() && (#[trigger] prev_rows[i]).client
                                        == c;
                                assert(rows@[i].client == c);
                            }
                        }
                        let k = choose|k: int|
                            n <= k < it.seq().len() && *(#[trigger] it.seq()[k]).0 == c;
                        assert(k != n);
                        assert(n + 1 <= k < it.seq().len() && *it.seq()[k].0 == c);
                    }
                }
            }
        }
        proof {
            assert(rows@.len() == self@.accounts.dom().len());
            assert forall|c: ClientId| self@.accounts.contains_key(c) implies exists|i: int|
                0 <= i < rows@.len() && (#[trigger] rows@[i]).client == c by {
                assert(self@.accounts.contains_key(c));
            }
        }
        Some(rows)
    }
}

} // verus!
