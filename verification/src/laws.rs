//! Laws of the transaction engine, stated over the step specification in
//! [`crate::transaction`] and proved once and for all. Since the engine is
//! proved to follow [`step`] exactly, each law holds of every run of the
//! executable engine as well.

use vstd::prelude::*;

use vstd::set::fold::{
    is_fun_commutative, lemma_finite_set_induct, lemma_fold_empty, lemma_fold_insert,
};

use crate::transaction::{
    account_or_new, arith_fits, in_range, step, ClientId, EngineView, Error, Transaction,
    TransactionId, Type,
};

verus! {

/// The state of a freshly created engine: no accounts, no history.
pub open spec fn empty_view() -> EngineView {
    EngineView { accounts: Map::empty(), txs: Map::empty() }
}

/// The state after applying the records of `ts`, in order, to `s`.
pub open spec fn run(s: EngineView, ts: Seq<Transaction>) -> EngineView
    decreases ts.len(),
{
    if ts.len() == 0 {
        s
    } else {
        run(step(s, ts[0]).0, ts.drop_first())
    }
}

/// The sum of the amounts of the records of `ts` addressed to client `c`.
pub open spec fn client_amount_sum(ts: Seq<Transaction>, c: ClientId) -> int
    decreases ts.len(),
{
    if ts.len() == 0 {
        0
    } else {
        (if ts[0].client == c {
            ts[0].amount_or_zero() as int
        } else {
            0
        }) + client_amount_sum(ts.drop_first(), c)
    }
}

proof fn lemma_client_amount_sum_nonneg(ts: Seq<Transaction>, c: ClientId)
    requires
        forall|i: int| 0 <= i < ts.len() ==> (#[trigger] ts[i]).amount_or_zero() >= 0,
    ensures
        client_amount_sum(ts, c) >= 0,
    decreases ts.len(),
{
    if ts.len() > 0 {
        lemma_client_amount_sum_nonneg(ts.drop_first(), c);
    }
}

proof fn lemma_deposits_only_from(s: EngineView, ts: Seq<Transaction>)
    requires
        forall|i: int|
            0 <= i < ts.len() ==> (#[trigger] ts[i]).type_ is Deposit && ts[i].amount_or_zero()
                >= 0,
        forall|c: ClientId|
            {
                let acc = #[trigger] account_or_new(s, c);
                acc.held == 0 && !acc.frozen && acc.available >= 0
            },
        forall|c: ClientId|
            account_or_new(s, c).available + #[trigger] client_amount_sum(ts, c) <= i128::MAX,
    ensures
        forall|c: ClientId|
            {
                let acc = #[trigger] account_or_new(run(s, ts), c);
                &&& acc.available == account_or_new(s, c).available + client_amount_sum(ts, c)
                &&& acc.held == 0
                &&& !acc.frozen
            },
    decreases ts.len(),
{
    if ts.len() > 0 {
        let t = ts[0];
        let rest = ts.drop_first();
        let acc0 = account_or_new(s, t.client);
        let amt = t.amount_or_zero();
        lemma_client_amount_sum_nonneg(rest, t.client);
        assert(acc0.available + amt <= i128::MAX) by {
            assert(client_amount_sum(ts, t.client) == amt + client_amount_sum(rest, t.client));
        }
        let s1 = step(s, t).0;
        assert forall|c: ClientId|
            {
                let acc = #[trigger] account_or_new(s1, c);
                acc.held == 0 && !acc.frozen && acc.available >= 0
            } by {
            if c != t.client {
                assert(account_or_new(s1, c) == account_or_new(s, c));
            }
        }
        assert forall|c: ClientId|
            account_or_new(s1, c).available + #[trigger] client_amount_sum(rest, c)
                <= i128::MAX by {
            assert(client_amount_sum(ts, c) == (if t.client == c {
                amt as int
            } else {
                0
            }) + client_amount_sum(rest, c));
            if c != t.client {
                assert(account_or_new(s1, c) == account_or_new(s, c));
            }
        }
        lemma_deposits_only_from(s1, rest);
        assert forall|c: ClientId|
            {
                let acc = #[trigger] account_or_new(run(s, ts), c);
                &&& acc.available == account_or_new(s, c).available + client_amount_sum(ts, c)
                &&& acc.held == 0
                &&& !acc.frozen
            } by {
            assert(run(s, ts) == run(s1, rest));
            assert(account_or_new(run(s1, rest), c).available == account_or_new(s1, c).available
                + client_amount_sum(rest, c));
            if c != t.client {
                assert(account_or_new(s1, c) == account_or_new(s, c));
            }
            assert(client_amount_sum(ts, c) == (if t.client == c {
                amt as int
            } else {
                0
            }) + client_amount_sum(rest, c));
        }
    }
}

/// Law: a run of deposit records only, each with a non-negative amount, whose
/// per-client totals fit the fixed-point range, leaves every client with
/// `available` equal to the sum of the amounts deposited for it, `held` zero,
/// and the account not frozen.
pub proof fn lemma_deposits_only(ts: Seq<Transaction>)
    requires
        forall|i: int|
            0 <= i < ts.len() ==> (#[trigger] ts[i]).type_ is Deposit && ts[i].amount_or_zero()
                >= 0,
        forall|c: ClientId| #[trigger] client_amount_sum(ts, c) <= i128::MAX,
    ensures
        forall|c: ClientId|
            {
                let acc = #[trigger] account_or_new(run(empty_view(), ts), c);
                &&& acc.available == client_amount_sum(ts, c)
                &&& acc.held == 0
                &&& !acc.frozen
            },
{
    lemma_deposits_only_from(empty_view(), ts);
}

/// Law: a withdrawal whose amount exceeds the current available balance
/// yields `InsufficientFunds` and changes no account's state and no history
/// entry.
pub proof fn lemma_withdrawal_insufficient(s: EngineView, t: Transaction)
    requires
        t.type_ is Withdrawal,
        t.amount_or_zero() >= 0,
        !account_or_new(s, t.client).frozen,
        account_or_new(s, t.client).available < t.amount_or_zero(),
    ensures
        step(s, t).1 == Err::<(), Error>(Error::InsufficientFunds),
        forall|c: ClientId| #[trigger] account_or_new(step(s, t).0, c) == account_or_new(s, c),
        step(s, t).0.txs == s.txs,
{
    assert forall|c: ClientId| #[trigger]
        account_or_new(step(s, t).0, c) == account_or_new(s, c) by {
        if c != t.client {
            assert(account_or_new(step(s, t).0, c) == account_or_new(s, c));
        }
    }
}

/// Law: a deposit carrying a negative amount yields `InvalidAmount` and
/// performs no mutation at all.
pub proof fn lemma_negative_deposit(s: EngineView, t: Transaction)
    requires
        t.type_ is Deposit,
        t.amount_or_zero() < 0,
    ensures
        step(s, t).0 == s,
        step(s, t).1 == Err::<(), Error>(Error::InvalidAmount),
{
}

/// Law: a dispute followed by a resolve of the same transaction both
/// succeed, restore `available` and `held` to their pre-dispute values
/// exactly, and delete the history entry; a second dispute between the two
/// is rejected as `InvalidDispute`, and after the resolve any dispute or
/// resolve of that id is rejected as `TransactionNotFound`.
pub proof fn lemma_dispute_resolve_round_trip(s: EngineView, d: Transaction, r: Transaction)
    requires
        d.type_ is Dispute,
        r.type_ is Resolve,
        d.tx == r.tx,
        s.txs.contains_key(d.tx),
        !s.txs[d.tx].disputed,
        s.txs[d.tx].type_ is Deposit,
        s.accounts.contains_key(s.txs[d.tx].client),
        !s.accounts[s.txs[d.tx].client].frozen,
        in_range(s.accounts[s.txs[d.tx].client].available - s.txs[d.tx].amount_or_zero()),
        in_range(s.accounts[s.txs[d.tx].client].held + s.txs[d.tx].amount_or_zero()),
    ensures
        ({
            let c = s.txs[d.tx].client;
            let s1 = step(s, d).0;
            let s2 = step(s1, r).0;
            &&& step(s, d).1 == Ok::<(), Error>(())
            &&& step(s1, r).1 == Ok::<(), Error>(())
            &&& s2.accounts.contains_key(c)
            &&& s2.accounts[c] == s.accounts[c]
            &&& s2.txs == s.txs.remove(d.tx)
            &&& step(s1, d).1 == Err::<(), Error>(Error::InvalidDispute)
            &&& step(s2, d).1 == Err::<(), Error>(Error::TransactionNotFound)
            &&& step(s2, r).1 == Err::<(), Error>(Error::TransactionNotFound)
        }),
{
    let c = s.txs[d.tx].client;
    let s1 = step(s, d).0;
    let s2 = step(s1, r).0;
    assert(s1.txs.insert(d.tx, s.txs[d.tx]).remove(d.tx) =~= s.txs.remove(d.tx));
    assert(s2.txs =~= s.txs.remove(d.tx));
    assert(s2.accounts[c] =~= s.accounts[c]);
}

/// Law: a dispute followed by a chargeback of the same transaction both
/// succeed; the chargeback takes the disputed amount out of `held` (leaving
/// `held` as it was before the dispute), leaves `available` down by the
/// disputed amount, freezes the account, and deletes the history entry.
pub proof fn lemma_dispute_chargeback(s: EngineView, d: Transaction, b: Transaction)
    requires
        d.type_ is Dispute,
        b.type_ is Chargeback,
        d.tx == b.tx,
        s.txs.contains_key(d.tx),
        !s.txs[d.tx].disputed,
        s.txs[d.tx].type_ is Deposit,
        s.accounts.contains_key(s.txs[d.tx].client),
        !s.accounts[s.txs[d.tx].client].frozen,
        in_range(s.accounts[s.txs[d.tx].client].available - s.txs[d.tx].amount_or_zero()),
        in_range(s.accounts[s.txs[d.tx].client].held + s.txs[d.tx].amount_or_zero()),
    ensures
        ({
            let c = s.txs[d.tx].client;
            let amt = s.txs[d.tx].amount_or_zero();
            let s1 = step(s, d).0;
            let s2 = step(s1, b).0;
            &&& step(s, d).1 == Ok::<(), Error>(())
            &&& step(s1, b).1 == Ok::<(), Error>(())
            &&& s2.accounts.contains_key(c)
            &&& s2.accounts[c].held == s1.accounts[c].held - amt
            &&& s2.accounts[c].held == s.accounts[c].held
            &&& s2.accounts[c].available == s.accounts[c].available - amt
            &&& s2.accounts[c].frozen
            &&& s2.txs == s.txs.remove(d.tx)
        }),
{
    let s1 = step(s, d).0;
    let s2 = step(s1, b).0;
    assert(s2.txs =~= s.txs.remove(d.tx));
}

/// Law: a deposit or withdrawal with a non-negative amount addressed to a
/// frozen account yields `AccountFrozen` and changes no account's state and
/// no history entry.
pub proof fn lemma_frozen_blocks_deposit_withdrawal(s: EngineView, t: Transaction)
    requires
        t.type_ is Deposit || t.type_ is Withdrawal,
        t.amount_or_zero() >= 0,
        s.accounts.contains_key(t.client),
        s.accounts[t.client].frozen,
    ensures
        step(s, t).1 == Err::<(), Error>(Error::AccountFrozen),
        forall|c: ClientId| #[trigger] account_or_new(step(s, t).0, c) == account_or_new(s, c),
        step(s, t).0.txs == s.txs,
{
    assert forall|c: ClientId| #[trigger]
        account_or_new(step(s, t).0, c) == account_or_new(s, c) by {
        if c != t.client {
            assert(account_or_new(step(s, t).0, c) == account_or_new(s, c));
        }
    }
}

/// Law: a dispute of an undisputed deposit entry whose recorded client's
/// account is frozen yields `AccountFrozen` and changes nothing.
pub proof fn lemma_frozen_blocks_dispute(s: EngineView, t: Transaction)
    requires
        t.type_ is Dispute,
        s.txs.contains_key(t.tx),
        !s.txs[t.tx].disputed,
        s.txs[t.tx].type_ is Deposit,
        s.accounts.contains_key(s.txs[t.tx].client),
        s.accounts[s.txs[t.tx].client].frozen,
    ensures
        step(s, t).0 == s,
        step(s, t).1 == Err::<(), Error>(Error::AccountFrozen),
{
}

/// Law: a resolve or chargeback of a currently disputed entry succeeds
/// whether or not the recorded client's account is frozen, provided its
/// arithmetic fits the fixed-point range.
pub proof fn lemma_frozen_allows_resolve_chargeback(s: EngineView, t: Transaction)
    requires
        t.type_ is Resolve || t.type_ is Chargeback,
        s.txs.contains_key(t.tx),
        s.txs[t.tx].disputed,
        s.accounts.contains_key(s.txs[t.tx].client),
        in_range(s.accounts[s.txs[t.tx].client].available + s.txs[t.tx].amount_or_zero()),
        in_range(s.accounts[s.txs[t.tx].client].held - s.txs[t.tx].amount_or_zero()),
    ensures
        step(s, t).1 == Ok::<(), Error>(()),
        step(s, t).0.txs == s.txs.remove(t.tx),
{
}

/// Law: a dispute, resolve or chargeback naming an unknown transaction id
/// yields `TransactionNotFound` and mutates nothing.
pub proof fn lemma_unknown_transaction(s: EngineView, t: Transaction)
    requires
        t.type_ is Dispute || t.type_ is Resolve || t.type_ is Chargeback,
        !s.txs.contains_key(t.tx),
    ensures
        step(s, t).0 == s,
        step(s, t).1 == Err::<(), Error>(Error::TransactionNotFound),
{
}

/// What history entry `t` contributes to the disputed total of client `c`.
pub open spec fn disputed_part(t: Transaction, c: ClientId) -> int {
    if t.disputed && t.client == c {
        t.amount_or_zero() as int
    } else {
        0
    }
}

/// The fold step that accumulates the disputed contributions for client `c`.
pub open spec fn disputed_fold_fn(c: ClientId) -> spec_fn(int, (TransactionId, Transaction)) -> int {
    |acc: int, kv: (TransactionId, Transaction)| acc + disputed_part(kv.1, c)
}

/// The total amount locked by the open disputes of client `c` in history
/// `txs`.
pub open spec fn disputed_total(txs: Map<TransactionId, Transaction>, c: ClientId) -> int {
    txs.kv_pairs().fold(0, disputed_fold_fn(c))
}

/// The engine keeps its books: history is finite, every retained entry
/// carries a non-negative amount, and every client's held balance covers the
/// total under dispute for that client. The balance and the total are equal
/// until a reused transaction id overwrites an entry still under dispute;
/// that overwrite loses the entry and leaves its amount in `held` for good,
/// so `held` can exceed the total but never falls below it.
pub open spec fn held_invariant(s: EngineView) -> bool {
    &&& s.txs.dom().finite()
    &&& forall|k: TransactionId|
        s.txs.contains_key(k) ==> (#[trigger] s.txs[k]).amount_or_zero() >= 0
    &&& forall|c: ClientId| account_or_new(s, c).held >= disputed_total(s.txs, c)
}

proof fn lemma_kv_pairs_finite(m: Map<TransactionId, Transaction>)
    requires
        m.dom().finite(),
    ensures
        m.kv_pairs().finite(),
{
    let f = |k: TransactionId| (k, m[k]);
    assert forall|kv: (TransactionId, Transaction)| m.kv_pairs().contains(kv) implies m.dom().map(
        f,
    ).contains(kv) by {
        assert(m.dom().contains(kv.0) && f(kv.0) == kv);
    }
    assert forall|kv: (TransactionId, Transaction)|
        m.dom().map(f).contains(kv) implies m.kv_pairs().contains(kv) by {
        let k = choose|k: TransactionId| m.dom().contains(k) && kv == f(k);
        assert(m.contains_pair(k, m[k]));
    }
    assert(m.kv_pairs() =~= m.dom().map(f));
    m.dom().lemma_map_finite(f);
}

proof fn lemma_fold_remove(
    s: Set<(TransactionId, Transaction)>,
    f: spec_fn(int, (TransactionId, Transaction)) -> int,
    a: (TransactionId, Transaction),
)
    requires
        s.finite(),
        s.contains(a),
        is_fun_commutative(f),
    ensures
        s.fold(0, f) == f(s.remove(a).fold(0, f), a),
{
    lemma_fold_insert(s.remove(a), 0int, f, a);
    assert(s.remove(a).insert(a) =~= s);
}

proof fn lemma_disputed_fold_fn_commutative(c: ClientId)
    ensures
        is_fun_commutative(disputed_fold_fn(c)),
{
}

/// Inserting an entry under a fresh id adds its contribution to the total.
proof fn lemma_disputed_total_insert_fresh(
    txs: Map<TransactionId, Transaction>,
    k: TransactionId,
    t: Transaction,
    c: ClientId,
)
    requires
        txs.dom().finite(),
        !txs.contains_key(k),
    ensures
        disputed_total(txs.insert(k, t), c) == disputed_total(txs, c) + disputed_part(t, c),
{
    lemma_kv_pairs_finite(txs);
    lemma_disputed_fold_fn_commutative(c);
    assert(txs.insert(k, t).kv_pairs() =~= txs.kv_pairs().insert((k, t)));
    lemma_fold_insert(txs.kv_pairs(), 0int, disputed_fold_fn(c), (k, t));
}

/// Removing an entry takes its contribution out of the total.
proof fn lemma_disputed_total_remove(
    txs: Map<TransactionId, Transaction>,
    k: TransactionId,
    c: ClientId,
)
    requires
        txs.dom().finite(),
        txs.contains_key(k),
    ensures
        disputed_total(txs.remove(k), c) == disputed_total(txs, c) - disputed_part(txs[k], c),
{
    lemma_kv_pairs_finite(txs);
    lemma_disputed_fold_fn_commutative(c);
    assert(txs.remove(k).kv_pairs() =~= txs.kv_pairs().remove((k, txs[k])));
    lemma_fold_remove(txs.kv_pairs(), disputed_fold_fn(c), (k, txs[k]));
}

/// Overwriting the entry under an existing id swaps the old contribution for
/// the new one.
proof fn lemma_disputed_total_overwrite(
    txs: Map<TransactionId, Transaction>,
    k: TransactionId,
    t: Transaction,
    c: ClientId,
)
    requires
        txs.dom().finite(),
        txs.contains_key(k),
    ensures
        disputed_total(txs.insert(k, t), c) == disputed_total(txs, c) - disputed_part(txs[k], c)
            + disputed_part(t, c),
{
    lemma_disputed_total_remove(txs, k, c);
    lemma_disputed_total_insert_fresh(txs.remove(k), k, t, c);
    assert(txs.remove(k).insert(k, t) =~= txs.insert(k, t));
}

/// A history of non-negative amounts has a non-negative disputed total.
proof fn lemma_disputed_total_nonneg(txs: Map<TransactionId, Transaction>, c: ClientId)
    requires
        txs.dom().finite(),
        forall|k: TransactionId|
            txs.contains_key(k) ==> (#[trigger] txs[k]).amount_or_zero() >= 0,
    ensures
        disputed_total(txs, c) >= 0,
{
    lemma_kv_pairs_finite(txs);
    lemma_disputed_fold_fn_commutative(c);
    let f = disputed_fold_fn(c);
    let pred = |s: Set<(TransactionId, Transaction)>|
        (forall|kv: (TransactionId, Transaction)|
            #[trigger] s.contains(kv) ==> disputed_part(kv.1, c) >= 0) ==> s.fold(0, f) >= 0;
    assert(pred(Set::empty())) by {
        lemma_fold_empty(0int, f);
    }
    assert forall|s: Set<(TransactionId, Transaction)>, a: (TransactionId, Transaction)|
        pred(s) && s.finite() && !s.contains(a) implies #[trigger] pred(s.insert(a)) by {
        if forall|kv: (TransactionId, Transaction)|
            #[trigger] s.insert(a).contains(kv) ==> disputed_part(kv.1, c) >= 0 {
            assert forall|kv: (TransactionId, Transaction)| s.contains(kv) implies disputed_part(
                kv.1,
                c,
            ) >= 0 by {
                assert(s.insert(a).contains(kv));
            }
            lemma_fold_insert(s, 0int, f, a);
            assert(disputed_part(a.1, c) >= 0) by {
                assert(s.insert(a).contains(a));
            }
        }
    }
    lemma_finite_set_induct(txs.kv_pairs(), pred);
    assert forall|kv: (TransactionId, Transaction)|
        txs.kv_pairs().contains(kv) implies disputed_part(kv.1, c) >= 0 by {
        assert(txs.contains_key(kv.0) && txs[kv.0] == kv.1);
    }
}

/// Law: a freshly created engine keeps its books.
pub proof fn lemma_empty_held_invariant()
    ensures
        held_invariant(empty_view()),
{
    assert forall|c: ClientId| account_or_new(empty_view(), c).held >= disputed_total(
        empty_view().txs,
        c,
    ) by {
        assert(empty_view().txs.kv_pairs() =~= Set::<(TransactionId, Transaction)>::empty());
        lemma_fold_empty(0int, disputed_fold_fn(c));
    }
}

/// Law: in a state that keeps its books, no client's held balance is
/// negative.
pub proof fn lemma_held_nonneg(s: EngineView, c: ClientId)
    requires
        held_invariant(s),
    ensures
        account_or_new(s, c).held >= 0,
{
    lemma_disputed_total_nonneg(s.txs, c);
}


/// Law: a record applied in a state that keeps its books, with arithmetic
/// that fits the fixed-point range, leads to a state that keeps its books.
/// Together with [`lemma_empty_held_invariant`] this makes
/// [`held_invariant`] an invariant of every engine run, and by
/// [`lemma_held_nonneg`] no reachable state has a negative held balance.
pub proof fn lemma_step_preserves_held_invariant(s: EngineView, t: Transaction)
    requires
        held_invariant(s),
        arith_fits(s, t),
    ensures
        held_invariant(step(s, t).0),
{
    let s2 = step(s, t).0;
    match t.type_ {
        Type::Deposit | Type::Withdrawal => {
            let amt = t.amount_or_zero();
            let acc = account_or_new(s, t.client);
            assert forall|c: ClientId|
                account_or_new(s2, c).held == account_or_new(s, c).held by {
                if c != t.client {
                    assert(account_or_new(s2, c) == account_or_new(s, c));
                }
            }
            if amt >= 0 && !acc.frozen && (t.type_ is Deposit || acc.available >= amt) {
                let e = Transaction { disputed: false, ..t };
                assert(s2.txs == s.txs.insert(t.tx, e));
                assert forall|c: ClientId|
                    account_or_new(s2, c).held >= disputed_total(s2.txs, c) by {
                    if s.txs.contains_key(t.tx) {
                        lemma_disputed_total_overwrite(s.txs, t.tx, e, c);
                        assert(disputed_part(s.txs[t.tx], c) >= 0);
                    } else {
                        lemma_disputed_total_insert_fresh(s.txs, t.tx, e, c);
                    }
                    assert(disputed_part(e, c) == 0);
                }
            } else {
                assert(s2.txs == s.txs);
            }
        }
        Type::Dispute => {
            if s.txs.contains_key(t.tx) {
                let st = s.txs[t.tx];
                if s.accounts.contains_key(st.client) && !st.disputed && st.type_ is Deposit
                    && !s.accounts[st.client].frozen {
                    let amt = st.amount_or_zero();
                    let e = Transaction { disputed: true, ..st };
                    assert forall|c: ClientId|
                        account_or_new(s2, c).held >= disputed_total(s2.txs, c) by {
                        lemma_disputed_total_overwrite(s.txs, t.tx, e, c);
                        assert(disputed_part(st, c) == 0);
                        if c != st.client {
                            assert(disputed_part(e, c) == 0);
                            assert(account_or_new(s2, c) == account_or_new(s, c));
                        } else {
                            assert(disputed_part(e, c) == amt);
                        }
                    }
                }
            }
        }
        Type::Resolve | Type::Chargeback => {
            if s.txs.contains_key(t.tx) {
                let st = s.txs[t.tx];
                if s.accounts.contains_key(st.client) && st.disputed {
                    let amt = st.amount_or_zero();
                    assert forall|c: ClientId|
                        account_or_new(s2, c).held >= disputed_total(s2.txs, c) by {
                        lemma_disputed_total_remove(s.txs, t.tx, c);
                        if c != st.client {
                            assert(disputed_part(st, c) == 0);
                            assert(account_or_new(s2, c) == account_or_new(s, c));
                        } else {
                            assert(disputed_part(st, c) == amt);
                        }
                    }
                }
            }
        }
    }
}


/// The arithmetic of every record of `ts`, applied in order from `s`, stays
/// within the fixed-point range.
pub open spec fn run_fits(s: EngineView, ts: Seq<Transaction>) -> bool
    decreases ts.len(),
{
    ts.len() == 0 || (arith_fits(s, ts[0]) && run_fits(step(s, ts[0]).0, ts.drop_first()))
}

/// Law: a whole run whose arithmetic fits, started in a state that keeps its
/// books, ends in a state that keeps its books. With
/// [`lemma_empty_held_invariant`] for the start and [`lemma_held_nonneg`]
/// for the conclusion, every state an engine reaches from scratch has every
/// held balance covering its client's disputed total, and none negative.
pub proof fn lemma_run_preserves_held_invariant(s: EngineView, ts: Seq<Transaction>)
    requires
        held_invariant(s),
        run_fits(s, ts),
    ensures
        held_invariant(run(s, ts)),
    decreases ts.len(),
{
    if ts.len() > 0 {
        lemma_step_preserves_held_invariant(s, ts[0]);
        lemma_run_preserves_held_invariant(step(s, ts[0]).0, ts.drop_first());
    }
}

} // verus!
