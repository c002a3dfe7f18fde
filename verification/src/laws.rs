use vstd::prelude::*;

use crate::account::{
    lemma_push_entry_wf, lemma_update_entry_wf, lemma_wf_bounds, spec_apply, AccountView,
};
use crate::errors::TxError;
use crate::ledger::{
    entry_ok, first_match, lemma_first_match, lemma_first_match_push, lemma_first_match_update,
    lemma_sum_push, lemma_sum_update, money_of, spec_find, spec_is_chargedback, spec_is_disputed,
};
use crate::manager::{client_index, empty_account, lemma_client_index, spec_store_apply, spec_store_apply_all, store_ok};
use crate::transaction::{ClientTransaction, MoneyTransaction, Transaction, TransactionState};

verus! {

/// The amount of the money transaction a dispute, resolve or chargeback
/// references, or zero when the id is unknown or the entry is not money.
pub open spec fn referenced_amount(s: Seq<(u32, Transaction)>, tx_id: u32) -> int {
    match spec_find(s, tx_id) {
        Some(t0) => match money_of(t0) {
            Some(m) => m.amount as int,
            None => 0,
        },
        None => 0,
    }
}

/// Applying any well-formed transaction preserves the account invariant.
pub proof fn lemma_apply_preserves_wf(a: AccountView, t: Transaction)
    requires
        a.wf(),
        t.well_formed(),
    ensures
        spec_apply(a, t).0.wf(),
{
    if a.locked && !(t is Chargeback) {
        return ;
    }
    match t {
        Transaction::Deposit(m) => {
            if !crate::ledger::spec_contains(a.ledger, m.id.tx) {
                let e = (m.id.tx, Transaction::Deposit(m));
                lemma_sum_push(a.ledger, e, TransactionState::Normal);
                lemma_sum_push(a.ledger, e, TransactionState::Disputed);
                lemma_sum_push(a.ledger, e, TransactionState::Chargedback);
                lemma_push_entry_wf(a.ledger, e);
            }
        },
        Transaction::Withdrawal(m) => {
            if !crate::ledger::spec_contains(a.ledger, m.id.tx) && a.available >= m.amount {
                lemma_wf_bounds(a);
                let e = (m.id.tx, Transaction::Withdrawal(m));
                lemma_sum_push(a.ledger, e, TransactionState::Normal);
                lemma_sum_push(a.ledger, e, TransactionState::Disputed);
                lemma_sum_push(a.ledger, e, TransactionState::Chargedback);
                lemma_push_entry_wf(a.ledger, e);
            }
        },
        Transaction::Dispute(id) => {
            lemma_mark_preserves_wf(a, id.tx);
        },
        Transaction::Resolve(id) => {
            lemma_mark_preserves_wf(a, id.tx);
        },
        Transaction::Chargeback(id) => {
            lemma_mark_preserves_wf(a, id.tx);
        },
    }
}

/// The shared step of dispute, resolve and chargeback: rewriting the
/// referenced entry's state and moving its amount keeps the invariant.
/// Dispute and resolve gate the balance move on the lock, so their claim
/// holds for the unlocked accounts on which `spec_apply` reaches them;
/// chargeback's balance move is unconditional and so is its claim.
proof fn lemma_mark_preserves_wf(a: AccountView, tx_id: u32)
    requires
        a.wf(),
    ensures
        !a.locked ==> crate::account::spec_apply_dispute(a, tx_id).0.wf(),
        !a.locked ==> crate::account::spec_apply_resolve(a, tx_id).0.wf(),
        crate::account::spec_apply_chargeback(a, tx_id).0.wf(),
{
    let s = a.ledger;
    let fm = first_match(s, tx_id);
    lemma_first_match(s, tx_id);
    if fm >= 0 {
        assert(entry_ok(s[fm]));
        if money_of(spec_find(s, tx_id)->0) is Some {
            mark_wf_one(a, tx_id, TransactionState::Disputed);
            mark_wf_one(a, tx_id, TransactionState::Normal);
            mark_wf_one(a, tx_id, TransactionState::Chargedback);
        }
    }
}

/// Sum bookkeeping for one rewritten state.
proof fn mark_wf_one(a: AccountView, tx_id: u32, st: TransactionState)
    requires
        a.wf(),
        first_match(a.ledger, tx_id) >= 0,
        money_of(spec_find(a.ledger, tx_id)->0) is Some,
    ensures
        st is Disputed && !a.locked ==> crate::account::spec_apply_dispute(a, tx_id).0.wf(),
        st is Normal && !a.locked ==> crate::account::spec_apply_resolve(a, tx_id).0.wf(),
        st is Chargedback ==> crate::account::spec_apply_chargeback(a, tx_id).0.wf(),
{
    let s = a.ledger;
    let fm = first_match(s, tx_id);
    lemma_first_match(s, tx_id);
    assert(entry_ok(s[fm]));
    let t0 = spec_find(s, tx_id)->0;
    let m = money_of(t0)->0;
    let m2 = MoneyTransaction { state: st, ..m };
    let stored = if t0 is Deposit {
        Transaction::Deposit(m2)
    } else {
        Transaction::Withdrawal(m2)
    };
    let e = (tx_id, stored);
    lemma_sum_update(s, fm, e, TransactionState::Normal);
    lemma_sum_update(s, fm, e, TransactionState::Disputed);
    lemma_sum_update(s, fm, e, TransactionState::Chargedback);
    lemma_update_entry_wf(s, fm, e);
}

// ---------------------------------------------------------------------------
// The stated laws.
// ---------------------------------------------------------------------------

/// At every observation point the balances of a well-formed account split as
/// `total == available + held` with nothing negative held, and the account
/// stays well-formed through any well-formed transaction.
pub proof fn lemma_balance_invariant(a: AccountView, t: Transaction)
    requires
        a.wf(),
        t.well_formed(),
    ensures
        a.total == a.available + a.held,
        a.held >= 0,
        spec_apply(a, t).0.wf(),
{
    lemma_wf_bounds(a);
    lemma_apply_preserves_wf(a, t);
}

/// The available balance never goes negative either, except through a
/// dispute whose referenced amount exceeds it.
pub proof fn lemma_available_nonnegative(a: AccountView, t: Transaction)
    requires
        a.wf(),
        t.well_formed(),
        a.available >= 0,
        t is Dispute ==> referenced_amount(a.ledger, t.spec_transaction_id()) <= a.available,
    ensures
        spec_apply(a, t).0.available >= 0,
{
    if !(a.locked && !(t is Chargeback)) {
        match t {
            Transaction::Resolve(id) => {
                let fm = first_match(a.ledger, id.tx);
                if spec_is_disputed(a.ledger, id.tx) {
                    lemma_first_match(a.ledger, id.tx);
                    assert(entry_ok(a.ledger[fm]));
                }
            },
            _ => {},
        }
    }
}

/// Two money transactions carrying the same id: once the first is accepted,
/// the second is rejected with `DuplicateTransactionId` and changes nothing,
/// whatever mix of deposit and withdrawal the two are.
pub proof fn lemma_duplicate_id_rejected(a: AccountView, t1: Transaction, t2: Transaction)
    requires
        a.wf(),
        t1 is Deposit || t1 is Withdrawal,
        t2 is Deposit || t2 is Withdrawal,
        t1.spec_transaction_id() == t2.spec_transaction_id(),
        spec_apply(a, t1).1 is Ok,
    ensures
        spec_apply(spec_apply(a, t1).0, t2) == (
            spec_apply(a, t1).0,
            Err::<(), TxError>(TxError::DuplicateTransactionId(t2.spec_transaction_id())),
        ),
{
    let tx_id = t1.spec_transaction_id();
    let a1 = spec_apply(a, t1).0;
    let e = match t1 {
        Transaction::Deposit(m) => (m.id.tx, Transaction::Deposit(m)),
        Transaction::Withdrawal(m) => (m.id.tx, Transaction::Withdrawal(m)),
        _ => (0u32, t1),
    };
    lemma_first_match_push(a.ledger, e, tx_id);
    assert(crate::ledger::spec_contains(a1.ledger, tx_id));
}

/// For any ledger and transaction id, disputed and charged back are never
/// true together.
pub proof fn lemma_dispute_exclusive(s: Seq<(u32, Transaction)>, tx_id: u32)
    ensures
        !(spec_is_disputed(s, tx_id) && spec_is_chargedback(s, tx_id)),
{
}

/// Dispute, then resolve, then dispute again is a legal cycle on an unlocked
/// account: each step is accepted, and the resolve restores the account,
/// ledger and balances, exactly to its state before the dispute.
pub proof fn lemma_dispute_resolve_cycle(a: AccountView, c: ClientTransaction)
    requires
        a.wf(),
        !a.locked,
        spec_find(a.ledger, c.tx) is Some,
        money_of(spec_find(a.ledger, c.tx)->0) is Some,
        money_of(spec_find(a.ledger, c.tx)->0)->0.state is Normal,
    ensures
        spec_apply(a, Transaction::Dispute(c)).1 is Ok,
        spec_apply(spec_apply(a, Transaction::Dispute(c)).0, Transaction::Resolve(c)).1 is Ok,
        spec_apply(spec_apply(a, Transaction::Dispute(c)).0, Transaction::Resolve(c)).0 == a,
        spec_apply(a, Transaction::Resolve(c)).1 is Err,
{
    let s = a.ledger;
    let fm = first_match(s, c.tx);
    lemma_first_match(s, c.tx);
    let t0 = spec_find(s, c.tx)->0;
    let m = money_of(t0)->0;
    let m2 = MoneyTransaction { state: TransactionState::Disputed, ..m };
    let stored = if t0 is Deposit {
        Transaction::Deposit(m2)
    } else {
        Transaction::Withdrawal(m2)
    };
    let a1 = spec_apply(a, Transaction::Dispute(c)).0;
    assert(a1.ledger == s.update(fm, (c.tx, stored)));
    lemma_first_match_update(s, fm, (c.tx, stored), c.tx);
    assert(first_match(a1.ledger, c.tx) == fm);
    assert(spec_is_disputed(a1.ledger, c.tx));
    let a2 = spec_apply(a1, Transaction::Resolve(c)).0;
    let m3 = MoneyTransaction { state: TransactionState::Normal, ..m2 };
    assert(m3 == m);
    assert(a2.ledger =~= s) by {
        assert(s[fm] == (c.tx, t0));
    }
    assert(a2 =~= a);
}

/// Once an account is locked, every non-chargeback transaction fails with
/// `AccountLocked` and changes nothing, while a chargeback of a disputed
/// transaction still succeeds and still moves held, total, the entry's
/// state and nothing else.
pub proof fn lemma_lock_semantics(a: AccountView, t: Transaction)
    requires
        a.wf(),
        a.locked,
    ensures
        !(t is Chargeback) ==> spec_apply(a, t) == (a, Err::<(), TxError>(TxError::AccountLocked)),
        t is Chargeback && spec_is_disputed(a.ledger, t.spec_transaction_id()) ==> ({
            let tx_id = t.spec_transaction_id();
            let m = money_of(spec_find(a.ledger, tx_id)->0)->0;
            let a1 = spec_apply(a, t).0;
            &&& spec_apply(a, t).1 is Ok
            &&& a1.available == a.available
            &&& a1.held == a.held - m.amount
            &&& a1.total == a.total - m.amount
            &&& a1.locked
            &&& spec_is_chargedback(a1.ledger, tx_id)
            &&& a1.wf()
        }),
{
    if t is Chargeback && spec_is_disputed(a.ledger, t.spec_transaction_id()) {
        let tx_id = t.spec_transaction_id();
        let s = a.ledger;
        let fm = first_match(s, tx_id);
        lemma_first_match(s, tx_id);
        let t0 = spec_find(s, tx_id)->0;
        let m = money_of(t0)->0;
        let m2 = MoneyTransaction { state: TransactionState::Chargedback, ..m };
        let stored = if t0 is Deposit {
            Transaction::Deposit(m2)
        } else {
            Transaction::Withdrawal(m2)
        };
        lemma_first_match_update(s, fm, (tx_id, stored), tx_id);
        mark_wf_one(a, tx_id, TransactionState::Chargedback);
    }
}

/// A withdrawal asking for more than the available balance fails with
/// `InsufficientFunds` and leaves every balance and the ledger unchanged.
pub proof fn lemma_insufficient_funds(a: AccountView, m: MoneyTransaction)
    requires
        a.wf(),
        !a.locked,
        !crate::ledger::spec_contains(a.ledger, m.id.tx),
        a.available < m.amount,
    ensures
        spec_apply(a, Transaction::Withdrawal(m)) == (
            a,
            Err::<(), TxError>(TxError::InsufficientFunds),
        ),
{
}

/// The store invariant survives every step: after routing any well-formed
/// transaction, each account in the store is still well-formed and each
/// client still owns at most one account.
pub proof fn lemma_store_invariant(s: Seq<AccountView>, t: Transaction)
    requires
        store_ok(s),
        t.well_formed(),
    ensures
        store_ok(spec_store_apply(s, t).0),
{
    let c = t.spec_client_id();
    let i = client_index(s, c);
    lemma_client_index(s, c);
    if i >= 0 {
        assert(s[i].wf());
        lemma_apply_preserves_wf(s[i], t);
        let s2 = s.update(i, spec_apply(s[i], t).0);
        assert(spec_apply(s[i], t).0.client == s[i].client);
        assert forall|k: int| 0 <= k < s2.len() implies (#[trigger] s2[k]).wf() by {
            if k != i {
                assert(s[k].wf());
            }
        }
        assert forall|k: int, j: int| 0 <= k < j < s2.len() implies s2[k].client != s2[j].client by {
            assert(s[k].client != s[j].client);
        }
    } else {
        let fresh = empty_account(c);
        assert(fresh.wf());
        lemma_apply_preserves_wf(fresh, t);
        let s2 = s.push(spec_apply(fresh, t).0);
        assert(spec_apply(fresh, t).0.client == c);
        assert forall|k: int| 0 <= k < s2.len() implies (#[trigger] s2[k]).wf() by {
            if k < s.len() {
                assert(s[k].wf());
            }
        }
        assert forall|k: int, j: int| 0 <= k < j < s2.len() implies s2[k].client != s2[j].client by {
            if j == s.len() {
                assert(s[k].client != c);
            } else {
                assert(s[k].client != s[j].client);
            }
        }
    }
}

/// Stopping a stream after its first `k + 1` transactions leaves the store
/// exactly one whole application beyond the state after `k`: a cancelled
/// run is the fold of precisely the transactions that were fully applied,
/// with no partial effect of any later one.
pub proof fn lemma_cancelled_prefix(s: Seq<AccountView>, ts: Seq<Transaction>, k: int)
    requires
        0 <= k < ts.len(),
    ensures
        spec_store_apply_all(s, ts.take(k + 1)) == spec_store_apply(
            spec_store_apply_all(s, ts.take(k)),
            ts[k],
        ).0,
{
    assert(ts.take(k + 1).drop_last() =~= ts.take(k));
    assert(ts.take(k + 1).last() == ts[k]);
}

} // verus!
