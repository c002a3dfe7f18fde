use vstd::prelude::*;

use crate::errors::TxError;
use crate::ledger::{
    entries_ok, entry_ok, first_match, ids_unique, lemma_first_match, lemma_sum_bounds,
    lemma_sum_push, lemma_sum_update, lemma_unique_len, money_of, spec_contains, spec_find,
    spec_is_chargedback, spec_is_disputed, sum_in_state, Ledger,
};
use crate::transaction::{MoneyTransaction, Transaction, TransactionState};

verus! {

// ---------------------------------------------------------------------------
// The account model.
// ---------------------------------------------------------------------------

/// The mathematical state of an account: the ledger entries in insertion
/// order and the balances as unbounded integers.
#[verifier::ext_equal]
pub ghost struct AccountView {
    pub client: u16,
    pub ledger: Seq<(u32, Transaction)>,
    pub available: int,
    pub held: int,
    pub total: int,
    pub locked: bool,
}

/// The largest value any single state sum can reach: at most `u32::MAX + 1`
/// distinct transaction ids, each with an amount of at most `i64::MAX`.
pub open spec fn ledger_cap() -> int {
    0x1_0000_0000 * (i64::MAX as int)
}

impl AccountView {
    /// The account invariant.
    ///
    /// Held funds are exactly the sum of the currently disputed amounts, the
    /// total splits into available plus held, and the available balance is
    /// bracketed by the state sums, which also bounds every balance by the
    /// ledger's capacity. Ledger entries are well-formed money transactions
    /// with distinct ids.
    pub open spec fn wf(self) -> bool {
        &&& self.total == self.available + self.held
        &&& self.held == sum_in_state(self.ledger, TransactionState::Disputed)
        &&& self.available <= sum_in_state(self.ledger, TransactionState::Normal) + sum_in_state(
            self.ledger,
            TransactionState::Chargedback,
        )
        &&& -(sum_in_state(self.ledger, TransactionState::Disputed) + sum_in_state(
            self.ledger,
            TransactionState::Chargedback,
        )) <= self.available
        &&& entries_ok(self.ledger)
        &&& ids_unique(self.ledger)
    }
}

/// Numeric room that the invariant gives: every state sum lies between zero
/// and the ledger capacity, so all balances stay far inside `i128`.
pub proof fn lemma_wf_bounds(a: AccountView)
    requires
        a.wf(),
    ensures
        0 <= sum_in_state(a.ledger, TransactionState::Normal) <= ledger_cap(),
        0 <= sum_in_state(a.ledger, TransactionState::Disputed) <= ledger_cap(),
        0 <= sum_in_state(a.ledger, TransactionState::Chargedback) <= ledger_cap(),
        0 <= a.held <= ledger_cap(),
        -2 * ledger_cap() <= a.available <= 2 * ledger_cap(),
        -2 * ledger_cap() <= a.total <= 3 * ledger_cap(),
{
    lemma_unique_len(a.ledger);
    lemma_sum_bounds(a.ledger, TransactionState::Normal);
    lemma_sum_bounds(a.ledger, TransactionState::Disputed);
    lemma_sum_bounds(a.ledger, TransactionState::Chargedback);
    assert(a.ledger.len() * (i64::MAX as int) <= ledger_cap()) by (nonlinear_arith)
        requires
            a.ledger.len() <= 0x1_0000_0000,
    ;
}

/// Appending an entry with a fresh id keeps the ledger well-formed.
pub(crate) proof fn lemma_push_entry_wf(s: Seq<(u32, Transaction)>, e: (u32, Transaction))
    requires
        entries_ok(s),
        ids_unique(s),
        entry_ok(e),
        !spec_contains(s, e.0),
    ensures
        entries_ok(s.push(e)),
        ids_unique(s.push(e)),
{
    lemma_first_match(s, e.0);
    let t = s.push(e);
    assert forall|i: int| 0 <= i < t.len() implies #[trigger] entry_ok(t[i]) by {
        if i < s.len() {
            assert(entry_ok(s[i]));
        }
    }
    assert forall|i: int, j: int| 0 <= i < j < t.len() implies t[i].0 != t[j].0 by {
        if j == s.len() {
            assert(s[i].0 != e.0);
        }
    }
}

/// Overwriting an entry in place, under its own id, keeps the ledger
/// well-formed.
pub(crate) proof fn lemma_update_entry_wf(s: Seq<(u32, Transaction)>, i: int, e: (u32, Transaction))
    requires
        entries_ok(s),
        ids_unique(s),
        0 <= i < s.len(),
        entry_ok(e),
        e.0 == s[i].0,
    ensures
        entries_ok(s.update(i, e)),
        ids_unique(s.update(i, e)),
{
    let t = s.update(i, e);
    assert forall|k: int| 0 <= k < t.len() implies #[trigger] entry_ok(t[k]) by {
        if k != i {
            assert(entry_ok(s[k]));
        }
    }
}

// ---------------------------------------------------------------------------
// The transaction-application state machine, as a specification.
// ---------------------------------------------------------------------------

/// Applying a deposit: reject a duplicate id, otherwise credit the balances
/// (skipped on a locked account) and record the entry.
pub open spec fn spec_apply_deposit(a: AccountView, m: MoneyTransaction) -> (AccountView, Result<
    (),
    TxError,
>) {
    if spec_contains(a.ledger, m.id.tx) {
        (a, Err(TxError::DuplicateTransactionId(m.id.tx)))
    } else {
        let credited = if a.locked {
            a
        } else {
            AccountView { available: a.available + m.amount, total: a.total + m.amount, ..a }
        };
        (
            AccountView {
                ledger: credited.ledger.push((m.id.tx, Transaction::Deposit(m))),
                ..credited
            },
            Ok(()),
        )
    }
}

/// Applying a withdrawal: reject a duplicate id or a locked account, require
/// sufficient available funds, then debit and record the entry.
pub open spec fn spec_apply_withdrawal(a: AccountView, m: MoneyTransaction) -> (AccountView, Result<
    (),
    TxError,
>) {
    if spec_contains(a.ledger, m.id.tx) {
        (a, Err(TxError::DuplicateTransactionId(m.id.tx)))
    } else if a.locked {
        (a, Err(TxError::AccountLocked))
    } else if a.available >= m.amount {
        let debited = AccountView {
            available: a.available - m.amount,
            total: a.total - m.amount,
            ..a
        };
        (
            AccountView {
                ledger: debited.ledger.push((m.id.tx, Transaction::Withdrawal(m))),
                ..debited
            },
            Ok(()),
        )
    } else {
        (a, Err(TxError::InsufficientFunds))
    }
}

/// The referenced entry rewritten with a new dispute state, at its place in
/// the ledger.
pub open spec fn ledger_with_state(
    s: Seq<(u32, Transaction)>,
    tx_id: u32,
    st: TransactionState,
) -> Seq<(u32, Transaction)> {
    let t0 = spec_find(s, tx_id)->0;
    let m2 = MoneyTransaction { state: st, ..money_of(t0)->0 };
    let stored = if t0 is Deposit {
        Transaction::Deposit(m2)
    } else {
        Transaction::Withdrawal(m2)
    };
    s.update(first_match(s, tx_id), (tx_id, stored))
}

/// Applying a dispute: the referenced transaction must exist and be neither
/// disputed nor charged back; it is marked disputed and its amount moves
/// from available to held (no balance move on a locked account).
pub open spec fn spec_apply_dispute(a: AccountView, tx_id: u32) -> (AccountView, Result<
    (),
    TxError,
>) {
    if spec_is_disputed(a.ledger, tx_id) {
        (a, Err(TxError::AlreadyDisputed))
    } else if spec_is_chargedback(a.ledger, tx_id) {
        (a, Err(TxError::AlreadyChargedback))
    } else {
        match spec_find(a.ledger, tx_id) {
            None => (a, Err(TxError::TransactionNotFound)),
            Some(t0) => match money_of(t0) {
                None => (a, Err(TxError::TransactionNotFound)),
                Some(m) => {
                    let l2 = ledger_with_state(a.ledger, tx_id, TransactionState::Disputed);
                    let moved = if a.locked {
                        AccountView { ledger: l2, ..a }
                    } else {
                        AccountView {
                            ledger: l2,
                            available: a.available - m.amount,
                            held: a.held + m.amount,
                            ..a
                        }
                    };
                    (moved, Ok(()))
                },
            },
        }
    }
}

/// Applying a resolve: the referenced transaction must be disputed; it
/// returns to normal and its amount moves from held back to available
/// (no balance move on a locked account).
pub open spec fn spec_apply_resolve(a: AccountView, tx_id: u32) -> (AccountView, Result<
    (),
    TxError,
>) {
    if !spec_is_disputed(a.ledger, tx_id) {
        (a, Err(TxError::NotDisputed))
    } else {
        match spec_find(a.ledger, tx_id) {
            None => (a, Err(TxError::TransactionNotFound)),
            Some(t0) => match money_of(t0) {
                None => (a, Err(TxError::TransactionNotFound)),
                Some(m) => {
                    let l2 = ledger_with_state(a.ledger, tx_id, TransactionState::Normal);
                    let moved = if a.locked {
                        AccountView { ledger: l2, ..a }
                    } else {
                        AccountView {
                            ledger: l2,
                            held: a.held - m.amount,
                            available: a.available + m.amount,
                            ..a
                        }
                    };
                    (moved, Ok(()))
                },
            },
        }
    }
}

/// Applying a chargeback: the referenced transaction must be disputed; it
/// becomes terminally charged back, its amount leaves held and total, and
/// the account locks. The balance change is not gated by the lock.
pub open spec fn spec_apply_chargeback(a: AccountView, tx_id: u32) -> (AccountView, Result<
    (),
    TxError,
>) {
    if !spec_is_disputed(a.ledger, tx_id) {
        (a, Err(TxError::NotDisputed))
    } else {
        match spec_find(a.ledger, tx_id) {
            None => (a, Err(TxError::TransactionNotFound)),
            Some(t0) => match money_of(t0) {
                None => (a, Err(TxError::TransactionNotFound)),
                Some(m) => {
                    let l2 = ledger_with_state(a.ledger, tx_id, TransactionState::Chargedback);
                    (
                        AccountView {
                            ledger: l2,
                            held: a.held - m.amount,
                            total: a.total - m.amount,
                            locked: true,
                            ..a
                        },
                        Ok(()),
                    )
                },
            },
        }
    }
}

/// One step of the account state machine: what `Account::process_transaction`
/// does to the account and what it returns.
///
/// A locked account refuses everything but a chargeback before any other
/// check runs.
pub open spec fn spec_apply(a: AccountView, t: Transaction) -> (AccountView, Result<(), TxError>) {
    if a.locked && !(t is Chargeback) {
        (a, Err(TxError::AccountLocked))
    } else {
        match t {
            Transaction::Deposit(m) => spec_apply_deposit(a, m),
            Transaction::Withdrawal(m) => spec_apply_withdrawal(a, m),
            Transaction::Dispute(id) => spec_apply_dispute(a, id.tx),
            Transaction::Resolve(id) => spec_apply_resolve(a, id.tx),
            Transaction::Chargeback(id) => spec_apply_chargeback(a, id.tx),
        }
    }
}

// ---------------------------------------------------------------------------
// The executable account.
// ---------------------------------------------------------------------------

/// One client's balances, lock flag and ledger of money transactions.
///
/// Balances are in minor currency units, held as `i128` so that every sum
/// the invariant permits fits with room to spare.
#[derive(Debug)]
pub struct Account {
    pub client: u16,
    pub ledger: Ledger,
    pub available: i128,
    pub held: i128,
    pub total: i128,
    pub locked: bool,
}

impl View for Account {
    type V = AccountView;

    open spec fn view(&self) -> AccountView {
        AccountView {
            client: self.client,
            ledger: self.ledger@,
            available: self.available as int,
            held: self.held as int,
            total: self.total as int,
            locked: self.locked,
        }
    }
}

impl Clone for Account {
    /// A copy with the same view.
    fn clone(&self) -> (r: Self)
        ensures
            r@ == self@,
    {
        Account {
            client: self.client,
            ledger: self.ledger.clone(),
            available: self.available,
            held: self.held,
            total: self.total,
            locked: self.locked,
        }
    }
}

impl Account {
    /// A fresh, unlocked account with all balances zero and an empty ledger.
    pub fn new(client: u16) -> (a: Account)
        ensures
            a@.client == client,
            a@.ledger.len() == 0,
            a@.available == 0,
            a@.held == 0,
            a@.total == 0,
            !a@.locked,
            a@.wf(),
    {
        Account {
            client,
            ledger: Ledger::new(),
            available: 0,
            held: 0,
            total: 0,
            locked: false,
        }
    }

    /// Credits a deposit to available and total; skipped on a locked account.
    pub fn deposit(&mut self, amount: i64)
        requires
            i128::MIN <= old(self)@.available + amount <= i128::MAX,
            i128::MIN <= old(self)@.total + amount <= i128::MAX,
        ensures
            old(self).locked ==> *final(self) == *old(self),
            !old(self).locked ==> final(self)@ == (AccountView {
                available: old(self)@.available + amount,
                total: old(self)@.total + amount,
                ..old(self)@
            }),
    {
        if !self.locked {
            self.available = self.available + amount as i128;
            self.total = self.total + amount as i128;
        }
    }

    /// Debits a withdrawal from available and total; fails on a locked
    /// account or when the available balance is below the amount, leaving
    /// every balance unchanged.
    pub fn withdraw(&mut self, amount: i64) -> (r: Result<(), TxError>)
        requires
            i128::MIN <= old(self)@.available - amount <= i128::MAX,
            i128::MIN <= old(self)@.total - amount <= i128::MAX,
        ensures
            old(self).locked ==> r is Err && r->Err_0 == TxError::AccountLocked && *final(self)
                == *old(self),
            !old(self).locked && old(self)@.available >= amount ==> r is Ok && final(self)@ == (
            AccountView {
                available: old(self)@.available - amount,
                total: old(self)@.total - amount,
                ..old(self)@
            }),
            !old(self).locked && old(self)@.available < amount ==> r is Err && r->Err_0
                == TxError::InsufficientFunds && *final(self) == *old(self),
    {
        if self.locked {
            return Err(TxError::AccountLocked);
        }
        if self.available >= amount as i128 {
            self.available = self.available - amount as i128;
            self.total = self.total - amount as i128;
            Ok(())
        } else {
            Err(TxError::InsufficientFunds)
        }
    }

    /// Moves a disputed amount from available to held; skipped on a locked
    /// account.
    pub fn dispute(&mut self, amount: i64)
        requires
            i128::MIN <= old(self)@.available - amount <= i128::MAX,
            i128::MIN <= old(self)@.held + amount <= i128::MAX,
        ensures
            old(self).locked ==> *final(self) == *old(self),
            !old(self).locked ==> final(self)@ == (AccountView {
                available: old(self)@.available - amount,
                held: old(self)@.held + amount,
                ..old(self)@
            }),
    {
        if !self.locked {
            self.available = self.available - amount as i128;
            self.held = self.held + amount as i128;
        }
    }

    /// Moves a resolved amount from held back to available; skipped on a
    /// locked account.
    pub fn resolve(&mut self, amount: i64)
        requires
            i128::MIN <= old(self)@.held - amount <= i128::MAX,
            i128::MIN <= old(self)@.available + amount <= i128::MAX,
        ensures
            old(self).locked ==> *final(self) == *old(self),
            !old(self).locked ==> final(self)@ == (AccountView {
                held: old(self)@.held - amount,
                available: old(self)@.available + amount,
                ..old(self)@
            }),
    {
        if !self.locked {
            self.held = self.held - amount as i128;
            self.available = self.available + amount as i128;
        }
    }

    /// Removes a charged-back amount from held and total and locks the
    /// account; deliberately not gated by the lock, since chargeback is the
    /// one operation allowed on an already-locked account.
    pub fn chargeback(&mut self, amount: i64)
        requires
            i128::MIN <= old(self)@.held - amount <= i128::MAX,
            i128::MIN <= old(self)@.total - amount <= i128::MAX,
        ensures
            final(self)@ == (AccountView {
                held: old(self)@.held - amount,
                total: old(self)@.total - amount,
                locked: true,
                ..old(self)@
            }),
    {
        self.held = self.held - amount as i128;
        self.total = self.total - amount as i128;
        self.locked = true;
    }

    /// Applies one transaction to this account: the single entry point of
    /// the account state machine. `spec_apply` is its exact specification,
    /// and the account invariant is preserved.
    #[verifier::rlimit(60)]
    pub fn process_transaction(&mut self, transaction: Transaction) -> (r: Result<(), TxError>)
        requires
            old(self)@.wf(),
            transaction.well_formed(),
        ensures
            final(self)@.wf(),
            final(self)@ == spec_apply(old(self)@, transaction).0,
            r == spec_apply(old(self)@, transaction).1,
    {
        if self.locked && !matches!(transaction, Transaction::Chargeback(_)) {
            return Err(TxError::AccountLocked);
        }
        match transaction {
            Transaction::Deposit(money_tx) => {
                if self.ledger.get_transaction(money_tx.id.tx).is_some() {
                    return Err(TxError::DuplicateTransactionId(money_tx.id.tx));
                }
                proof {
                    lemma_wf_bounds(self@);
                }
                self.deposit(money_tx.amount);
                self.ledger.add_transaction(money_tx.id.tx, Transaction::Deposit(money_tx));
                proof {
                    let s0 = old(self)@.ledger;
                    let e = (money_tx.id.tx, Transaction::Deposit(money_tx));
                    lemma_sum_push(s0, e, TransactionState::Normal);
                    lemma_sum_push(s0, e, TransactionState::Disputed);
                    lemma_sum_push(s0, e, TransactionState::Chargedback);
                    lemma_push_entry_wf(s0, e);
                }
                Ok(())
            },
            Transaction::Withdrawal(money_tx) => {
                if self.ledger.get_transaction(money_tx.id.tx).is_some() {
                    return Err(TxError::DuplicateTransactionId(money_tx.id.tx));
                }
                proof {
                    lemma_wf_bounds(self@);
                }
                match self.withdraw(money_tx.amount) {
                    Err(e) => Err(e),
                    Ok(()) => {
                        self.ledger.add_transaction(
                            money_tx.id.tx,
                            Transaction::Withdrawal(money_tx),
                        );
                        proof {
                            let s0 = old(self)@.ledger;
                            let e = (money_tx.id.tx, Transaction::Withdrawal(money_tx));
                            lemma_sum_push(s0, e, TransactionState::Normal);
                            lemma_sum_push(s0, e, TransactionState::Disputed);
                            lemma_sum_push(s0, e, TransactionState::Chargedback);
                            lemma_push_entry_wf(s0, e);
                        }
                        Ok(())
                    },
                }
            },
            Transaction::Dispute(client_tx) => {
                if self.ledger.is_disputed(client_tx.tx) {
                    return Err(TxError::AlreadyDisputed);
                }
                if self.ledger.is_chargedback(client_tx.tx) {
                    return Err(TxError::AlreadyChargedback);
                }
                let found: Option<Transaction> = match self.ledger.get_transaction(client_tx.tx) {
                    Some(t) => Some(*t),
                    None => None,
                };
                let ghost s0 = old(self)@.ledger;
                let ghost fm = first_match(s0, client_tx.tx);
                match found {
                    None => Err(TxError::TransactionNotFound),
                    Some(t0) => {
                        proof {
                            lemma_first_match(s0, client_tx.tx);
                            assert(entry_ok(s0[fm]));
                        }
                        match t0 {
                            Transaction::Deposit(mut m) => {
                                match m.mark_disputed() {
                                    Err(e) => {
                                        proof {
                                            assert(false);
                                        }
                                        Err(e)
                                    },
                                    Ok(()) => {
                                        self.ledger.add_transaction(
                                            client_tx.tx,
                                            Transaction::Deposit(m),
                                        );
                                        proof {
                                            let e = (client_tx.tx, Transaction::Deposit(m));
                                            lemma_sum_update(s0, fm, e, TransactionState::Normal);
                                            lemma_sum_update(s0, fm, e, TransactionState::Disputed);
                                            lemma_sum_update(
                                                s0,
                                                fm,
                                                e,
                                                TransactionState::Chargedback,
                                            );
                                            lemma_update_entry_wf(s0, fm, e);
                                            lemma_wf_bounds(old(self)@);
                                        }
                                        self.dispute(m.amount);
                                        Ok(())
                                    },
                                }
                            },
                            Transaction::Withdrawal(mut m) => {
                                match m.mark_disputed() {
                                    Err(e) => {
                                        proof {
                                            assert(false);
                                        }
                                        Err(e)
                                    },
                                    Ok(()) => {
                                        self.ledger.add_transaction(
                                            client_tx.tx,
                                            Transaction::Withdrawal(m),
                                        );
                                        proof {
                                            let e = (client_tx.tx, Transaction::Withdrawal(m));
                                            lemma_sum_update(s0, fm, e, TransactionState::Normal);
                                            lemma_sum_update(s0, fm, e, TransactionState::Disputed);
                                            lemma_sum_update(
                                                s0,
                                                fm,
                                                e,
                                                TransactionState::Chargedback,
                                            );
                                            lemma_update_entry_wf(s0, fm, e);
                                            lemma_wf_bounds(old(self)@);
                                        }
                                        self.dispute(m.amount);
                                        Ok(())
                                    },
                                }
                            },
                            _ => {
                                proof {
                                    assert(false);
                                }
                                Err(TxError::TransactionNotFound)
                            },
                        }
                    },
                }
            },
            Transaction::Resolve(client_tx) => {
                if !self.ledger.is_disputed(client_tx.tx) {
                    return Err(TxError::NotDisputed);
                }
                let found: Option<Transaction> = match self.ledger.get_transaction(client_tx.tx) {
                    Some(t) => Some(*t),
                    None => None,
                };
                let ghost s0 = old(self)@.ledger;
                let ghost fm = first_match(s0, client_tx.tx);
                match found {
                    None => Err(TxError::TransactionNotFound),
                    Some(t0) => {
                        proof {
                            lemma_first_match(s0, client_tx.tx);
                            assert(entry_ok(s0[fm]));
                        }
                        match t0 {
                            Transaction::Deposit(mut m) => {
                                match m.resolve_dispute() {
                                    Err(e) => {
                                        proof {
                                            assert(false);
                                        }
                                        Err(e)
                                    },
                                    Ok(()) => {
                                        self.ledger.add_transaction(
                                            client_tx.tx,
                                            Transaction::Deposit(m),
                                        );
                                        proof {
                                            let e = (client_tx.tx, Transaction::Deposit(m));
                                            lemma_sum_update(s0, fm, e, TransactionState::Normal);
                                            lemma_sum_update(s0, fm, e, TransactionState::Disputed);
                                            lemma_sum_update(
                                                s0,
                                                fm,
                                                e,
                                                TransactionState::Chargedback,
                                            );
                                            lemma_update_entry_wf(s0, fm, e);
                                            lemma_wf_bounds(old(self)@);
                                        }
                                        self.resolve(m.amount);
                                        Ok(())
                                    },
                                }
                            },
                            Transaction::Withdrawal(mut m) => {
                                match m.resolve_dispute() {
                                    Err(e) => {
                                        proof {
                                            assert(false);
                                        }
                                        Err(e)
                                    },
                                    Ok(()) => {
                                        self.ledger.add_transaction(
                                            client_tx.tx,
                                            Transaction::Withdrawal(m),
                                        );
                                        proof {
                                            let e = (client_tx.tx, Transaction::Withdrawal(m));
                                            lemma_sum_update(s0, fm, e, TransactionState::Normal);
                                            lemma_sum_update(s0, fm, e, TransactionState::Disputed);
                                            lemma_sum_update(
                                                s0,
                                                fm,
                                                e,
                                                TransactionState::Chargedback,
                                            );
                                            lemma_update_entry_wf(s0, fm, e);
                                            lemma_wf_bounds(old(self)@);
                                        }
                                        self.resolve(m.amount);
                                        Ok(())
                                    },
                                }
                            },
                            _ => {
                                proof {
                                    assert(false);
                                }
                                Err(TxError::TransactionNotFound)
                            },
                        }
                    },
                }
            },
            Transaction::Chargeback(client_tx) => {
                if !self.ledger.is_disputed(client_tx.tx) {
                    return Err(TxError::NotDisputed);
                }
                let found: Option<Transaction> = match self.ledger.get_transaction(client_tx.tx) {
                    Some(t) => Some(*t),
                    None => None,
                };
                let ghost s0 = old(self)@.ledger;
                let ghost fm = first_match(s0, client_tx.tx);
                match found {
                    None => Err(TxError::TransactionNotFound),
                    Some(t0) => {
                        proof {
                            lemma_first_match(s0, client_tx.tx);
                            assert(entry_ok(s0[fm]));
                        }
                        match t0 {
                            Transaction::Deposit(mut m) => {
                                match m.mark_chargedback() {
                                    Err(e) => {
                                        proof {
                                            assert(false);
                                        }
                                        Err(e)
                                    },
                                    Ok(()) => {
                                        self.ledger.add_transaction(
                                            client_tx.tx,
                                            Transaction::Deposit(m),
                                        );
                                        proof {
                                            let e = (client_tx.tx, Transaction::Deposit(m));
                                            lemma_sum_update(s0, fm, e, TransactionState::Normal);
                                            lemma_sum_update(s0, fm, e, TransactionState::Disputed);
                                            lemma_sum_update(
                                                s0,
                                                fm,
                                                e,
                                                TransactionState::Chargedback,
                                            );
                                            lemma_update_entry_wf(s0, fm, e);
                                            lemma_wf_bounds(old(self)@);
                                        }
                                        self.chargeback(m.amount);
                                        Ok(())
                                    },
                                }
                            },
                            Transaction::Withdrawal(mut m) => {
                                match m.mark_chargedback() {
                                    Err(e) => {
                                        proof {
                                            assert(false);
                                        }
                                        Err(e)
                                    },
                                    Ok(()) => {
                                        self.ledger.add_transaction(
                                            client_tx.tx,
                                            Transaction::Withdrawal(m),
                                        );
                                        proof {
                                            let e = (client_tx.tx, Transaction::Withdrawal(m));
                                            lemma_sum_update(s0, fm, e, TransactionState::Normal);
                                            lemma_sum_update(s0, fm, e, TransactionState::Disputed);
                                            lemma_sum_update(
                                                s0,
                                                fm,
                                                e,
                                                TransactionState::Chargedback,
                                            );
                                            lemma_update_entry_wf(s0, fm, e);
                                            lemma_wf_bounds(old(self)@);
                                        }
                                        self.chargeback(m.amount);
                                        Ok(())
                                    },
                                }
                            },
                            _ => {
                                proof {
                                    assert(false);
                                }
                                Err(TxError::TransactionNotFound)
                            },
                        }
                    },
                }
            },
        }
    }
}

} // verus!
