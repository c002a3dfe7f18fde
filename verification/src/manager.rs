use vstd::prelude::*;

use crate::account::{spec_apply, Account, AccountView};
use crate::errors::TxError;
use crate::transaction::Transaction;

verus! {

// ---------------------------------------------------------------------------
// The store model: a sequence of account views, one per client.
// ---------------------------------------------------------------------------

/// The index of the account owned by the client, or `-1`.
pub open spec fn client_index(s: Seq<AccountView>, client: u16) -> int
    decreases s.len(),
{
    if s.len() == 0 {
        -1
    } else if s[0].client == client {
        0
    } else {
        let r = client_index(s.drop_first(), client);
        if r < 0 {
            -1
        } else {
            r + 1
        }
    }
}

/// The store invariant: every account is well-formed and no two accounts
/// belong to the same client.
pub open spec fn store_ok(s: Seq<AccountView>) -> bool {
    &&& forall|i: int| 0 <= i < s.len() ==> (#[trigger] s[i]).wf()
    &&& forall|i: int, j: int| 0 <= i < j < s.len() ==> s[i].client != s[j].client
}

/// The account a client starts with: everything zero, unlocked, no ledger
/// entries.
pub open spec fn empty_account(client: u16) -> AccountView {
    AccountView {
        client,
        ledger: Seq::empty(),
        available: 0,
        held: 0,
        total: 0,
        locked: false,
    }
}

/// One step of the store: the transaction goes to its owning client's
/// account, created lazily on first reference; the account's answer is the
/// store's answer.
pub open spec fn spec_store_apply(s: Seq<AccountView>, t: Transaction) -> (Seq<AccountView>, Result<
    (),
    TxError,
>) {
    let c = t.spec_client_id();
    let i = client_index(s, c);
    if i >= 0 {
        (s.update(i, spec_apply(s[i], t).0), spec_apply(s[i], t).1)
    } else {
        (s.push(spec_apply(empty_account(c), t).0), spec_apply(empty_account(c), t).1)
    }
}

/// The store after a whole stream, applied one transaction at a time in
/// order; per-transaction errors do not stop the stream.
pub open spec fn spec_store_apply_all(s: Seq<AccountView>, ts: Seq<Transaction>) -> Seq<AccountView>
    decreases ts.len(),
{
    if ts.len() == 0 {
        s
    } else {
        spec_store_apply(spec_store_apply_all(s, ts.drop_last()), ts.last()).0
    }
}

/// Where the owning account sits: in bounds, owned by the client, with no
/// earlier account of the same client; a negative answer means no account.
pub proof fn lemma_client_index(s: Seq<AccountView>, client: u16)
    ensures
        client_index(s, client) < 0 ==> forall|j: int| 0 <= j < s.len() ==> (#[trigger] s[j]).client
            != client,
        client_index(s, client) >= 0 ==> {
            &&& 0 <= client_index(s, client) < s.len()
            &&& s[client_index(s, client)].client == client
            &&& forall|j: int| 0 <= j < client_index(s, client) ==> (#[trigger] s[j]).client
                != client
        },
    decreases s.len(),
{
    if s.len() > 0 && s[0].client != client {
        lemma_client_index(s.drop_first(), client);
        assert forall|j: int| 1 <= j < s.len() implies s.drop_first()[j - 1] == s[j] by {}
    }
}

// ---------------------------------------------------------------------------
// The executable store.
// ---------------------------------------------------------------------------

/// The account store: one account per client, created lazily, never removed.
///
/// A value of this type is meant to be owned by a single consumer (or put
/// behind one exclusive lock), so `&mut` access serializes all mutation.
#[derive(Debug)]
pub struct AccountManager {
    accounts: Vec<Account>,
}

impl View for AccountManager {
    type V = Seq<AccountView>;

    closed spec fn view(&self) -> Seq<AccountView> {
        self.accounts@.map_values(|a: Account| a@)
    }
}

impl AccountManager {
    /// An empty store.
    pub fn new() -> (m: AccountManager)
        ensures
            m@.len() == 0,
            store_ok(m@),
    {
        AccountManager { accounts: Vec::new() }
    }

    /// Routes one transaction to its owning client's account, creating the
    /// account on first reference, and returns the account's answer.
    /// `spec_store_apply` is its exact specification.
    pub fn process_transaction(&mut self, transaction: Transaction) -> (r: Result<(), TxError>)
        requires
            store_ok(old(self)@),
            transaction.well_formed(),
        ensures
            store_ok(final(self)@),
            final(self)@ == spec_store_apply(old(self)@, transaction).0,
            r == spec_store_apply(old(self)@, transaction).1,
    {
        let client_id = transaction.client_id();
        let n = self.accounts.len();
        let mut i: usize = 0;
        while i < n
            invariant
                i <= n,
                n == self.accounts@.len(),
                *self == *old(self),
                store_ok(self@),
                transaction.well_formed(),
                client_id == transaction.spec_client_id(),
                forall|j: int| 0 <= j < i ==> (#[trigger] self.accounts@[j]).client != client_id,
            decreases n - i,
        {
            if self.accounts[i].client == client_id {
                proof {
                    assert forall|j: int| 0 <= j < self@.len() implies #[trigger] self@[j]
                        == self.accounts@[j]@ by {}
                    lemma_client_index(self@, client_id);
                    let ci = client_index(self@, client_id);
                    assert(self@[i as int].client == client_id);
                    if ci < 0 {
                        assert(self@[i as int].client != client_id);
                    } else if ci < i as int {
                        assert(self.accounts@[ci].client != client_id);
                        assert(self@[ci].client == client_id);
                    } else if ci > i as int {
                        assert(self@[i as int].client != client_id);
                    }
                    assert(ci == i as int);
                    assert(self@[i as int].wf());
                }
                let acc = &mut self.accounts[i];
                let r = acc.process_transaction(transaction);
                proof {
                    assert(self@ =~= old(self)@.update(
                        i as int,
                        spec_apply(old(self)@[i as int], transaction).0,
                    ));
                    assert forall|k: int| 0 <= k < self@.len() implies (#[trigger] self@[k]).wf()
                        by {
                        if k != i as int {
                            assert(old(self)@[k].wf());
                        }
                    }
                }
                return r;
            }
            i += 1;
        }
        proof {
            lemma_client_index(old(self)@, client_id);
        }
        let mut account = Account::new(client_id);
        proof {
            assert(account@ =~= empty_account(client_id));
        }
        let r = account.process_transaction(transaction);
        self.accounts.push(account);
        proof {
            assert(self@ =~= old(self)@.push(
                spec_apply(empty_account(client_id), transaction).0,
            ));
            assert forall|k: int| 0 <= k < self@.len() implies (#[trigger] self@[k]).wf() by {
                if k < old(self)@.len() {
                    assert(old(self)@[k].wf());
                }
            }
        }
        r
    }

    /// A copy of the client's account, if the client has one.
    pub fn get_account(&self, client: u16) -> (r: Option<Account>)
        ensures
            client_index(self@, client) >= 0 ==> r is Some && r->0@ == self@[client_index(
                self@,
                client,
            )],
            client_index(self@, client) < 0 ==> r is None,
    {
        let n = self.accounts.len();
        let mut i: usize = 0;
        while i < n
            invariant
                i <= n,
                n == self.accounts@.len(),
                forall|j: int| 0 <= j < i ==> (#[trigger] self.accounts@[j]).client != client,
            decreases n - i,
        {
            if self.accounts[i].client == client {
                proof {
                    assert forall|j: int| 0 <= j < self@.len() implies #[trigger] self@[j]
                        == self.accounts@[j]@ by {}
                    lemma_client_index(self@, client);
                    let ci = client_index(self@, client);
                    assert(self@[i as int].client == client);
                    if ci < 0 {
                        assert(self@[i as int].client != client);
                    } else if ci < i as int {
                        assert(self.accounts@[ci].client != client);
                        assert(self@[ci].client == client);
                    } else if ci > i as int {
                        assert(self@[i as int].client != client);
                    }
                    assert(ci == i as int);
                }
                return Some(self.accounts[i].clone());
            }
            i += 1;
        }
        proof {
            assert forall|j: int| 0 <= j < self@.len() implies #[trigger] self@[j]
                == self.accounts@[j]@ by {}
            lemma_client_index(self@, client);
        }
        None
    }

    /// A snapshot of every account, in creation order.
    pub fn accounts(&self) -> (r: Vec<Account>)
        ensures
            r@.map_values(|a: Account| a@) == self@,
    {
        let n = self.accounts.len();
        let mut r: Vec<Account> = Vec::new();
        let mut i: usize = 0;
        while i < n
            invariant
                i <= n,
                n == self.accounts@.len(),
                r@.len() == i,
                forall|j: int| 0 <= j < i ==> (#[trigger] r@[j])@ == self@[j],
            decreases n - i,
        {
            r.push(self.accounts[i].clone());
            i += 1;
        }
        proof {
            assert forall|k: int| 0 <= k < n implies r@.map_values(|a: Account| a@)[k] == self@[k]
                by {}
            assert(r@.map_values(|a: Account| a@) =~= self@);
        }
        r
    }

    /// How many clients have an account.
    pub fn total_accounts(&self) -> (r: usize)
        ensures
            r == self@.len(),
    {
        self.accounts.len()
    }

    /// Drains a whole in-order stream into the store, one transaction at a
    /// time, carrying on past per-transaction errors as the pipeline's
    /// consumer does. The result is exactly the fold of the stream over
    /// `spec_store_apply`.
    pub fn process_all(&mut self, transactions: &Vec<Transaction>)
        requires
            store_ok(old(self)@),
            forall|k: int| 0 <= k < transactions@.len() ==> (
            #[trigger] transactions@[k]).well_formed(),
        ensures
            store_ok(final(self)@),
            final(self)@ == spec_store_apply_all(old(self)@, transactions@),
    {
        let n = transactions.len();
        let mut i: usize = 0;
        while i < n
            invariant
                i <= n,
                n == transactions@.len(),
                store_ok(self@),
                forall|k: int| 0 <= k < transactions@.len() ==> (
                #[trigger] transactions@[k]).well_formed(),
                self@ == spec_store_apply_all(old(self)@, transactions@.take(i as int)),
            decreases n - i,
        {
            let _ = self.process_transaction(transactions[i]);
            proof {
                assert(transactions@.take(i + 1).drop_last() =~= transactions@.take(i as int));
            }
            i += 1;
        }
        proof {
            assert(transactions@.take(n as int) =~= transactions@);
        }
    }
}

} // verus!
