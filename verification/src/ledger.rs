use vstd::prelude::*;

use crate::transaction::{MoneyTransaction, Transaction, TransactionState};

verus! {

// ---------------------------------------------------------------------------
// The ledger model: a sequence of (transaction id, transaction) entries,
// looked up by the first entry carrying the id.
// ---------------------------------------------------------------------------

/// The money transaction inside a deposit or withdrawal, `None` otherwise.
pub open spec fn money_of(t: Transaction) -> Option<MoneyTransaction> {
    match t {
        Transaction::Deposit(m) => Some(m),
        Transaction::Withdrawal(m) => Some(m),
        _ => None,
    }
}

/// The index of the first entry with the given id, or `-1`.
pub open spec fn first_match(s: Seq<(u32, Transaction)>, tx_id: u32) -> int
    decreases s.len(),
{
    if s.len() == 0 {
        -1
    } else if s[0].0 == tx_id {
        0
    } else {
        let r = first_match(s.drop_first(), tx_id);
        if r < 0 {
            -1
        } else {
            r + 1
        }
    }
}

/// Whether some entry carries the given id.
pub open spec fn spec_contains(s: Seq<(u32, Transaction)>, tx_id: u32) -> bool {
    first_match(s, tx_id) >= 0
}

/// The transaction stored under the given id, if any.
pub open spec fn spec_find(s: Seq<(u32, Transaction)>, tx_id: u32) -> Option<Transaction> {
    let i = first_match(s, tx_id);
    if i < 0 {
        None
    } else {
        Some(s[i].1)
    }
}

/// Whether the stored transaction under the given id is a money transaction
/// currently in the given state; `false` for unknown ids and non-money entries.
pub open spec fn spec_in_state(
    s: Seq<(u32, Transaction)>,
    tx_id: u32,
    st: TransactionState,
) -> bool {
    match spec_find(s, tx_id) {
        Some(t) => match money_of(t) {
            Some(m) => m.state == st,
            None => false,
        },
        None => false,
    }
}

pub open spec fn spec_is_disputed(s: Seq<(u32, Transaction)>, tx_id: u32) -> bool {
    spec_in_state(s, tx_id, TransactionState::Disputed)
}

pub open spec fn spec_is_chargedback(s: Seq<(u32, Transaction)>, tx_id: u32) -> bool {
    spec_in_state(s, tx_id, TransactionState::Chargedback)
}

/// No two entries carry the same id.
pub open spec fn ids_unique(s: Seq<(u32, Transaction)>) -> bool {
    forall|i: int, j: int| 0 <= i < j < s.len() ==> s[i].0 != s[j].0
}

/// What an account keeps in its ledger: a money transaction with a strictly
/// positive amount, stored under its own id.
pub open spec fn entry_ok(e: (u32, Transaction)) -> bool {
    &&& money_of(e.1) is Some
    &&& money_of(e.1)->0.amount > 0
    &&& money_of(e.1)->0.id.tx == e.0
}

pub open spec fn entries_ok(s: Seq<(u32, Transaction)>) -> bool {
    forall|i: int| 0 <= i < s.len() ==> #[trigger] entry_ok(s[i])
}

// ---------------------------------------------------------------------------
// Sums of amounts by dispute state.
// ---------------------------------------------------------------------------

/// The entry's contribution to the sum for one dispute state: its amount if
/// it is a money transaction in that state, zero otherwise.
pub open spec fn state_amount(t: Transaction, st: TransactionState) -> int {
    match money_of(t) {
        Some(m) => if m.state == st {
            m.amount as int
        } else {
            0
        },
        None => 0,
    }
}

/// The sum of the amounts of all entries in the given dispute state.
pub open spec fn sum_in_state(s: Seq<(u32, Transaction)>, st: TransactionState) -> int
    decreases s.len(),
{
    if s.len() == 0 {
        0
    } else {
        sum_in_state(s.drop_last(), st) + state_amount(s.last().1, st)
    }
}

// ---------------------------------------------------------------------------
// Lemmas about lookups and sums.
// ---------------------------------------------------------------------------

/// Where the first match sits: in bounds, carrying the id, with no earlier
/// match; and a negative answer means no entry carries the id.
pub proof fn lemma_first_match(s: Seq<(u32, Transaction)>, tx_id: u32)
    ensures
        first_match(s, tx_id) < 0 ==> forall|j: int| 0 <= j < s.len() ==> (#[trigger] s[j]).0
            != tx_id,
        first_match(s, tx_id) >= 0 ==> {
            &&& 0 <= first_match(s, tx_id) < s.len()
            &&& s[first_match(s, tx_id)].0 == tx_id
            &&& forall|j: int| 0 <= j < first_match(s, tx_id) ==> (#[trigger] s[j]).0 != tx_id
        },
    decreases s.len(),
{
    if s.len() > 0 && s[0].0 != tx_id {
        lemma_first_match(s.drop_first(), tx_id);
        assert forall|j: int| 1 <= j < s.len() implies s.drop_first()[j - 1] == s[j] by {}
    }
}

/// How lookups see an appended entry: lookups that already hit keep their
/// answer, and a fresh id is found exactly when it is the appended one.
pub proof fn lemma_first_match_push(s: Seq<(u32, Transaction)>, e: (u32, Transaction), tx_id: u32)
    ensures
        spec_contains(s, tx_id) ==> first_match(s.push(e), tx_id) == first_match(s, tx_id),
        !spec_contains(s, tx_id) && e.0 == tx_id ==> first_match(s.push(e), tx_id) == s.len(),
        !spec_contains(s, tx_id) && e.0 != tx_id ==> first_match(s.push(e), tx_id) == -1,
    decreases s.len(),
{
    if s.len() == 0 {
        assert(s.push(e)[0] == e);
        assert(s.push(e).drop_first() =~= Seq::<(u32, Transaction)>::empty());
        assert(first_match(s.push(e).drop_first(), tx_id) == -1);
    } else {
        assert(s.push(e)[0] == s[0]);
        lemma_first_match_push(s.drop_first(), e, tx_id);
        assert(s.push(e).drop_first() =~= s.drop_first().push(e));
    }
}

/// Overwriting an entry under its own key leaves every lookup position
/// unchanged.
pub proof fn lemma_first_match_update(
    s: Seq<(u32, Transaction)>,
    i: int,
    e: (u32, Transaction),
    tx_id: u32,
)
    requires
        0 <= i < s.len(),
        e.0 == s[i].0,
    ensures
        first_match(s.update(i, e), tx_id) == first_match(s, tx_id),
    decreases s.len(),
{
    if i == 0 {
        assert(s.update(i, e).drop_first() =~= s.drop_first());
    } else {
        lemma_first_match_update(s.drop_first(), i - 1, e, tx_id);
        assert(s.update(i, e).drop_first() =~= s.drop_first().update(i - 1, e));
    }
}

/// Appending an entry adds its contribution to every state sum.
pub proof fn lemma_sum_push(s: Seq<(u32, Transaction)>, e: (u32, Transaction), st: TransactionState)
    ensures
        sum_in_state(s.push(e), st) == sum_in_state(s, st) + state_amount(e.1, st),
{
    assert(s.push(e).drop_last() =~= s);
    assert(s.push(e).last() == e);
}

/// Replacing the entry at one index moves every state sum by the difference
/// of the two entries' contributions.
pub proof fn lemma_sum_update(
    s: Seq<(u32, Transaction)>,
    i: int,
    e: (u32, Transaction),
    st: TransactionState,
)
    requires
        0 <= i < s.len(),
    ensures
        sum_in_state(s.update(i, e), st) == sum_in_state(s, st) - state_amount(s[i].1, st)
            + state_amount(e.1, st),
    decreases s.len(),
{
    let t = s.update(i, e);
    if i == s.len() - 1 {
        assert(t.drop_last() =~= s.drop_last());
        assert(t.last() == e);
    } else {
        assert(t.drop_last() =~= s.drop_last().update(i, e));
        assert(t.last() == s.last());
        lemma_sum_update(s.drop_last(), i, e, st);
    }
}

/// With every entry contributing a non-negative amount, the sum is between
/// zero and the number of entries times the largest amount.
pub proof fn lemma_sum_bounds(s: Seq<(u32, Transaction)>, st: TransactionState)
    requires
        entries_ok(s),
    ensures
        0 <= sum_in_state(s, st),
        sum_in_state(s, st) <= s.len() * (i64::MAX as int),
    decreases s.len(),
{
    if s.len() > 0 {
        assert(entry_ok(s[s.len() - 1]));
        assert(entries_ok(s.drop_last())) by {
            assert forall|i: int| 0 <= i < s.drop_last().len() implies #[trigger] entry_ok(
                s.drop_last()[i],
            ) by {
                assert(entry_ok(s[i]));
            }
        }
        lemma_sum_bounds(s.drop_last(), st);
        assert((s.len() - 1) * (i64::MAX as int) + (i64::MAX as int) == s.len() * (
        i64::MAX as int)) by (nonlinear_arith);
    }
}

/// With all ids distinct and ids drawn from `u32`, the ledger cannot hold
/// more than `u32::MAX + 1` entries.
pub proof fn lemma_unique_len(s: Seq<(u32, Transaction)>)
    requires
        ids_unique(s),
    ensures
        s.len() <= 0x1_0000_0000,
{
    let ids = s.map_values(|e: (u32, Transaction)| e.0 as int);
    assert(ids.len() == s.len());
    assert forall|i: int, j: int| 0 <= i < ids.len() && 0 <= j < ids.len() && i != j implies ids[i]
        != ids[j] by {
        if i < j {
            assert(s[i].0 != s[j].0);
        } else {
            assert(s[j].0 != s[i].0);
        }
    }
    assert(ids.no_duplicates());
    ids.unique_seq_to_set();
    let range = vstd::set_lib::set_int_range(0, 0x1_0000_0000);
    assert(ids.to_set().subset_of(range)) by {
        assert forall|x: int| ids.to_set().contains(x) implies range.contains(x) by {
            assert(ids.contains(x));
            let i = choose|i: int| 0 <= i < ids.len() && ids[i] == x;
            assert((s[i].0 as int) < 0x1_0000_0000);
        }
    }
    vstd::set_lib::lemma_int_range(0, 0x1_0000_0000);
    vstd::set_lib::lemma_len_subset(ids.to_set(), range);
}

// ---------------------------------------------------------------------------
// The executable ledger.
// ---------------------------------------------------------------------------

/// The per-account record of money transactions, looked up by transaction id.
///
/// Entries are only ever added or overwritten through `add_transaction`, so
/// ids stay unique; the sequence view keeps insertion order, which the
/// account's balance accounting sums over.
#[derive(Debug)]
pub struct Ledger {
    transactions: Vec<(u32, Transaction)>,
}

impl View for Ledger {
    type V = Seq<(u32, Transaction)>;

    closed spec fn view(&self) -> Seq<(u32, Transaction)> {
        self.transactions@
    }
}

impl Clone for Ledger {
    /// An entry-for-entry copy with the same view.
    fn clone(&self) -> (r: Self)
        ensures
            r@ == self@,
    {
        let n = self.transactions.len();
        let mut transactions: Vec<(u32, Transaction)> = Vec::new();
        let mut i: usize = 0;
        while i < n
            invariant
                i <= n,
                n == self.transactions@.len(),
                transactions@ == self.transactions@.subrange(0, i as int),
            decreases n - i,
        {
            transactions.push(self.transactions[i]);
            proof {
                assert(transactions@ =~= self.transactions@.subrange(0, i + 1));
            }
            i += 1;
        }
        proof {
            assert(transactions@ =~= self.transactions@);
        }
        Ledger { transactions }
    }
}

impl Ledger {
    /// An empty ledger.
    pub fn new() -> (l: Ledger)
        ensures
            l@.len() == 0,
    {
        Ledger { transactions: Vec::new() }
    }

    /// Stores a transaction under an id: overwrites the entry already
    /// carrying the id, or appends a new one.
    pub fn add_transaction(&mut self, tx_id: u32, transaction: Transaction)
        ensures
            spec_contains(old(self)@, tx_id) ==> final(self)@ == old(self)@.update(
                first_match(old(self)@, tx_id),
                (tx_id, transaction),
            ),
            !spec_contains(old(self)@, tx_id) ==> final(self)@ == old(self)@.push(
                (tx_id, transaction),
            ),
    {
        let n = self.transactions.len();
        let mut i: usize = 0;
        while i < n
            invariant
                i <= n,
                n == self.transactions@.len(),
                *self == *old(self),
                forall|j: int| 0 <= j < i ==> (#[trigger] self.transactions@[j]).0 != tx_id,
            decreases n - i,
        {
            if self.transactions[i].0 == tx_id {
                proof {
                    lemma_first_match(self.transactions@, tx_id);
                }
                self.transactions[i] = (tx_id, transaction);
                return ;
            }
            i += 1;
        }
        proof {
            lemma_first_match(self.transactions@, tx_id);
        }
        self.transactions.push((tx_id, transaction));
    }

    /// The transaction stored under the id, if any.
    pub fn get_transaction(&self, tx_id: u32) -> (r: Option<&Transaction>)
        ensures
            r is Some <==> spec_find(self@, tx_id) is Some,
            r is Some ==> Some(*r->0) == spec_find(self@, tx_id),
    {
        let n = self.transactions.len();
        let mut i: usize = 0;
        while i < n
            invariant
                i <= n,
                n == self.transactions@.len(),
                forall|j: int| 0 <= j < i ==> (#[trigger] self.transactions@[j]).0 != tx_id,
            decreases n - i,
        {
            if self.transactions[i].0 == tx_id {
                proof {
                    lemma_first_match(self.transactions@, tx_id);
                }
                return Some(&self.transactions[i].1);
            }
            i += 1;
        }
        proof {
            lemma_first_match(self.transactions@, tx_id);
        }
        None
    }

    /// Whether the transaction stored under the id is currently disputed;
    /// `false` for unknown ids and non-money entries.
    pub fn is_disputed(&self, tx_id: u32) -> (r: bool)
        ensures
            r == spec_is_disputed(self@, tx_id),
    {
        match self.get_transaction(tx_id) {
            Some(t) => match t {
                Transaction::Deposit(m) | Transaction::Withdrawal(m) => m.is_disputed(),
                _ => false,
            },
            None => false,
        }
    }

    /// Whether the transaction stored under the id was charged back;
    /// `false` for unknown ids and non-money entries.
    pub fn is_chargedback(&self, tx_id: u32) -> (r: bool)
        ensures
            r == spec_is_chargedback(self@, tx_id),
    {
        match self.get_transaction(tx_id) {
            Some(t) => match t {
                Transaction::Deposit(m) | Transaction::Withdrawal(m) => m.is_chargedback(),
                _ => false,
            },
            None => false,
        }
    }
}

} // verus!
