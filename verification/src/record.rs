use vstd::prelude::*;

use crate::errors::DecodeError;
use crate::transaction::{ClientTransaction, MoneyTransaction, Transaction};

verus! {

broadcast use vstd::string::next_postcondition, vstd::string::axiom_spec_iter;

use vstd::std_specs::iter::IteratorSpec;

// ---------------------------------------------------------------------------
// Trimming, in specification.
// ---------------------------------------------------------------------------

/// The whitespace the decoder strips around a kind label.
pub open spec fn is_space(c: char) -> bool {
    c == ' ' || c == '\t' || c == '\r' || c == '\n'
}

pub open spec fn trim_front(s: Seq<char>) -> Seq<char>
    decreases s.len(),
{
    if s.len() > 0 && is_space(s[0]) {
        trim_front(s.drop_first())
    } else {
        s
    }
}

pub open spec fn trim_back(s: Seq<char>) -> Seq<char>
    decreases s.len(),
{
    if s.len() > 0 && is_space(s.last()) {
        trim_back(s.drop_last())
    } else {
        s
    }
}

/// The label with leading and trailing whitespace removed.
pub open spec fn trimmed(s: Seq<char>) -> Seq<char> {
    trim_back(trim_front(s))
}

/// The five kind labels.
pub open spec fn kw_deposit() -> Seq<char> {
    seq!['d', 'e', 'p', 'o', 's', 'i', 't']
}

pub open spec fn kw_withdrawal() -> Seq<char> {
    seq!['w', 'i', 't', 'h', 'd', 'r', 'a', 'w', 'a', 'l']
}

pub open spec fn kw_dispute() -> Seq<char> {
    seq!['d', 'i', 's', 'p', 'u', 't', 'e']
}

pub open spec fn kw_resolve() -> Seq<char> {
    seq!['r', 'e', 's', 'o', 'l', 'v', 'e']
}

pub open spec fn kw_chargeback() -> Seq<char> {
    seq!['c', 'h', 'a', 'r', 'g', 'e', 'b', 'a', 'c', 'k']
}

proof fn lemma_trim_front_at(s: Seq<char>, k: int)
    requires
        0 <= k <= s.len(),
        forall|j: int| 0 <= j < k ==> is_space(#[trigger] s[j]),
        k < s.len() ==> !is_space(s[k]),
    ensures
        trim_front(s) == s.skip(k),
    decreases k,
{
    if k == 0 {
        assert(s.skip(0) =~= s);
    } else {
        lemma_trim_front_at(s.drop_first(), k - 1);
        assert(s.drop_first().skip(k - 1) =~= s.skip(k));
    }
}

proof fn lemma_trim_back_at(s: Seq<char>, k: int)
    requires
        0 <= k <= s.len(),
        forall|j: int| k <= j < s.len() ==> is_space(#[trigger] s[j]),
        k > 0 ==> !is_space(s[k - 1]),
    ensures
        trim_back(s) == s.take(k),
    decreases s.len() - k,
{
    if k == s.len() {
        assert(s.take(k) =~= s);
    } else {
        lemma_trim_back_at(s.drop_last(), k);
        assert(s.drop_last().take(k) =~= s.take(k));
    }
}

// ---------------------------------------------------------------------------
// Executable helpers.
// ---------------------------------------------------------------------------

/// The characters of a string, in order.
fn str_chars(s: &str) -> (r: Vec<char>)
    ensures
        r@ == s@,
{
    let mut it = s.chars();
    let mut r: Vec<char> = Vec::new();
    loop
        invariant
            it.obeys_prophetic_iter_laws(),
            it.decrease() is Some,
            r@ + it.remaining() == s@,
        ensures
            r@ == s@,
        decreases it.decrease()->0,
    {
        match it.next() {
            Some(c) => {
                r.push(c);
            },
            None => {
                proof {
                    assert(r@ + it.remaining() =~= r@);
                }
                break ;
            },
        }
    }
    r
}

fn is_space_char(c: char) -> (r: bool)
    ensures
        r == is_space(c),
{
    c == ' ' || c == '\t' || c == '\r' || c == '\n'
}

/// Whether the characters between `start` and `end` spell the keyword.
fn span_equals(cs: &Vec<char>, start: usize, end: usize, kw: &Vec<char>) -> (r: bool)
    requires
        start <= end <= cs@.len(),
    ensures
        r == (cs@.subrange(start as int, end as int) == kw@),
{
    if end - start != kw.len() {
        return false;
    }
    let mut i: usize = 0;
    let len = kw.len();
    while i < len
        invariant
            i <= len,
            len == kw@.len(),
            start <= end <= cs@.len(),
            end - start == len,
            forall|j: int| 0 <= j < i ==> cs@[start + j] == kw@[j],
        decreases len - i,
    {
        if cs[start + i] != kw[i] {
            return false;
        }
        i += 1;
    }
    proof {
        assert(cs@.subrange(start as int, end as int) =~= kw@);
    }
    true
}

// ---------------------------------------------------------------------------
// The input record.
// ---------------------------------------------------------------------------

/// One row of the input, already split into fields: the kind label as text,
/// the identity pair, and the optional amount in minor currency units.
#[derive(Debug)]
pub struct CsvRecord {
    pub tx_type: String,
    pub client: u16,
    pub tx: u32,
    pub amount: Option<i64>,
}

impl CsvRecord {
    /// Decodes the record into a typed transaction.
    ///
    /// The kind label is taken after trimming whitespace; money kinds need a
    /// strictly positive amount; an unknown label fails the decode.
    pub fn into_transaction(self) -> (r: Result<Transaction, DecodeError>)
        ensures
            ({
                let k = trimmed(self.tx_type@);
                &&& (k == kw_deposit() ==> match self.amount {
                    Option::None => r is Err && r->Err_0 is DepositRequiresAmount,
                    Option::Some(a) => if a <= 0 {
                        r is Err && r->Err_0 is InvalidAmount
                    } else {
                        &&& r is Ok
                        &&& r->Ok_0 matches Transaction::Deposit(m) && m.id == (ClientTransaction {
                            client: self.client,
                            tx: self.tx,
                        }) && m.amount == a && m.state is Normal
                    },
                })
                &&& (k == kw_withdrawal() ==> match self.amount {
                    Option::None => r is Err && r->Err_0 is WithdrawalRequiresAmount,
                    Option::Some(a) => if a <= 0 {
                        r is Err && r->Err_0 is InvalidAmount
                    } else {
                        &&& r is Ok
                        &&& r->Ok_0 matches Transaction::Withdrawal(m) && m.id
                            == (ClientTransaction { client: self.client, tx: self.tx }) && m.amount
                            == a && m.state is Normal
                    },
                })
                &&& (k == kw_dispute() ==> r == Ok::<Transaction, DecodeError>(
                    Transaction::Dispute(ClientTransaction { client: self.client, tx: self.tx }),
                ))
                &&& (k == kw_resolve() ==> r == Ok::<Transaction, DecodeError>(
                    Transaction::Resolve(ClientTransaction { client: self.client, tx: self.tx }),
                ))
                &&& (k == kw_chargeback() ==> r == Ok::<Transaction, DecodeError>(
                    Transaction::Chargeback(ClientTransaction { client: self.client, tx: self.tx }),
                ))
                &&& (k != kw_deposit() && k != kw_withdrawal() && k != kw_dispute() && k
                    != kw_resolve() && k != kw_chargeback() ==> {
                    &&& r is Err
                    &&& r->Err_0 matches DecodeError::UnknownKind(u) && u == self.tx_type
                })
                &&& (r is Ok ==> r->Ok_0.well_formed())
            }),
    {
        let cs = str_chars(self.tx_type.as_str());
        let n = cs.len();
        let mut start: usize = 0;
        loop
            invariant
                start <= n,
                n == cs@.len(),
                forall|j: int| 0 <= j < start ==> is_space(#[trigger] cs@[j]),
            ensures
                start <= n,
                forall|j: int| 0 <= j < start ==> is_space(#[trigger] cs@[j]),
                start < n ==> !is_space(cs@[start as int]),
            decreases n - start,
        {
            if start < n {
                if is_space_char(cs[start]) {
                    start += 1;
                } else {
                    break ;
                }
            } else {
                break ;
            }
        }
        let mut end: usize = n;
        loop
            invariant
                start <= end <= n,
                n == cs@.len(),
                forall|j: int| end <= j < n ==> is_space(#[trigger] cs@[j]),
            ensures
                start <= end <= n,
                forall|j: int| end <= j < n ==> is_space(#[trigger] cs@[j]),
                end > start ==> !is_space(cs@[end - 1]),
            decreases end,
        {
            if end > start {
                if is_space_char(cs[end - 1]) {
                    end -= 1;
                } else {
                    break ;
                }
            } else {
                break ;
            }
        }
        proof {
            lemma_trim_front_at(cs@, start as int);
            assert forall|j: int| (end - start) <= j < cs@.skip(start as int).len() implies is_space(
                #[trigger] cs@.skip(start as int)[j],
            ) by {
                assert(is_space(cs@[start + j]));
            }
            lemma_trim_back_at(cs@.skip(start as int), end - start);
            assert(cs@.skip(start as int).take(end - start) =~= cs@.subrange(
                start as int,
                end as int,
            ));
            assert(trimmed(self.tx_type@) == cs@.subrange(start as int, end as int));
        }
        let kw_dep: Vec<char> = vec!['d', 'e', 'p', 'o', 's', 'i', 't'];
        let kw_wit: Vec<char> = vec!['w', 'i', 't', 'h', 'd', 'r', 'a', 'w', 'a', 'l'];
        let kw_dis: Vec<char> = vec!['d', 'i', 's', 'p', 'u', 't', 'e'];
        let kw_res: Vec<char> = vec!['r', 'e', 's', 'o', 'l', 'v', 'e'];
        let kw_cha: Vec<char> = vec!['c', 'h', 'a', 'r', 'g', 'e', 'b', 'a', 'c', 'k'];
        proof {
            assert(kw_dep@ =~= kw_deposit());
            assert(kw_wit@ =~= kw_withdrawal());
            assert(kw_dis@ =~= kw_dispute());
            assert(kw_res@ =~= kw_resolve());
            assert(kw_cha@ =~= kw_chargeback());
        }
        if span_equals(&cs, start, end, &kw_dep) {
            match self.amount {
                Some(a) => match MoneyTransaction::new(self.client, self.tx, a) {
                    Ok(m) => Ok(Transaction::Deposit(m)),
                    Err(_) => Err(DecodeError::InvalidAmount),
                },
                None => Err(DecodeError::DepositRequiresAmount),
            }
        } else if span_equals(&cs, start, end, &kw_wit) {
            match self.amount {
                Some(a) => match MoneyTransaction::new(self.client, self.tx, a) {
                    Ok(m) => Ok(Transaction::Withdrawal(m)),
                    Err(_) => Err(DecodeError::InvalidAmount),
                },
                None => Err(DecodeError::WithdrawalRequiresAmount),
            }
        } else if span_equals(&cs, start, end, &kw_dis) {
            Ok(Transaction::Dispute(ClientTransaction::new(self.client, self.tx)))
        } else if span_equals(&cs, start, end, &kw_res) {
            Ok(Transaction::Resolve(ClientTransaction::new(self.client, self.tx)))
        } else if span_equals(&cs, start, end, &kw_cha) {
            Ok(Transaction::Chargeback(ClientTransaction::new(self.client, self.tx)))
        } else {
            Err(DecodeError::UnknownKind(self.tx_type))
        }
    }
}

} // verus!
