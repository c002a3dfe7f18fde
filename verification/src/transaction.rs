use vstd::prelude::*;

use crate::errors::TxError;

verus! {

/// The identity of a transaction: the owning client and the sequence number.
#[derive(Clone, Copy, PartialEq, Eq, Structural, Debug, Hash)]
pub struct ClientTransaction {
    pub client: u16,
    pub tx: u32,
}

impl ClientTransaction {
    pub fn new(client: u16, tx: u32) -> (r: Self)
        ensures
            r == (ClientTransaction { client, tx }),
    {
        Self { client, tx }
    }
}

/// The dispute state of a money transaction.
///
/// `Normal` moves to `Disputed`; `Disputed` moves back to `Normal` (resolve)
/// or on to `Chargedback`, which is terminal.
#[derive(Clone, Copy, PartialEq, Eq, Structural, Debug)]
pub enum TransactionState {
    Normal,
    Disputed,
    Chargedback,
}

/// A deposit or withdrawal: identity, amount in minor currency units,
/// the wall-clock time of construction, and the dispute state.
///
/// The amount is strictly positive at construction and never changes.
#[derive(Clone, Copy, PartialEq, Eq, Structural, Debug)]
pub struct MoneyTransaction {
    pub id: ClientTransaction,
    pub amount: i64,
    pub timestamp: i64,
    pub state: TransactionState,
}

/// Relies on `chrono::Utc::now`: the current wall-clock time, taken as
/// microseconds since the Unix epoch. Nothing is assumed of the value.
#[verifier::external_body]
fn now_micros() -> (t: i64) {
    chrono::Utc::now().timestamp_micros()
}

impl MoneyTransaction {
    /// Builds a money transaction, rejecting non-positive amounts.
    ///
    /// The timestamp is the wall clock at the time of the call; no other
    /// field depends on anything but the arguments.
    pub fn new(client: u16, tx: u32, amount: i64) -> (r: Result<Self, TxError>)
        ensures
            amount <= 0 <==> r is Err,
            r is Err ==> r->Err_0 == TxError::InvalidAmount,
            r is Ok ==> r->Ok_0.id == (ClientTransaction { client, tx }),
            r is Ok ==> r->Ok_0.amount == amount,
            r is Ok ==> r->Ok_0.state is Normal,
    {
        if amount <= 0 {
            return Err(TxError::InvalidAmount);
        }
        Ok(Self {
            id: ClientTransaction::new(client, tx),
            amount,
            timestamp: now_micros(),
            state: TransactionState::Normal,
        })
    }

    pub fn is_disputed(&self) -> (r: bool)
        ensures
            r == (self.state is Disputed),
    {
        self.state == TransactionState::Disputed
    }

    pub fn is_chargedback(&self) -> (r: bool)
        ensures
            r == (self.state is Chargedback),
    {
        self.state == TransactionState::Chargedback
    }

    /// `Normal -> Disputed`; fails on a transaction already disputed or
    /// already charged back, leaving it unchanged.
    pub fn mark_disputed(&mut self) -> (r: Result<(), TxError>)
        ensures
            old(self).state is Disputed ==> r is Err && r->Err_0 == TxError::AlreadyDisputed,
            old(self).state is Chargedback ==> r is Err && r->Err_0 == TxError::AlreadyChargedback,
            old(self).state is Normal ==> r is Ok,
            r is Err ==> *final(self) == *old(self),
            r is Ok ==> *final(self) == (MoneyTransaction {
                state: TransactionState::Disputed,
                ..*old(self)
            }),
    {
        if self.state == TransactionState::Disputed {
            return Err(TxError::AlreadyDisputed);
        }
        if self.state == TransactionState::Chargedback {
            return Err(TxError::AlreadyChargedback);
        }
        self.state = TransactionState::Disputed;
        Ok(())
    }

    /// `Disputed -> Normal`; fails unless currently disputed.
    pub fn resolve_dispute(&mut self) -> (r: Result<(), TxError>)
        ensures
            !(old(self).state is Disputed) ==> r is Err && r->Err_0 == TxError::NotDisputed,
            old(self).state is Disputed ==> r is Ok,
            r is Err ==> *final(self) == *old(self),
            r is Ok ==> *final(self) == (MoneyTransaction {
                state: TransactionState::Normal,
                ..*old(self)
            }),
    {
        if self.state != TransactionState::Disputed {
            return Err(TxError::NotDisputed);
        }
        self.state = TransactionState::Normal;
        Ok(())
    }

    /// `Disputed -> Chargedback`; fails unless currently disputed.
    pub fn mark_chargedback(&mut self) -> (r: Result<(), TxError>)
        ensures
            !(old(self).state is Disputed) ==> r is Err && r->Err_0 == TxError::NotDisputed,
            old(self).state is Disputed ==> r is Ok,
            r is Err ==> *final(self) == *old(self),
            r is Ok ==> *final(self) == (MoneyTransaction {
                state: TransactionState::Chargedback,
                ..*old(self)
            }),
    {
        if self.state != TransactionState::Disputed {
            return Err(TxError::NotDisputed);
        }
        self.state = TransactionState::Chargedback;
        Ok(())
    }
}

/// One element of the input stream: the five transaction kinds.
#[derive(Clone, Copy, PartialEq, Eq, Structural, Debug)]
pub enum Transaction {
    Deposit(MoneyTransaction),
    Withdrawal(MoneyTransaction),
    Dispute(ClientTransaction),
    Resolve(ClientTransaction),
    Chargeback(ClientTransaction),
}

impl Transaction {
    /// A money transaction enters the stream with a strictly positive amount
    /// and in the `Normal` state; the other variants carry neither.
    /// `MoneyTransaction::new` establishes this once, and the account relies
    /// on it rather than re-validating.
    pub open spec fn well_formed(self) -> bool {
        match self {
            Transaction::Deposit(m) => m.amount > 0 && m.state is Normal,
            Transaction::Withdrawal(m) => m.amount > 0 && m.state is Normal,
            _ => true,
        }
    }

    /// The owning client, whatever the variant.
    pub open spec fn spec_client_id(self) -> u16 {
        match self {
            Transaction::Deposit(m) => m.id.client,
            Transaction::Withdrawal(m) => m.id.client,
            Transaction::Dispute(id) => id.client,
            Transaction::Resolve(id) => id.client,
            Transaction::Chargeback(id) => id.client,
        }
    }

    /// The transaction id carried or referenced, whatever the variant.
    pub open spec fn spec_transaction_id(self) -> u32 {
        match self {
            Transaction::Deposit(m) => m.id.tx,
            Transaction::Withdrawal(m) => m.id.tx,
            Transaction::Dispute(id) => id.tx,
            Transaction::Resolve(id) => id.tx,
            Transaction::Chargeback(id) => id.tx,
        }
    }

    pub fn client_id(&self) -> (r: u16)
        ensures
            r == self.spec_client_id(),
    {
        match self {
            Transaction::Deposit(m) | Transaction::Withdrawal(m) => m.id.client,
            Transaction::Dispute(id) | Transaction::Resolve(id) | Transaction::Chargeback(id) => {
                id.client
            },
        }
    }

    pub fn transaction_id(&self) -> (r: u32)
        ensures
            r == self.spec_transaction_id(),
    {
        match self {
            Transaction::Deposit(m) | Transaction::Withdrawal(m) => m.id.tx,
            Transaction::Dispute(id) | Transaction::Resolve(id) | Transaction::Chargeback(id) => {
                id.tx
            },
        }
    }
}

} // verus!
