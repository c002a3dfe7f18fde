use vstd::prelude::*;

verus! {

/// Why an account refused a transaction.
#[derive(Clone, Copy, PartialEq, Eq, Structural, Debug)]
pub enum TxError {
    /// The account is locked and the transaction is not a chargeback.
    AccountLocked,
    /// A money transaction re-used a transaction id already in the ledger.
    DuplicateTransactionId(u32),
    /// A withdrawal asked for more than the available balance.
    InsufficientFunds,
    /// A dispute targeted a transaction that is already under dispute.
    AlreadyDisputed,
    /// A dispute targeted a transaction that was already charged back.
    AlreadyChargedback,
    /// A resolve or chargeback targeted a transaction that is not disputed.
    NotDisputed,
    /// A dispute, resolve or chargeback referenced an unknown transaction id.
    TransactionNotFound,
    /// A money transaction was built with a non-positive amount.
    InvalidAmount,
}

/// Why an input record could not be decoded into a transaction.
#[derive(PartialEq, Eq, Debug)]
pub enum DecodeError {
    /// A deposit record came without an amount field.
    DepositRequiresAmount,
    /// A withdrawal record came without an amount field.
    WithdrawalRequiresAmount,
    /// The record's kind label is none of the five known kinds.
    UnknownKind(String),
    /// The record's amount is not strictly positive.
    InvalidAmount,
}

/// The character for a single decimal digit value.
pub open spec fn digit_char(d: nat) -> char {
    if d == 0 {
        '0'
    } else if d == 1 {
        '1'
    } else if d == 2 {
        '2'
    } else if d == 3 {
        '3'
    } else if d == 4 {
        '4'
    } else if d == 5 {
        '5'
    } else if d == 6 {
        '6'
    } else if d == 7 {
        '7'
    } else if d == 8 {
        '8'
    } else {
        '9'
    }
}

/// The decimal rendering of a number, most significant digit first.
pub open spec fn decimal_digits(n: nat) -> Seq<char>
    decreases n,
{
    if n < 10 {
        seq![digit_char(n)]
    } else {
        decimal_digits(n / 10).push(digit_char(n % 10))
    }
}

/// Relies on `format!` of std: a `u32` is displayed as its decimal digits,
/// most significant first, with no sign and no leading zeros.
#[verifier::external_body]
fn duplicate_id_text(tx_id: u32) -> (r: String)
    ensures
        r@ == "Transaction ID "@ + decimal_digits(tx_id as nat) + " already exists"@,
{
    format!("Transaction ID {} already exists", tx_id)
}

/// Relies on `format!` of std: a `&str` is displayed as its own characters.
#[verifier::external_body]
fn unknown_kind_text(kind: &str) -> (r: String)
    ensures
        r@ == "Unknown transaction type: "@ + kind@,
{
    format!("Unknown transaction type: {}", kind)
}

/// The text of each account error.
pub open spec fn tx_error_text(e: TxError) -> Seq<char> {
    match e {
        TxError::AccountLocked => "Account is locked"@,
        TxError::DuplicateTransactionId(tx_id) => "Transaction ID "@ + decimal_digits(
            tx_id as nat,
        ) + " already exists"@,
        TxError::InsufficientFunds => "Insufficient funds"@,
        TxError::AlreadyDisputed => "Transaction is already under dispute"@,
        TxError::AlreadyChargedback => "Cannot dispute a chargedback transaction"@,
        TxError::NotDisputed => "Transaction is not under dispute"@,
        TxError::TransactionNotFound => "Transaction not found"@,
        TxError::InvalidAmount => "Transaction amount must be positive"@,
    }
}

/// The text of each decode error.
pub open spec fn decode_error_text(e: DecodeError) -> Seq<char> {
    match e {
        DecodeError::DepositRequiresAmount => "Deposit requires an amount"@,
        DecodeError::WithdrawalRequiresAmount => "Withdrawal requires an amount"@,
        DecodeError::UnknownKind(kind) => "Unknown transaction type: "@ + kind@,
        DecodeError::InvalidAmount => "Transaction amount must be positive"@,
    }
}

impl TxError {
    /// A human-readable description of the error.
    pub fn message(&self) -> (r: String)
        ensures
            r@ == tx_error_text(*self),
    {
        match self {
            TxError::AccountLocked => "Account is locked".to_owned(),
            TxError::DuplicateTransactionId(tx_id) => duplicate_id_text(*tx_id),
            TxError::InsufficientFunds => "Insufficient funds".to_owned(),
            TxError::AlreadyDisputed => "Transaction is already under dispute".to_owned(),
            TxError::AlreadyChargedback => "Cannot dispute a chargedback transaction".to_owned(),
            TxError::NotDisputed => "Transaction is not under dispute".to_owned(),
            TxError::TransactionNotFound => "Transaction not found".to_owned(),
            TxError::InvalidAmount => "Transaction amount must be positive".to_owned(),
        }
    }
}

impl DecodeError {
    /// A human-readable description of the error.
    pub fn message(&self) -> (r: String)
        ensures
            r@ == decode_error_text(*self),
    {
        match self {
            DecodeError::DepositRequiresAmount => "Deposit requires an amount".to_owned(),
            DecodeError::WithdrawalRequiresAmount => "Withdrawal requires an amount".to_owned(),
            DecodeError::UnknownKind(kind) => unknown_kind_text(kind.as_str()),
            DecodeError::InvalidAmount => "Transaction amount must be positive".to_owned(),
        }
    }
}

} // verus!
