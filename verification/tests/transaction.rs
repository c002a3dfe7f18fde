// Transaction value types and the money-transaction state machine.
// Amounts are in minor currency units with four decimal places.

use payments::errors::TxError;
use payments::transaction::{ClientTransaction, MoneyTransaction, Transaction};

#[test]
fn test_money_transaction_creation() {
    let result = MoneyTransaction::new(1, 100, 50_0000);
    assert!(result.is_ok());

    let tx = result.unwrap();
    assert_eq!(tx.id.client, 1);
    assert_eq!(tx.id.tx, 100);
    assert_eq!(tx.amount, 50_0000);
}

#[test]
fn test_money_transaction_validation() {
    let result = MoneyTransaction::new(1, 100, 0);
    assert!(result.is_err());

    let result = MoneyTransaction::new(1, 100, -10_0000);
    assert!(result.is_err());
}

#[test]
fn test_transaction_client_id() {
    let tx = Transaction::Deposit(MoneyTransaction::new(5, 200, 100_0000).unwrap());
    assert_eq!(tx.client_id(), 5);

    let dispute = Transaction::Dispute(ClientTransaction::new(10, 300));
    assert_eq!(dispute.client_id(), 10);
}

#[test]
fn test_state_machine_transitions() {
    let mut tx = MoneyTransaction::new(1, 1, 10_0000).unwrap();
    assert!(!tx.is_disputed());
    assert!(!tx.is_chargedback());

    assert!(tx.mark_disputed().is_ok());
    assert!(tx.is_disputed());

    // Disputed transactions cannot be disputed again.
    let again = tx.mark_disputed();
    assert!(again.is_err());
    assert_eq!(again.unwrap_err().message(), "Transaction is already under dispute");

    assert!(tx.resolve_dispute().is_ok());
    assert!(!tx.is_disputed());

    assert!(tx.mark_disputed().is_ok());
    assert!(tx.mark_chargedback().is_ok());
    assert!(tx.is_chargedback());

    // Chargedback is terminal: no further dispute or resolve.
    let redispute = tx.mark_disputed();
    assert!(redispute.is_err());
    assert_eq!(redispute.unwrap_err().message(), "Cannot dispute a chargedback transaction");
    assert!(tx.resolve_dispute().is_err());
}

#[test]
fn test_transaction_id_accessor() {
    let tx = Transaction::Withdrawal(MoneyTransaction::new(3, 77, 5_0000).unwrap());
    assert_eq!(tx.transaction_id(), 77);

    let resolve = Transaction::Resolve(ClientTransaction::new(3, 78));
    assert_eq!(resolve.transaction_id(), 78);
}

#[test]
fn test_error_messages() {
    assert_eq!(TxError::DuplicateTransactionId(42).message(), "Transaction ID 42 already exists");
    assert_eq!(
        TxError::DuplicateTransactionId(4_000_000_000).message(),
        "Transaction ID 4000000000 already exists"
    );
    assert_eq!(TxError::InsufficientFunds.message(), "Insufficient funds");
    assert_eq!(TxError::AccountLocked.message(), "Account is locked");
}
