// Account-level behavior: balances, dispute lifecycle, locking, duplicate
// transaction ids. Amounts are in minor currency units with four decimal
// places, so `100_0000` is 100.00.

use payments::account::Account;
use payments::transaction::{ClientTransaction, MoneyTransaction, Transaction};

#[test]
fn test_account_creation() {
    let account = Account::new(1);
    assert_eq!(account.client, 1);
    assert_eq!(account.available, 0);
    assert_eq!(account.held, 0);
    assert_eq!(account.total, 0);
    assert_eq!(account.locked, false);
}

#[test]
fn test_deposit() {
    let mut account = Account::new(1);
    account.deposit(100_0000);
    assert_eq!(account.available, 100_0000);
    assert_eq!(account.total, 100_0000);
}

#[test]
fn test_withdraw() {
    let mut account = Account::new(1);
    account.deposit(100_0000);

    let result = account.withdraw(50_0000);
    assert!(result.is_ok());
    assert_eq!(account.available, 50_0000);
    assert_eq!(account.total, 50_0000);
}

#[test]
fn test_withdraw_insufficient_funds() {
    let mut account = Account::new(1);
    account.deposit(50_0000);

    let result = account.withdraw(100_0000);
    assert!(result.is_err());
    assert_eq!(account.available, 50_0000);
}

#[test]
fn test_dispute() {
    let mut account = Account::new(1);
    account.deposit(100_0000);
    account.dispute(30_0000);

    assert_eq!(account.available, 70_0000);
    assert_eq!(account.held, 30_0000);
    assert_eq!(account.total, 100_0000);
}

#[test]
fn test_resolve() {
    let mut account = Account::new(1);
    account.deposit(100_0000);
    account.dispute(30_0000);
    account.resolve(30_0000);

    assert_eq!(account.available, 100_0000);
    assert_eq!(account.held, 0);
    assert_eq!(account.total, 100_0000);
}

#[test]
fn test_chargeback() {
    let mut account = Account::new(1);
    account.deposit(100_0000);
    account.dispute(30_0000);
    account.chargeback(30_0000);

    assert_eq!(account.available, 70_0000);
    assert_eq!(account.held, 0);
    assert_eq!(account.total, 70_0000);
    assert_eq!(account.locked, true);
}

#[test]
fn test_resolve_without_dispute() {
    let mut account = Account::new(1);

    let deposit = Transaction::Deposit(MoneyTransaction::new(1, 1, 100_0000).unwrap());
    account.process_transaction(deposit).unwrap();

    let resolve = Transaction::Resolve(ClientTransaction::new(1, 1));
    let result = account.process_transaction(resolve);

    assert!(result.is_err());
    assert_eq!(result.unwrap_err().message(), "Transaction is not under dispute");
}

#[test]
fn test_chargeback_without_dispute() {
    let mut account = Account::new(1);

    let deposit = Transaction::Deposit(MoneyTransaction::new(1, 1, 100_0000).unwrap());
    account.process_transaction(deposit).unwrap();

    let chargeback = Transaction::Chargeback(ClientTransaction::new(1, 1));
    let result = account.process_transaction(chargeback);

    assert!(result.is_err());
    assert_eq!(result.unwrap_err().message(), "Transaction is not under dispute");
}

#[test]
fn test_duplicate_dispute() {
    let mut account = Account::new(1);

    let deposit = Transaction::Deposit(MoneyTransaction::new(1, 1, 100_0000).unwrap());
    account.process_transaction(deposit).unwrap();

    let dispute1 = Transaction::Dispute(ClientTransaction::new(1, 1));
    let result1 = account.process_transaction(dispute1);
    assert!(result1.is_ok());

    let dispute2 = Transaction::Dispute(ClientTransaction::new(1, 1));
    let result2 = account.process_transaction(dispute2);

    assert!(result2.is_err());
    assert_eq!(result2.unwrap_err().message(), "Transaction is already under dispute");
}

#[test]
fn test_dispute_resolve_cycle() {
    let mut account = Account::new(1);

    let deposit = Transaction::Deposit(MoneyTransaction::new(1, 1, 100_0000).unwrap());
    account.process_transaction(deposit).unwrap();
    assert_eq!(account.available, 100_0000);
    assert_eq!(account.held, 0);

    let dispute = Transaction::Dispute(ClientTransaction::new(1, 1));
    account.process_transaction(dispute).unwrap();
    assert_eq!(account.available, 0);
    assert_eq!(account.held, 100_0000);
    assert!(account.ledger.is_disputed(1));

    let resolve = Transaction::Resolve(ClientTransaction::new(1, 1));
    account.process_transaction(resolve).unwrap();
    assert_eq!(account.available, 100_0000);
    assert_eq!(account.held, 0);
    assert!(!account.ledger.is_disputed(1));
}

#[test]
fn test_dispute_chargeback_cycle() {
    let mut account = Account::new(1);

    let deposit = Transaction::Deposit(MoneyTransaction::new(1, 1, 100_0000).unwrap());
    account.process_transaction(deposit).unwrap();
    assert_eq!(account.available, 100_0000);
    assert_eq!(account.held, 0);
    assert_eq!(account.total, 100_0000);

    let dispute = Transaction::Dispute(ClientTransaction::new(1, 1));
    account.process_transaction(dispute).unwrap();
    assert_eq!(account.available, 0);
    assert_eq!(account.held, 100_0000);
    assert_eq!(account.total, 100_0000);
    assert!(account.ledger.is_disputed(1));

    let chargeback = Transaction::Chargeback(ClientTransaction::new(1, 1));
    account.process_transaction(chargeback).unwrap();
    assert_eq!(account.available, 0);
    assert_eq!(account.held, 0);
    assert_eq!(account.total, 0);
    assert_eq!(account.locked, true);
    assert!(!account.ledger.is_disputed(1));
}

#[test]
fn test_duplicate_transaction_id_deposit() {
    let mut account = Account::new(1);

    let deposit1 = Transaction::Deposit(MoneyTransaction::new(1, 1, 100_0000).unwrap());
    let result1 = account.process_transaction(deposit1);
    assert!(result1.is_ok());
    assert_eq!(account.available, 100_0000);

    let deposit2 = Transaction::Deposit(MoneyTransaction::new(1, 1, 50_0000).unwrap());
    let result2 = account.process_transaction(deposit2);

    assert!(result2.is_err());
    assert_eq!(result2.unwrap_err().message(), "Transaction ID 1 already exists");

    assert_eq!(account.available, 100_0000);
}

#[test]
fn test_duplicate_transaction_id_withdrawal() {
    let mut account = Account::new(1);

    let deposit = Transaction::Deposit(MoneyTransaction::new(1, 1, 100_0000).unwrap());
    account.process_transaction(deposit).unwrap();

    let withdrawal1 = Transaction::Withdrawal(MoneyTransaction::new(1, 2, 30_0000).unwrap());
    let result1 = account.process_transaction(withdrawal1);
    assert!(result1.is_ok());
    assert_eq!(account.available, 70_0000);

    let withdrawal2 = Transaction::Withdrawal(MoneyTransaction::new(1, 2, 20_0000).unwrap());
    let result2 = account.process_transaction(withdrawal2);

    assert!(result2.is_err());
    assert_eq!(result2.unwrap_err().message(), "Transaction ID 2 already exists");

    assert_eq!(account.available, 70_0000);
}

#[test]
fn test_duplicate_transaction_id_mixed() {
    let mut account = Account::new(1);

    let deposit = Transaction::Deposit(MoneyTransaction::new(1, 1, 100_0000).unwrap());
    account.process_transaction(deposit).unwrap();

    let withdrawal = Transaction::Withdrawal(MoneyTransaction::new(1, 1, 50_0000).unwrap());
    let result = account.process_transaction(withdrawal);

    assert!(result.is_err());
    assert_eq!(result.unwrap_err().message(), "Transaction ID 1 already exists");

    assert_eq!(account.available, 100_0000);
}

#[test]
fn test_chargedback_transactions_are_marked() {
    let mut account = Account::new(1);

    let deposit = Transaction::Deposit(MoneyTransaction::new(1, 1, 100_0000).unwrap());
    account.process_transaction(deposit).unwrap();

    assert!(!account.ledger.is_chargedback(1));

    let dispute = Transaction::Dispute(ClientTransaction::new(1, 1));
    account.process_transaction(dispute).unwrap();
    assert!(!account.ledger.is_chargedback(1));

    let chargeback = Transaction::Chargeback(ClientTransaction::new(1, 1));
    account.process_transaction(chargeback).unwrap();

    assert!(account.ledger.is_chargedback(1));
    assert_eq!(account.locked, true);
}

#[test]
fn test_multiple_chargebacks_after_account_locked() {
    let mut account = Account::new(1);

    let deposit1 = Transaction::Deposit(MoneyTransaction::new(1, 1, 100_0000).unwrap());
    account.process_transaction(deposit1).unwrap();

    let deposit2 = Transaction::Deposit(MoneyTransaction::new(1, 2, 50_0000).unwrap());
    account.process_transaction(deposit2).unwrap();

    let deposit3 = Transaction::Deposit(MoneyTransaction::new(1, 3, 75_0000).unwrap());
    account.process_transaction(deposit3).unwrap();

    assert_eq!(account.available, 225_0000);
    assert_eq!(account.total, 225_0000);

    let dispute1 = Transaction::Dispute(ClientTransaction::new(1, 1));
    account.process_transaction(dispute1).unwrap();

    let dispute2 = Transaction::Dispute(ClientTransaction::new(1, 2));
    account.process_transaction(dispute2).unwrap();

    let dispute3 = Transaction::Dispute(ClientTransaction::new(1, 3));
    account.process_transaction(dispute3).unwrap();

    assert_eq!(account.available, 0);
    assert_eq!(account.held, 225_0000);
    assert_eq!(account.total, 225_0000);
    assert_eq!(account.locked, false);

    let chargeback1 = Transaction::Chargeback(ClientTransaction::new(1, 1));
    account.process_transaction(chargeback1).unwrap();

    assert_eq!(account.available, 0);
    assert_eq!(account.held, 125_0000);
    assert_eq!(account.total, 125_0000);
    assert_eq!(account.locked, true);
    assert!(account.ledger.is_chargedback(1));

    let chargeback2 = Transaction::Chargeback(ClientTransaction::new(1, 2));
    let result2 = account.process_transaction(chargeback2);
    assert!(result2.is_ok(), "Second chargeback should succeed on locked account");

    assert_eq!(account.available, 0);
    assert_eq!(account.held, 75_0000);
    assert_eq!(account.total, 75_0000);
    assert_eq!(account.locked, true);
    assert!(account.ledger.is_chargedback(2));

    let chargeback3 = Transaction::Chargeback(ClientTransaction::new(1, 3));
    let result3 = account.process_transaction(chargeback3);
    assert!(result3.is_ok(), "Third chargeback should succeed on locked account");

    assert_eq!(account.available, 0);
    assert_eq!(account.held, 0);
    assert_eq!(account.total, 0);
    assert_eq!(account.locked, true);
    assert!(account.ledger.is_chargedback(3));
}

#[test]
fn test_locked_account_rejects_non_chargeback_transactions() {
    let mut account = Account::new(1);

    let deposit1 = Transaction::Deposit(MoneyTransaction::new(1, 1, 100_0000).unwrap());
    account.process_transaction(deposit1).unwrap();

    let dispute1 = Transaction::Dispute(ClientTransaction::new(1, 1));
    account.process_transaction(dispute1).unwrap();

    let chargeback1 = Transaction::Chargeback(ClientTransaction::new(1, 1));
    account.process_transaction(chargeback1).unwrap();

    assert_eq!(account.locked, true);

    let deposit2 = Transaction::Deposit(MoneyTransaction::new(1, 2, 50_0000).unwrap());
    let result = account.process_transaction(deposit2);
    assert!(result.is_err());
    assert_eq!(result.unwrap_err().message(), "Account is locked");

    let withdrawal = Transaction::Withdrawal(MoneyTransaction::new(1, 3, 10_0000).unwrap());
    let result = account.process_transaction(withdrawal);
    assert!(result.is_err());
    assert_eq!(result.unwrap_err().message(), "Account is locked");
}

#[test]
fn test_ledger_is_disputed() {
    let mut account = Account::new(1);

    let deposit = Transaction::Deposit(MoneyTransaction::new(1, 1, 100_0000).unwrap());
    account.process_transaction(deposit).unwrap();

    assert!(!account.ledger.is_disputed(1));

    let dispute = Transaction::Dispute(ClientTransaction::new(1, 1));
    account.process_transaction(dispute).unwrap();
    assert!(account.ledger.is_disputed(1));

    let resolve = Transaction::Resolve(ClientTransaction::new(1, 1));
    account.process_transaction(resolve).unwrap();
    assert!(!account.ledger.is_disputed(1));
}

#[test]
fn test_ledger_is_chargedback() {
    let mut account = Account::new(1);

    let deposit = Transaction::Deposit(MoneyTransaction::new(1, 1, 100_0000).unwrap());
    account.process_transaction(deposit).unwrap();

    assert!(!account.ledger.is_chargedback(1));

    let dispute = Transaction::Dispute(ClientTransaction::new(1, 1));
    account.process_transaction(dispute).unwrap();
    assert!(!account.ledger.is_chargedback(1));

    let chargeback = Transaction::Chargeback(ClientTransaction::new(1, 1));
    account.process_transaction(chargeback).unwrap();
    assert!(account.ledger.is_chargedback(1));
}

#[test]
fn test_ledger_is_disputed_and_is_chargedback_for_nonexistent_tx() {
    let account = Account::new(1);

    assert!(!account.ledger.is_disputed(999));
    assert!(!account.ledger.is_chargedback(999));
}

#[test]
fn test_chargeback_twice_rejected() {
    let mut account = Account::new(1);

    let deposit = Transaction::Deposit(MoneyTransaction::new(1, 1, 100_0000).unwrap());
    account.process_transaction(deposit).unwrap();
    account.process_transaction(Transaction::Dispute(ClientTransaction::new(1, 1))).unwrap();
    account.process_transaction(Transaction::Chargeback(ClientTransaction::new(1, 1))).unwrap();

    // A chargeback is the one transaction a locked account accepts, but a
    // charged-back transaction is terminal and no longer disputed.
    let chargeback_again = Transaction::Chargeback(ClientTransaction::new(1, 1));
    let result = account.process_transaction(chargeback_again);
    assert!(result.is_err());
    assert_eq!(result.unwrap_err().message(), "Transaction is not under dispute");
}

#[test]
fn test_dispute_unknown_transaction() {
    let mut account = Account::new(1);

    let dispute = Transaction::Dispute(ClientTransaction::new(1, 7));
    let result = account.process_transaction(dispute);
    assert!(result.is_err());
    assert_eq!(result.unwrap_err().message(), "Transaction not found");
}
