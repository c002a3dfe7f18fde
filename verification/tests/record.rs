// Decoding input records into typed transactions.
// Amounts are in minor currency units with four decimal places.

use payments::record::CsvRecord;
use payments::transaction::Transaction;

#[test]
fn test_deposit_transaction() {
    let record = CsvRecord {
        tx_type: "deposit".to_string(),
        client: 1,
        tx: 100,
        amount: Some(50_0000),
    };

    let result = record.into_transaction();
    assert!(result.is_ok());

    let transaction = result.unwrap();
    assert_eq!(transaction.client_id(), 1);

    if let Transaction::Deposit(money_tx) = transaction {
        assert_eq!(money_tx.id.tx, 100);
        assert_eq!(money_tx.amount, 50_0000);
    } else {
        panic!("Expected Deposit transaction");
    }
}

#[test]
fn test_withdrawal_transaction() {
    let record = CsvRecord {
        tx_type: "withdrawal".to_string(),
        client: 2,
        tx: 200,
        amount: Some(25_5000),
    };

    let result = record.into_transaction();
    assert!(result.is_ok());

    let transaction = result.unwrap();
    assert_eq!(transaction.client_id(), 2);

    if let Transaction::Withdrawal(money_tx) = transaction {
        assert_eq!(money_tx.id.tx, 200);
        assert_eq!(money_tx.amount, 25_5000);
    } else {
        panic!("Expected Withdrawal transaction");
    }
}

#[test]
fn test_dispute_transaction() {
    let record = CsvRecord { tx_type: "dispute".to_string(), client: 3, tx: 300, amount: None };

    let result = record.into_transaction();
    assert!(result.is_ok());

    let transaction = result.unwrap();
    if let Transaction::Dispute(client_tx) = transaction {
        assert_eq!(client_tx.client, 3);
        assert_eq!(client_tx.tx, 300);
    } else {
        panic!("Expected Dispute transaction");
    }
}

#[test]
fn test_resolve_transaction() {
    let record = CsvRecord { tx_type: "resolve".to_string(), client: 4, tx: 400, amount: None };

    let result = record.into_transaction();
    assert!(result.is_ok());

    let transaction = result.unwrap();
    if let Transaction::Resolve(client_tx) = transaction {
        assert_eq!(client_tx.client, 4);
        assert_eq!(client_tx.tx, 400);
    } else {
        panic!("Expected Resolve transaction");
    }
}

#[test]
fn test_chargeback_transaction() {
    let record = CsvRecord { tx_type: "chargeback".to_string(), client: 5, tx: 500, amount: None };

    let result = record.into_transaction();
    assert!(result.is_ok());

    let transaction = result.unwrap();
    if let Transaction::Chargeback(client_tx) = transaction {
        assert_eq!(client_tx.client, 5);
        assert_eq!(client_tx.tx, 500);
    } else {
        panic!("Expected Chargeback transaction");
    }
}

#[test]
fn test_transaction_type_with_whitespace() {
    let record = CsvRecord {
        tx_type: "  deposit  ".to_string(),
        client: 1,
        tx: 100,
        amount: Some(10_0000),
    };

    let result = record.into_transaction();
    assert!(result.is_ok());
}

#[test]
fn test_deposit_missing_amount() {
    let record = CsvRecord { tx_type: "deposit".to_string(), client: 1, tx: 100, amount: None };

    let result = record.into_transaction();
    assert!(result.is_err());
    assert_eq!(result.unwrap_err().message(), "Deposit requires an amount");
}

#[test]
fn test_withdrawal_missing_amount() {
    let record = CsvRecord { tx_type: "withdrawal".to_string(), client: 1, tx: 100, amount: None };

    let result = record.into_transaction();
    assert!(result.is_err());
    assert_eq!(result.unwrap_err().message(), "Withdrawal requires an amount");
}

#[test]
fn test_unknown_transaction_type() {
    let record = CsvRecord {
        tx_type: "unknown".to_string(),
        client: 1,
        tx: 100,
        amount: Some(10_0000),
    };

    let result = record.into_transaction();
    assert!(result.is_err());
    assert!(result.unwrap_err().message().contains("Unknown transaction type"));
}

#[test]
fn test_non_positive_amount_fails_decode() {
    let record = CsvRecord { tx_type: "deposit".to_string(), client: 1, tx: 100, amount: Some(0) };
    assert!(record.into_transaction().is_err());

    let record = CsvRecord {
        tx_type: "withdrawal".to_string(),
        client: 1,
        tx: 101,
        amount: Some(-3_0000),
    };
    let result = record.into_transaction();
    assert!(result.is_err());
    assert_eq!(result.unwrap_err().message(), "Transaction amount must be positive");
}
