//! The ledger driver and the end-to-end transaction scenarios.
//! Amounts count ten-thousandths of a currency unit: 10000 is 1.0 unit.

use transaction_manager::client::{initialize_client, Client};
use transaction_manager::transaction::{get_next_transaction, Transaction, TransactionType};
use transaction_manager::transaction_error::TransactionErrorTypes;
use transaction_manager::transaction_manager::{get_client, update_client};

fn deposit(client_id: u16, id: u32, amount: i64) -> Transaction {
    Transaction {
        transaction_type: TransactionType::Deposit,
        client_id,
        id,
        amount: Some(amount),
    }
}

fn withdrawal(client_id: u16, id: u32, amount: i64) -> Transaction {
    Transaction {
        transaction_type: TransactionType::Withdrawal,
        client_id,
        id,
        amount: Some(amount),
    }
}

fn reference(transaction_type: TransactionType, client_id: u16, id: u32) -> Transaction {
    Transaction {
        transaction_type,
        client_id,
        id,
        amount: None,
    }
}

#[test]
fn test_update_client() {
    let mut clients: Vec<(u16, Client)> = Vec::new();
    update_client(&mut clients, deposit(0, 0, 12000)).unwrap();
    assert_eq!(clients.len(), 1);
    let client = get_client(&clients, 0).unwrap().clone();
    assert_eq!(client.id, 0);
    assert_eq!(client.available, 12000);
    assert_eq!(client.held, 0);
    assert_eq!(client.total, 12000);
    assert_eq!(client.locked, false);
    assert_eq!(client.locked, false);
    assert_eq!(client.get_transactions(0).unwrap().len(), 1);
}

#[test]
fn single_deposit_snapshot() {
    let mut clients: Vec<(u16, Client)> = Vec::new();
    update_client(&mut clients, deposit(1, 1, 10000)).unwrap();
    let client = get_client(&clients, 1).unwrap();
    assert_eq!(client.available, 10000);
    assert_eq!(client.held, 0);
    assert_eq!(client.total, 10000);
    assert_eq!(client.locked, false);
}

#[test]
fn dispute_holds_referenced_deposit() {
    let mut clients: Vec<(u16, Client)> = Vec::new();
    update_client(&mut clients, deposit(2, 2, 20000)).unwrap();
    update_client(&mut clients, deposit(2, 3, 13000)).unwrap();
    update_client(&mut clients, reference(TransactionType::Dispute, 2, 2)).unwrap();
    let client = get_client(&clients, 2).unwrap();
    assert_eq!(client.available, 13000);
    assert_eq!(client.held, 20000);
    assert_eq!(client.total, 33000);
    assert_eq!(client.locked, false);
}

#[test]
fn resolve_releases_disputed_funds() {
    let mut clients: Vec<(u16, Client)> = Vec::new();
    update_client(&mut clients, deposit(2, 2, 20000)).unwrap();
    update_client(&mut clients, deposit(2, 3, 13000)).unwrap();
    update_client(&mut clients, reference(TransactionType::Dispute, 2, 2)).unwrap();
    update_client(&mut clients, reference(TransactionType::Resolve, 2, 2)).unwrap();
    let client = get_client(&clients, 2).unwrap();
    assert_eq!(client.available, 33000);
    assert_eq!(client.held, 0);
    assert_eq!(client.total, 33000);
    assert_eq!(client.locked, false);
}

#[test]
fn chargeback_locks_account() {
    let mut clients: Vec<(u16, Client)> = Vec::new();
    update_client(&mut clients, deposit(4, 4, 50000)).unwrap();
    update_client(&mut clients, reference(TransactionType::Dispute, 4, 4)).unwrap();
    update_client(&mut clients, reference(TransactionType::Chargeback, 4, 4)).unwrap();
    {
        let client = get_client(&clients, 4).unwrap();
        assert_eq!(client.available, 0);
        assert_eq!(client.held, 0);
        assert_eq!(client.total, 0);
        assert_eq!(client.locked, true);
    }
    let err = update_client(&mut clients, deposit(4, 5, 10000)).unwrap_err();
    assert!(matches!(err.error_type, TransactionErrorTypes::AccountLocked));
    let client = get_client(&clients, 4).unwrap();
    assert_eq!(client.available, 0);
    assert_eq!(client.held, 0);
    assert_eq!(client.total, 0);
    assert_eq!(client.locked, true);
    assert!(client.get_transactions(5).is_none());
}

#[test]
fn overdraft_is_rejected() {
    let fresh = Client {
        id: 5,
        available: 0,
        held: 0,
        total: 0,
        locked: false,
        transactions: Vec::new(),
    };
    let err = fresh.apply_transaction(withdrawal(5, 5, 100000)).unwrap_err();
    assert!(matches!(
        err.error_type,
        TransactionErrorTypes::InsufficientFunds
    ));
    assert_eq!(err.client.available, 0);
    assert_eq!(err.client.held, 0);
    assert_eq!(err.client.total, 0);
    assert_eq!(err.client.locked, false);
    assert!(err.client.get_transactions(5).is_none());
}

#[test]
fn unknown_reference_is_rejected() {
    let mut clients: Vec<(u16, Client)> = Vec::new();
    update_client(&mut clients, deposit(6, 10, 10000)).unwrap();
    let err = update_client(&mut clients, reference(TransactionType::Dispute, 6, 999))
        .unwrap_err();
    assert!(matches!(
        err.error_type,
        TransactionErrorTypes::InvalidIdReferenced
    ));
    let client = get_client(&clients, 6).unwrap();
    assert_eq!(client.available, 10000);
    assert_eq!(client.held, 0);
    assert_eq!(client.total, 10000);
    assert_eq!(client.locked, false);
    assert!(client.get_transactions(999).is_none());
}

#[test]
fn smallest_unit_is_accepted_and_zero_is_not() {
    let client = initialize_client(deposit(7, 1, 1)).unwrap();
    assert_eq!(client.available, 1);
    assert_eq!(client.total, 1);
    let err = client.clone().apply_deposit(deposit(7, 2, 0)).unwrap_err();
    assert!(matches!(
        err.error_type,
        TransactionErrorTypes::NonPositiveAmount
    ));
    let err = client.apply_withdrawal(withdrawal(7, 3, 0)).unwrap_err();
    assert!(matches!(
        err.error_type,
        TransactionErrorTypes::NonPositiveAmount
    ));
}

#[test]
fn withdrawal_of_entire_balance() {
    let client = initialize_client(deposit(8, 1, 12345)).unwrap();
    let client = client.apply_withdrawal(withdrawal(8, 2, 12345)).unwrap();
    assert_eq!(client.available, 0);
    assert_eq!(client.held, 0);
    assert_eq!(client.total, 0);
    assert_eq!(client.locked, false);
}

#[test]
fn dispute_of_withdrawal_moves_its_amount() {
    let client = initialize_client(deposit(9, 1, 50000)).unwrap();
    let client = client.apply_withdrawal(withdrawal(9, 2, 20000)).unwrap();
    let client = client
        .apply_dispute(reference(TransactionType::Dispute, 9, 2))
        .unwrap();
    assert_eq!(client.available, 10000);
    assert_eq!(client.held, 20000);
    assert_eq!(client.total, 30000);
    assert_eq!(client.locked, false);
}

#[test]
fn balances_stay_conserved() {
    let mut clients: Vec<(u16, Client)> = Vec::new();
    let stream = [
        deposit(3, 1, 40000),
        deposit(3, 2, 12345),
        withdrawal(3, 3, 9999),
        reference(TransactionType::Dispute, 3, 2),
        reference(TransactionType::Resolve, 3, 2),
        reference(TransactionType::Dispute, 3, 3),
        reference(TransactionType::Chargeback, 3, 3),
    ];
    for transaction in stream {
        let _ = update_client(&mut clients, transaction);
        let client = get_client(&clients, 3).unwrap();
        assert_eq!(client.total, client.available + client.held);
    }
}

#[test]
fn rejected_transaction_changes_nothing() {
    let mut clients: Vec<(u16, Client)> = Vec::new();
    update_client(&mut clients, deposit(11, 1, 10000)).unwrap();
    let err = update_client(
        &mut clients,
        Transaction {
            transaction_type: TransactionType::Dispute,
            client_id: 11,
            id: 1,
            amount: Some(5000),
        },
    )
    .unwrap_err();
    assert!(matches!(
        err.error_type,
        TransactionErrorTypes::HasMeaninglessAmount
    ));
    let client = get_client(&clients, 11).unwrap();
    assert_eq!(client.available, 10000);
    assert_eq!(client.held, 0);
    assert_eq!(client.total, 10000);
    assert_eq!(client.locked, false);
    assert_eq!(client.get_transactions(1).unwrap().len(), 1);
}

#[test]
fn missing_amount_is_rejected() {
    let client = initialize_client(deposit(12, 1, 10000)).unwrap();
    let err = client
        .apply_deposit(Transaction {
            transaction_type: TransactionType::Deposit,
            client_id: 12,
            id: 2,
            amount: None,
        })
        .unwrap_err();
    assert!(matches!(
        err.error_type,
        TransactionErrorTypes::MissingRequiredAmount
    ));
    assert!(err.client.get_transactions(2).is_none());
}

#[test]
fn first_transaction_must_be_deposit() {
    let mut clients: Vec<(u16, Client)> = Vec::new();
    let err = update_client(&mut clients, withdrawal(13, 1, 10000)).unwrap_err();
    assert!(matches!(
        err.error_type,
        TransactionErrorTypes::FirstTransactionNotDeposit
    ));
    assert!(clients.is_empty());
    let err = initialize_client(reference(TransactionType::Dispute, 13, 1)).unwrap_err();
    assert!(matches!(
        err.error_type,
        TransactionErrorTypes::FirstTransactionNotDeposit
    ));
}

#[test]
fn unrepresentable_balance_is_rejected() {
    let client = initialize_client(deposit(14, 1, 10000)).unwrap();
    let err = client.apply_deposit(deposit(14, 2, i64::MAX)).unwrap_err();
    assert!(matches!(err.error_type, TransactionErrorTypes::Unspecified));
    assert_eq!(err.client.available, 10000);
    assert_eq!(err.client.total, 10000);
}

#[test]
fn resolve_without_dispute_only_logs() {
    let client = initialize_client(deposit(15, 1, 10000)).unwrap();
    let client = client
        .apply_resolve(reference(TransactionType::Resolve, 15, 1))
        .unwrap();
    assert_eq!(client.available, 10000);
    assert_eq!(client.held, 0);
    assert_eq!(client.total, 10000);
    assert_eq!(client.locked, false);
    assert_eq!(client.get_transactions(1).unwrap().len(), 2);
    let client = client
        .apply_chargeback(reference(TransactionType::Chargeback, 15, 1))
        .unwrap();
    assert_eq!(client.total, 10000);
    assert_eq!(client.locked, false);
    assert_eq!(client.get_transactions(1).unwrap().len(), 3);
}

#[test]
fn accounts_stay_sorted_by_client_id() {
    let mut clients: Vec<(u16, Client)> = Vec::new();
    update_client(&mut clients, deposit(30, 1, 10000)).unwrap();
    update_client(&mut clients, deposit(10, 2, 20000)).unwrap();
    update_client(&mut clients, deposit(20, 3, 30000)).unwrap();
    let ids: Vec<u16> = clients.iter().map(|entry| entry.0).collect();
    assert_eq!(ids, vec![10, 20, 30]);
    assert_eq!(get_client(&clients, 20).unwrap().available, 30000);
}

#[test]
fn error_messages_name_the_failure() {
    let mut clients: Vec<(u16, Client)> = Vec::new();
    let err = update_client(&mut clients, withdrawal(16, 1, 10000)).unwrap_err();
    assert_eq!(err.message(), "First transaction is not deposit.");
    update_client(&mut clients, deposit(16, 1, 10000)).unwrap();
    let err = update_client(&mut clients, withdrawal(16, 2, 20000)).unwrap_err();
    assert_eq!(err.message(), "Insufficient funds for transaction.");
}

#[test]
fn sample_transaction_is_a_deposit() {
    let sample = get_next_transaction().unwrap();
    assert_eq!(sample.transaction_type, TransactionType::Deposit);
    assert_eq!(sample.client_id, 0);
    assert_eq!(sample.id, 0);
    assert_eq!(sample.amount, Some(12000));
}
