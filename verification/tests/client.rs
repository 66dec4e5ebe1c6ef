use k_exercise::amount::Amount;
use k_exercise::client::{Client, ClientError};
use k_exercise::transaction::Transaction;

fn deposit(client: u16, tx: u32, amount: Amount) -> Transaction {
    Transaction::Deposit { client, tx, amount }
}

fn withdrawal(client: u16, tx: u32, amount: Amount) -> Transaction {
    Transaction::Withdrawal { client, tx, amount }
}

fn dispute(client: u16, tx: u32) -> Transaction {
    Transaction::Dispute { client, tx }
}

fn resolve(client: u16, tx: u32) -> Transaction {
    Transaction::Resolve { client, tx }
}

fn chargeback(client: u16, tx: u32) -> Transaction {
    Transaction::Chargeback { client, tx }
}

#[test]
fn several_deposits_accumulate_for_single_client() {
    let mut client = Client::new(1);
    client
        .process_transaction(deposit(1, 1, Amount::new(10, 1)))
        .unwrap();
    client
        .process_transaction(deposit(1, 2, Amount::new(25, 1)))
        .unwrap();
    client
        .process_transaction(deposit(1, 3, Amount::new(2500, 4)))
        .unwrap();
    assert_eq!(client.available, Amount::new(37500, 4));
    assert_eq!(client.held, Amount::zero());
    assert!(!client.locked);
}

#[test]
fn new_client_has_zeroed_state() {
    let client = Client::new(1);
    assert_eq!(client.client_id, 1);
    assert_eq!(client.available, Amount::zero());
    assert_eq!(client.held, Amount::zero());
    assert!(!client.locked);
}

#[test]
fn deposit_increases_available() {
    let mut client = Client::new(1);
    client
        .process_transaction(deposit(1, 1, Amount::new(15, 1)))
        .unwrap();
    assert_eq!(client.available, Amount::new(15, 1));
    assert_eq!(client.held, Amount::zero());
}

#[test]
fn withdrawal_decreases_available() {
    let mut client = Client::new(1);
    client
        .process_transaction(deposit(1, 1, Amount::new(20, 1)))
        .unwrap();
    client
        .process_transaction(withdrawal(1, 2, Amount::new(5, 1)))
        .unwrap();
    assert_eq!(client.available, Amount::new(15, 1));
}

#[test]
fn withdrawal_fails_with_insufficient_funds() {
    let mut client = Client::new(1);
    let result = client.process_transaction(withdrawal(1, 1, Amount::new(10, 1)));
    assert!(matches!(result, Err(ClientError::InsufficientFunds)));
    assert_eq!(client.available, Amount::zero());
}

#[test]
fn deposit_rejected_when_locked() {
    let mut client = Client::new(1);
    client.locked = true;
    let result = client.process_transaction(deposit(1, 1, Amount::new(10, 1)));
    assert!(matches!(result, Err(ClientError::AccountLocked)));
    assert_eq!(client.available, Amount::zero());
}

#[test]
fn duplicate_tx_id_is_rejected() {
    let mut client = Client::new(1);
    client
        .process_transaction(deposit(1, 1, Amount::new(10, 1)))
        .unwrap();
    let result = client.process_transaction(deposit(1, 1, Amount::new(20, 1)));
    assert!(matches!(
        result,
        Err(ClientError::TransactionReferenceConflict)
    ));
    assert_eq!(client.available, Amount::new(10, 1));
}

#[test]
fn dispute_deposit_moves_funds_to_held() {
    let mut client = Client::new(1);
    client
        .process_transaction(deposit(1, 1, Amount::new(10, 1)))
        .unwrap();
    client.process_transaction(dispute(1, 1)).unwrap();
    assert_eq!(client.available, Amount::zero());
    assert_eq!(client.held, Amount::new(10, 1));
}

#[test]
fn dispute_withdrawal_holds_amount_without_touching_available() {
    let mut client = Client::new(1);
    client
        .process_transaction(deposit(1, 1, Amount::new(50, 1)))
        .unwrap();
    client
        .process_transaction(withdrawal(1, 2, Amount::new(20, 1)))
        .unwrap();
    client.process_transaction(dispute(1, 2)).unwrap();
    assert_eq!(client.available, Amount::new(30, 1));
    assert_eq!(client.held, Amount::new(20, 1));
}

#[test]
fn dispute_unknown_tx_is_invalid() {
    let mut client = Client::new(1);
    let result = client.process_transaction(dispute(1, 99));
    assert!(matches!(result, Err(ClientError::InvalidTransaction)));
}

#[test]
fn resolve_deposit_dispute_returns_funds_to_available() {
    let mut client = Client::new(1);
    client
        .process_transaction(deposit(1, 1, Amount::new(10, 1)))
        .unwrap();
    client.process_transaction(dispute(1, 1)).unwrap();
    client.process_transaction(resolve(1, 1)).unwrap();
    assert_eq!(client.available, Amount::new(10, 1));
    assert_eq!(client.held, Amount::zero());
    assert!(!client.locked);
}

#[test]
fn resolve_withdrawal_dispute_releases_held_amount() {
    let mut client = Client::new(1);
    client
        .process_transaction(deposit(1, 1, Amount::new(50, 1)))
        .unwrap();
    client
        .process_transaction(withdrawal(1, 2, Amount::new(20, 1)))
        .unwrap();
    client.process_transaction(dispute(1, 2)).unwrap();
    client.process_transaction(resolve(1, 2)).unwrap();
    assert_eq!(client.available, Amount::new(30, 1));
    assert_eq!(client.held, Amount::zero());
}

#[test]
fn resolve_unknown_tx_is_invalid() {
    let mut client = Client::new(1);
    let result = client.process_transaction(resolve(1, 99));
    assert!(matches!(result, Err(ClientError::InvalidTransaction)));
}

#[test]
fn chargeback_deposit_dispute_locks_account_and_removes_held_funds() {
    let mut client = Client::new(1);
    client
        .process_transaction(deposit(1, 1, Amount::new(10, 1)))
        .unwrap();
    client.process_transaction(dispute(1, 1)).unwrap();
    client.process_transaction(chargeback(1, 1)).unwrap();
    assert_eq!(client.available, Amount::zero());
    assert_eq!(client.held, Amount::zero());
    assert!(client.locked);
}

#[test]
fn chargeback_withdrawal_dispute_locks_account_and_restores_available() {
    let mut client = Client::new(1);
    client
        .process_transaction(deposit(1, 1, Amount::new(50, 1)))
        .unwrap();
    client
        .process_transaction(withdrawal(1, 2, Amount::new(20, 1)))
        .unwrap();
    client.process_transaction(dispute(1, 2)).unwrap();
    client.process_transaction(chargeback(1, 2)).unwrap();
    assert_eq!(client.available, Amount::new(50, 1));
    assert_eq!(client.held, Amount::zero());
    assert!(client.locked);
}

#[test]
fn chargeback_unknown_tx_is_invalid() {
    let mut client = Client::new(1);
    let result = client.process_transaction(chargeback(1, 99));
    assert!(matches!(result, Err(ClientError::InvalidTransaction)));
}
