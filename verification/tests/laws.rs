use k_exercise::amount::Amount;
use k_exercise::client::{Client, ClientError, DisputeState};
use k_exercise::engine::TransactionEngine;
use k_exercise::record::Record;
use k_exercise::transaction::Transaction;

fn deposit(client: u16, tx: u32, amount: Amount) -> Transaction {
    Transaction::Deposit { client, tx, amount }
}

fn withdrawal(client: u16, tx: u32, amount: Amount) -> Transaction {
    Transaction::Withdrawal { client, tx, amount }
}

fn dispute(client: u16, tx: u32) -> Transaction {
    Transaction::Dispute { client, tx }
}

fn resolve(client: u16, tx: u32) -> Transaction {
    Transaction::Resolve { client, tx }
}

fn chargeback(client: u16, tx: u32) -> Transaction {
    Transaction::Chargeback { client, tx }
}

fn balances(client: &Client) -> (String, String) {
    (client.available.to_text(), client.held.to_text())
}

#[test]
fn rejected_transaction_leaves_the_account_unchanged() {
    let mut client = Client::new(1);
    assert_eq!(client.process_transaction(deposit(1, 1, Amount::new(10, 1))), Ok(()));
    let before = balances(&client);
    assert_eq!(
        client.process_transaction(withdrawal(1, 2, Amount::new(20, 1))),
        Err(ClientError::InsufficientFunds)
    );
    assert_eq!(client.process_transaction(resolve(1, 1)), Err(ClientError::InvalidTransaction));
    assert_eq!(balances(&client), before);
    assert_eq!(client.transactions.len(), 1);
    assert!(!client.locked);
}

#[test]
fn locked_account_stays_locked_and_refuses_funds_movements() {
    let mut client = Client::new(1);
    client.process_transaction(deposit(1, 1, Amount::new(5, 0))).unwrap();
    client.process_transaction(deposit(1, 2, Amount::new(3, 0))).unwrap();
    client.process_transaction(dispute(1, 1)).unwrap();
    client.process_transaction(chargeback(1, 1)).unwrap();
    assert!(client.locked);
    assert_eq!(
        client.process_transaction(deposit(1, 3, Amount::new(1, 0))),
        Err(ClientError::AccountLocked)
    );
    assert_eq!(
        client.process_transaction(withdrawal(1, 4, Amount::new(1, 0))),
        Err(ClientError::AccountLocked)
    );
    client.process_transaction(dispute(1, 2)).unwrap();
    client.process_transaction(resolve(1, 2)).unwrap();
    assert!(client.locked);
}

#[test]
fn resolve_restores_the_balances_before_the_dispute() {
    let mut client = Client::new(1);
    client.process_transaction(deposit(1, 1, Amount::new(25, 1))).unwrap();
    client.process_transaction(withdrawal(1, 2, Amount::new(5, 1))).unwrap();
    let before = balances(&client);
    client.process_transaction(dispute(1, 1)).unwrap();
    assert_eq!(balances(&client), ("-0.5".to_string(), "2.5".to_string()));
    client.process_transaction(resolve(1, 1)).unwrap();
    assert_eq!(balances(&client), (before.0, "0.0".to_string()));
    assert_eq!(client.transactions[&1].state, DisputeState::Resolved);
}

#[test]
fn chargeback_of_a_deposit_takes_the_deposit_back() {
    let mut client = Client::new(1);
    client.process_transaction(deposit(1, 1, Amount::new(4, 0))).unwrap();
    client.process_transaction(deposit(1, 2, Amount::new(25, 1))).unwrap();
    client.process_transaction(dispute(1, 2)).unwrap();
    client.process_transaction(chargeback(1, 2)).unwrap();
    assert_eq!(balances(&client), ("4.0".to_string(), "0.0".to_string()));
    assert!(client.locked);
}

#[test]
fn chargeback_of_a_withdrawal_gives_the_withdrawal_back() {
    let mut client = Client::new(1);
    client.process_transaction(deposit(1, 1, Amount::new(4, 0))).unwrap();
    client.process_transaction(withdrawal(1, 2, Amount::new(15, 1))).unwrap();
    client.process_transaction(dispute(1, 2)).unwrap();
    assert_eq!(balances(&client), ("2.5".to_string(), "1.5".to_string()));
    client.process_transaction(chargeback(1, 2)).unwrap();
    assert_eq!(balances(&client), ("4.0".to_string(), "0.0".to_string()));
    assert!(client.locked);
}

#[test]
fn settled_transaction_cannot_be_disputed_again() {
    let mut client = Client::new(1);
    client.process_transaction(deposit(1, 1, Amount::new(1, 0))).unwrap();
    client.process_transaction(dispute(1, 1)).unwrap();
    client.process_transaction(resolve(1, 1)).unwrap();
    assert_eq!(client.process_transaction(dispute(1, 1)), Err(ClientError::InvalidTransaction));
    assert_eq!(client.process_transaction(chargeback(1, 1)), Err(ClientError::InvalidTransaction));
}

#[test]
fn transaction_id_of_a_withdrawal_cannot_be_reused_by_a_deposit() {
    let mut client = Client::new(1);
    client.process_transaction(deposit(1, 1, Amount::new(2, 0))).unwrap();
    client.process_transaction(withdrawal(1, 2, Amount::new(1, 0))).unwrap();
    assert_eq!(
        client.process_transaction(deposit(1, 2, Amount::new(1, 0))),
        Err(ClientError::TransactionReferenceConflict)
    );
    assert_eq!(
        client.process_transaction(withdrawal(1, 1, Amount::new(1, 0))),
        Err(ClientError::TransactionReferenceConflict)
    );
    assert_eq!(client.available.to_text(), "1");
}

#[test]
fn withdrawal_of_exactly_the_available_funds_is_allowed() {
    let mut client = Client::new(1);
    client.process_transaction(deposit(1, 1, Amount::new(15, 1))).unwrap();
    assert_eq!(client.process_transaction(withdrawal(1, 2, Amount::new(1500, 3))), Ok(()));
    assert_eq!(client.available.to_text(), "0.000");
}

#[test]
fn rejected_transaction_still_opens_an_account() {
    let mut engine = TransactionEngine::new();
    assert_eq!(engine.process_transaction(dispute(7, 1)), Err(ClientError::InvalidTransaction));
    assert_eq!(engine.clients.len(), 1);
    let client = &engine.clients[&7];
    assert_eq!(client.client_id, 7);
    assert_eq!(balances(client), ("0".to_string(), "0".to_string()));
}

#[test]
fn engine_refuses_a_deposit_that_would_overflow_and_changes_nothing() {
    let record = Record {
        transaction_type: "deposit".to_string(),
        client: 1,
        tx: 1,
        amount: "79228162514264337593543950335".to_string(),
    };
    let mut engine = TransactionEngine::new();
    let first = Transaction::try_from(&record).unwrap();
    assert_eq!(engine.try_process_transaction(first), Some(Ok(())));
    let second = Transaction::Deposit {
        client: 1,
        tx: 2,
        amount: Amount::new(1, 0),
    };
    assert!(!engine.arithmetic_fits(&second));
    assert_eq!(engine.try_process_transaction(second), None);
    assert_eq!(engine.clients[&1].transactions.len(), 1);
    assert_eq!(engine.clients[&1].available.to_text(), "79228162514264337593543950335");
}

#[test]
fn client_error_messages() {
    assert_eq!(ClientError::AccountLocked.message(), "account is locked");
    assert_eq!(ClientError::InsufficientFunds.message(), "insufficient available funds");
    assert_eq!(ClientError::InvalidTransaction.message(), "invalid transaction");
    assert_eq!(
        ClientError::TransactionReferenceConflict.message(),
        "transaction id already used"
    );
}
