use csv::{ReaderBuilder, Trim};
use rust_decimal::Decimal;

use rust_coding_challenge::account::Account;
use rust_coding_challenge::amount::Amount;
use rust_coding_challenge::engine::Engine;
use rust_coding_challenge::transaction::{ClientId, Transaction, TransactionType};

/// The amount a decimal literal denotes.
fn amount(text: &str) -> Amount {
    let d: Decimal = text.parse().expect("valid decimal");
    Amount::from_parts(d.is_sign_negative(), d.mantissa().unsigned_abs(), d.scale())
}

/// Reads the rows of a CSV (header first, columns in any order) as transactions.
fn transactions(input: &str) -> Vec<Transaction> {
    let mut reader = ReaderBuilder::new()
        .trim(Trim::All)
        .flexible(true)
        .from_reader(input.as_bytes());
    let headers = reader.headers().expect("header should be readable").clone();
    let column = |name: &str| headers.iter().position(|h| h == name);
    let mut rows = Vec::new();
    for record in reader.records() {
        let record = record.expect("record should be readable");
        let field = |name: &str| column(name).and_then(|i| record.get(i)).unwrap_or("");
        let kind = match field("type") {
            "deposit" => TransactionType::Deposit,
            "withdrawal" => TransactionType::Withdrawal,
            "dispute" => TransactionType::Dispute,
            "resolve" => TransactionType::Resolve,
            "chargeback" => TransactionType::Chargeback,
            other => panic!("unknown type {other}"),
        };
        let amount_text = field("amount");
        rows.push(Transaction {
            kind,
            client: field("client").parse().expect("client"),
            tx: field("tx").parse().expect("tx"),
            amount: if amount_text.is_empty() { None } else { Some(amount(amount_text)) },
        });
    }
    rows
}

/// Builds an engine from a CSV.
fn engine(input: &str) -> Engine {
    let mut engine = Engine::new();
    for transaction in transactions(input) {
        engine.apply(&transaction);
    }
    engine
}

fn account(engine: &Engine, client: ClientId) -> Account {
    engine
        .accounts()
        .into_iter()
        .find(|account| account.client() == client)
        .expect("client should have an account")
}

/// Asserts the balances of `client`, given as decimal literals.
fn assert_balances(engine: &Engine, client: ClientId, available: &str, held: &str) {
    let account = account(engine, client);

    assert_eq!(account.available(), amount(available), "available funds");
    assert_eq!(account.held(), amount(held), "held funds");
    assert_eq!(account.total(), amount(&(amount_decimal(available) + amount_decimal(held)).to_string()), "total funds");
}

fn amount_decimal(text: &str) -> Decimal {
    text.parse().expect("valid decimal")
}

#[test]
fn applies_the_example_from_the_specification() {
    let engine = engine(
        "type, client, tx, amount\n\
         deposit, 1, 1, 1.0\n\
         deposit, 2, 2, 2.0\n\
         deposit, 1, 3, 2.0\n\
         withdrawal, 1, 4, 1.5\n\
         withdrawal, 2, 5, 3.0\n",
    );

    assert_eq!(engine.accounts().len(), 2);
    assert_balances(&engine, 1, "1.5", "0");
    assert_balances(&engine, 2, "2.0", "0");
    assert!(engine.accounts().iter().all(|account| !account.is_locked()));
}

#[test]
fn opens_an_account_for_an_unknown_client() {
    let engine = engine("type,client,tx,amount\ndeposit,7,1,1.0\n");

    assert_balances(&engine, 7, "1.0", "0");
}

#[test]
fn keeps_the_full_precision_of_four_decimal_places() {
    let engine = engine(
        "type,client,tx,amount\n\
         deposit,1,1,1.0001\n\
         deposit,1,2,0.0002\n\
         withdrawal,1,3,0.0003\n",
    );

    assert_balances(&engine, 1, "1.0000", "0");
}

#[test]
fn ignores_a_withdrawal_that_available_funds_do_not_cover() {
    let engine = engine(
        "type,client,tx,amount\n\
         deposit,1,1,1.0\n\
         withdrawal,1,2,1.0001\n",
    );

    assert_balances(&engine, 1, "1.0", "0");
}

#[test]
fn ignores_a_repeated_transaction_id() {
    let engine = engine(
        "type,client,tx,amount\n\
         deposit,1,1,1.0\n\
         deposit,1,1,5.0\n",
    );

    assert_balances(&engine, 1, "1.0", "0");
}

#[test]
fn ignores_deposits_and_withdrawals_without_a_usable_amount() {
    let engine = engine(
        "type,client,tx,amount\n\
         deposit,1,1,1.0\n\
         deposit,1,2,\n\
         deposit,1,3,-5.0\n\
         withdrawal,1,4,-1.0\n",
    );

    assert_balances(&engine, 1, "1.0", "0");
}

#[test]
fn holds_the_funds_of_a_disputed_deposit() {
    let engine = engine(
        "type,client,tx,amount\n\
         deposit,1,1,1.0\n\
         deposit,1,2,2.0\n\
         dispute,1,1,\n",
    );

    assert_balances(&engine, 1, "2.0", "1.0");
    assert!(!account(&engine, 1).is_locked());
}

#[test]
fn lets_a_dispute_drive_the_available_funds_negative() {
    let engine = engine(
        "type,client,tx,amount\n\
         deposit,1,1,1.0\n\
         withdrawal,1,2,1.0\n\
         dispute,1,1,\n",
    );

    assert_balances(&engine, 1, "-1.0", "1.0");
}

#[test]
fn releases_the_held_funds_on_a_resolve() {
    let engine = engine(
        "type,client,tx,amount\n\
         deposit,1,1,1.0\n\
         dispute,1,1,\n\
         resolve,1,1,\n",
    );

    assert_balances(&engine, 1, "1.0", "0");
    assert!(!account(&engine, 1).is_locked());
}

#[test]
fn reverses_the_transaction_and_freezes_the_account_on_a_chargeback() {
    let engine = engine(
        "type,client,tx,amount\n\
         deposit,1,1,1.0\n\
         deposit,1,2,2.0\n\
         dispute,1,1,\n\
         chargeback,1,1,\n",
    );

    assert_balances(&engine, 1, "2.0", "0");
    assert!(account(&engine, 1).is_locked());
}

#[test]
fn ignores_transactions_on_a_frozen_account() {
    let engine = engine(
        "type,client,tx,amount\n\
         deposit,1,1,1.0\n\
         deposit,1,2,2.0\n\
         dispute,1,1,\n\
         chargeback,1,1,\n\
         deposit,1,3,10.0\n\
         withdrawal,1,4,1.0\n\
         dispute,1,2,\n",
    );

    assert_balances(&engine, 1, "2.0", "0");
    assert!(account(&engine, 1).is_locked());
}

#[test]
fn ignores_a_dispute_referring_to_an_unknown_transaction() {
    let engine = engine(
        "type,client,tx,amount\n\
         deposit,1,1,1.0\n\
         dispute,1,404,\n",
    );

    assert_balances(&engine, 1, "1.0", "0");
}

#[test]
fn ignores_a_dispute_over_a_withdrawal() {
    let engine = engine(
        "type,client,tx,amount\n\
         deposit,1,1,2.0\n\
         withdrawal,1,2,1.0\n\
         dispute,1,2,\n",
    );

    assert_balances(&engine, 1, "1.0", "0");
}

#[test]
fn ignores_a_dispute_raised_by_another_client() {
    let engine = engine(
        "type,client,tx,amount\n\
         deposit,1,1,1.0\n\
         deposit,2,2,1.0\n\
         dispute,2,1,\n",
    );

    assert_balances(&engine, 1, "1.0", "0");
    assert_balances(&engine, 2, "1.0", "0");
}

#[test]
fn ignores_a_dispute_over_an_already_disputed_transaction() {
    let engine = engine(
        "type,client,tx,amount\n\
         deposit,1,1,1.0\n\
         dispute,1,1,\n\
         dispute,1,1,\n",
    );

    assert_balances(&engine, 1, "0", "1.0");
}

#[test]
fn ignores_a_resolve_for_a_transaction_that_is_not_under_dispute() {
    let engine = engine(
        "type,client,tx,amount\n\
         deposit,1,1,1.0\n\
         resolve,1,1,\n\
         resolve,1,404,\n",
    );

    assert_balances(&engine, 1, "1.0", "0");
}

#[test]
fn ignores_a_chargeback_for_a_transaction_that_is_not_under_dispute() {
    let engine = engine(
        "type,client,tx,amount\n\
         deposit,1,1,1.0\n\
         chargeback,1,1,\n\
         chargeback,1,404,\n",
    );

    assert_balances(&engine, 1, "1.0", "0");
    assert!(!account(&engine, 1).is_locked());
}

#[test]
fn allows_a_resolved_transaction_to_be_disputed_again() {
    let engine = engine(
        "type,client,tx,amount\n\
         deposit,1,1,1.0\n\
         dispute,1,1,\n\
         resolve,1,1,\n\
         dispute,1,1,\n",
    );

    assert_balances(&engine, 1, "0", "1.0");
}

#[test]
fn keeps_the_accounts_of_different_clients_apart() {
    let engine = engine(
        "type,client,tx,amount\n\
         deposit,2,1,5.0\n\
         deposit,1,2,1.0\n\
         withdrawal,2,3,2.0\n\
         dispute,1,2,\n",
    );

    let clients: Vec<_> = engine.accounts().iter().map(|account| account.client()).collect();
    assert_eq!(clients, vec![1, 2], "accounts are ordered by client ID");
    assert_balances(&engine, 1, "0", "1.0");
    assert_balances(&engine, 2, "3.0", "0");
}

#[test]
fn engine_leaves_the_account_untouched_when_a_deposit_would_overflow() {
    let mut account = Account::new(1);
    assert!(account.deposit(Amount::max()));
    assert!(!account.deposit(Amount::max()));
    assert_eq!(account.available(), Amount::max());
    assert_eq!(account.total(), Amount::max());
}

#[test]
fn engine_leaves_the_account_untouched_when_the_total_would_overflow() {
    let mut account = Account::new(1);
    assert!(account.deposit(Amount::max()));
    assert!(account.hold(Amount::max()));

    assert!(!account.deposit(Amount::one()));
    assert_eq!(account.available(), Amount::zero());
    assert_eq!(account.held(), Amount::max());
    assert_eq!(account.total(), Amount::max());
}

#[test]
fn opens_an_account_for_a_rejected_deposit_or_withdrawal() {
    let engine = engine(
        "type,client,tx,amount\n\
         withdrawal,3,1,1.0\n\
         deposit,4,2,\n\
         deposit,5,3,-1.0\n\
         dispute,6,1,\n\
         resolve,7,1,\n\
         chargeback,8,1,\n",
    );

    let clients: Vec<_> = engine.accounts().iter().map(|account| account.client()).collect();
    assert_eq!(clients, vec![3, 4, 5]);
    for client in [3, 4, 5] {
        assert_balances(&engine, client, "0", "0");
        assert!(!account(&engine, client).is_locked());
    }
}

#[test]
fn cuts_a_deposit_to_four_decimal_places() {
    let engine = engine(
        "type,client,tx,amount\n\
         deposit,1,1,1.23456789\n\
         deposit,1,2,0.00009\n\
         dispute,1,2,\n",
    );

    let account = account(&engine, 1);
    assert_eq!(account.available(), amount("1.2345"));
    assert_eq!(account.held(), amount("0"));
    assert_eq!(account.available().scale(), 4);
}

#[test]
fn starts_with_no_accounts() {
    assert!(Engine::new().accounts().is_empty());
}
