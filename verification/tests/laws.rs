use rust_decimal::Decimal;

use rust_coding_challenge::amount::Amount;
use rust_coding_challenge::engine::{Account, Engine};
use rust_coding_challenge::transaction::{
    ClientId, DisputeState, Transaction, TransactionRecord, TransactionType, TxId,
};

fn amount(text: &str) -> Amount {
    let d: Decimal = text.parse().expect("valid decimal");
    Amount::from_parts(d.is_sign_negative(), d.mantissa().unsigned_abs(), d.scale())
}

fn tx(kind: TransactionType, client: ClientId, tx: TxId, value: Option<&str>) -> Transaction {
    Transaction { kind, client, tx, amount: value.map(amount) }
}

fn snapshot(engine: &Engine) -> Vec<(ClientId, Amount, Amount, bool)> {
    engine
        .accounts()
        .iter()
        .map(|a: &Account| (a.client(), a.available(), a.held(), a.is_locked()))
        .collect()
}

#[test]
fn a_frozen_account_ignores_every_kind_of_transaction() {
    let mut engine = Engine::new();
    engine.apply(&tx(TransactionType::Deposit, 1, 1, Some("3.0")));
    engine.apply(&tx(TransactionType::Deposit, 1, 2, Some("1.0")));
    engine.apply(&tx(TransactionType::Dispute, 1, 1, None));
    engine.apply(&tx(TransactionType::Dispute, 1, 2, None));
    engine.apply(&tx(TransactionType::Chargeback, 1, 1, None));
    let frozen = snapshot(&engine);
    assert!(frozen[0].3);
    for t in [
        tx(TransactionType::Deposit, 1, 3, Some("5.0")),
        tx(TransactionType::Withdrawal, 1, 4, Some("0.5")),
        tx(TransactionType::Dispute, 1, 1, None),
        tx(TransactionType::Resolve, 1, 2, None),
        tx(TransactionType::Chargeback, 1, 2, None),
    ] {
        engine.apply(&t);
        assert_eq!(snapshot(&engine), frozen);
    }
}

#[test]
fn a_transaction_leaves_other_clients_alone() {
    let mut engine = Engine::new();
    engine.apply(&tx(TransactionType::Deposit, 1, 1, Some("2.0")));
    engine.apply(&tx(TransactionType::Deposit, 2, 2, Some("4.0")));
    let before = snapshot(&engine)[1];
    engine.apply(&tx(TransactionType::Withdrawal, 1, 3, Some("1.0")));
    engine.apply(&tx(TransactionType::Dispute, 1, 1, None));
    engine.apply(&tx(TransactionType::Chargeback, 1, 1, None));
    assert_eq!(snapshot(&engine)[1], before);
}

#[test]
fn a_dispute_keeps_the_total_and_a_resolve_undoes_it() {
    let mut engine = Engine::new();
    engine.apply(&tx(TransactionType::Deposit, 1, 1, Some("1.2345")));
    engine.apply(&tx(TransactionType::Deposit, 1, 2, Some("0.5")));
    let before = snapshot(&engine);
    engine.apply(&tx(TransactionType::Dispute, 1, 1, None));
    let disputed = &engine.accounts()[0];
    assert_eq!(disputed.total(), amount("1.7345"));
    assert_eq!(disputed.held(), amount("1.2345"));
    engine.apply(&tx(TransactionType::Resolve, 1, 1, None));
    assert_eq!(snapshot(&engine), before);
}

#[test]
fn only_the_owner_may_dispute_and_unknown_references_are_ignored() {
    let mut engine = Engine::new();
    engine.apply(&tx(TransactionType::Deposit, 1, 1, Some("1.0")));
    engine.apply(&tx(TransactionType::Deposit, 2, 2, Some("1.0")));
    let before = snapshot(&engine);
    for t in [
        tx(TransactionType::Dispute, 2, 1, None),
        tx(TransactionType::Resolve, 2, 1, None),
        tx(TransactionType::Chargeback, 2, 1, None),
        tx(TransactionType::Dispute, 3, 9, None),
    ] {
        engine.apply(&t);
        assert_eq!(snapshot(&engine), before);
    }
}

#[test]
fn a_withdrawal_never_overdraws() {
    let mut engine = Engine::new();
    engine.apply(&tx(TransactionType::Deposit, 1, 1, Some("1.0")));
    engine.apply(&tx(TransactionType::Withdrawal, 1, 2, Some("1.00001")));
    assert_eq!(engine.accounts()[0].available(), amount("0"));
    engine.apply(&tx(TransactionType::Withdrawal, 1, 3, Some("0.0001")));
    assert_eq!(engine.accounts()[0].available(), amount("0"));
}

#[test]
fn a_charged_back_deposit_stays_charged_back() {
    let mut engine = Engine::new();
    engine.apply(&tx(TransactionType::Deposit, 1, 1, Some("1.0")));
    engine.apply(&tx(TransactionType::Dispute, 1, 1, None));
    engine.apply(&tx(TransactionType::Chargeback, 1, 1, None));
    let after = snapshot(&engine);
    engine.apply(&tx(TransactionType::Resolve, 1, 1, None));
    engine.apply(&tx(TransactionType::Dispute, 1, 1, None));
    assert_eq!(snapshot(&engine), after);
    assert_eq!(after[0].1, amount("0"));
    assert!(after[0].3);
}

#[test]
fn builds_a_record_that_is_not_yet_disputed() {
    let record = TransactionRecord::new(4, amount("2.5"));
    assert_eq!(record.client, 4);
    assert_eq!(record.amount, amount("2.5"));
    assert_eq!(record.state, DisputeState::Undisputed);
    assert_eq!(DisputeState::default(), DisputeState::Undisputed);
}

#[test]
fn a_chargeback_removes_the_disputed_deposit_and_freezes_the_account() {
    let mut engine = Engine::new();
    engine.apply(&tx(TransactionType::Deposit, 1, 1, Some("2.5")));
    engine.apply(&tx(TransactionType::Deposit, 1, 2, Some("1.25")));
    engine.apply(&tx(TransactionType::Dispute, 1, 1, None));
    let disputed = &engine.accounts()[0];
    assert_eq!(disputed.available(), amount("1.25"));
    assert_eq!(disputed.held(), amount("2.5"));
    engine.apply(&tx(TransactionType::Chargeback, 1, 1, None));
    let account = &engine.accounts()[0];
    assert_eq!(account.available(), amount("1.25"));
    assert_eq!(account.held(), amount("0"));
    assert_eq!(account.total(), amount("1.25"));
    assert!(account.is_locked());
}

#[test]
fn a_dispute_of_a_deposit_already_under_dispute_is_ignored() {
    let mut engine = Engine::new();
    engine.apply(&tx(TransactionType::Deposit, 1, 1, Some("3")));
    engine.apply(&tx(TransactionType::Dispute, 1, 1, None));
    let disputed = snapshot(&engine);
    engine.apply(&tx(TransactionType::Dispute, 1, 1, None));
    assert_eq!(snapshot(&engine), disputed);
    assert_eq!(disputed[0].1, amount("0"));
    assert_eq!(disputed[0].2, amount("3"));
}
