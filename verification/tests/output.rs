use csv::{ReaderBuilder, Trim};
use rust_decimal::Decimal;

use rust_coding_challenge::amount::Amount;
use rust_coding_challenge::engine::Engine;
use rust_coding_challenge::output::{
    fixed_point, format_amount, report_columns, report_rows, AccountReport,
};
use rust_coding_challenge::transaction::{Transaction, TransactionType};

fn amount(text: &str) -> Amount {
    let d: Decimal = text.parse().expect("valid decimal");
    Amount::from_parts(d.is_sign_negative(), d.mantissa().unsigned_abs(), d.scale())
}

fn transactions(input: &str) -> Vec<Transaction> {
    let mut reader = ReaderBuilder::new()
        .trim(Trim::All)
        .flexible(true)
        .from_reader(input.as_bytes());
    let headers = reader.headers().expect("header should be readable").clone();
    let column = |name: &str| headers.iter().position(|h| h == name);
    let mut rows = Vec::new();
    for record in reader.records() {
        let record = record.expect("record should be readable");
        let field = |name: &str| column(name).and_then(|i| record.get(i)).unwrap_or("");
        let kind = match field("type") {
            "deposit" => TransactionType::Deposit,
            "withdrawal" => TransactionType::Withdrawal,
            "dispute" => TransactionType::Dispute,
            "resolve" => TransactionType::Resolve,
            "chargeback" => TransactionType::Chargeback,
            other => panic!("unknown type {other}"),
        };
        let amount_text = field("amount");
        rows.push(Transaction {
            kind,
            client: field("client").parse().expect("client"),
            tx: field("tx").parse().expect("tx"),
            amount: if amount_text.is_empty() { None } else { Some(amount(amount_text)) },
        });
    }
    rows
}

/// The report for a CSV input, one line per account after the header.
fn report(input: &str) -> String {
    let mut engine = Engine::new();
    for transaction in transactions(input) {
        engine.apply(&transaction);
    }

    let mut output = report_columns().join(",");
    output.push('\n');
    for row in report_rows(&engine.accounts()) {
        output.push_str(&format!(
            "{},{},{},{},{}\n",
            row.client, row.available, row.held, row.total, row.locked
        ));
    }
    output
}

#[test]
fn writes_only_the_header_when_there_are_no_accounts() {
    assert_eq!(report(""), "client,available,held,total,locked\n");
}

#[test]
fn writes_the_example_from_the_specification() {
    let report = report(
        "type, client, tx, amount\n\
         deposit, 1, 1, 1.0\n\
         deposit, 2, 2, 2.0\n\
         deposit, 1, 3, 2.0\n\
         withdrawal, 1, 4, 1.5\n\
         withdrawal, 2, 5, 3.0\n",
    );

    assert_eq!(
        report,
        "client,available,held,total,locked\n\
         1,1.5000,0.0000,1.5000,false\n\
         2,2.0000,0.0000,2.0000,false\n"
    );
}

#[test]
fn reports_held_funds_and_a_frozen_account() {
    let report = report(
        "type,client,tx,amount\n\
         deposit,1,1,1.5000\n\
         deposit,1,2,2.0\n\
         dispute,1,1,\n\
         deposit,2,3,1.0\n\
         dispute,2,3,\n\
         chargeback,2,3,\n",
    );

    assert_eq!(
        report,
        "client,available,held,total,locked\n\
         1,2.0000,1.5000,3.5000,false\n\
         2,0.0000,0.0000,0.0000,true\n"
    );
}

#[test]
fn reports_negative_balances() {
    let report = report(
        "type,client,tx,amount\n\
         deposit,1,1,1.5\n\
         withdrawal,1,2,1.5\n\
         dispute,1,1,\n\
         chargeback,1,1,\n",
    );

    assert_eq!(
        report,
        "client,available,held,total,locked\n\
         1,-1.5000,0.0000,-1.5000,true\n"
    );
}

#[test]
fn reports_an_account_whose_transactions_were_all_rejected() {
    let report = report("type,client,tx,amount\nwithdrawal,9,1,1.0\n");

    assert_eq!(
        report,
        "client,available,held,total,locked\n\
         9,0.0000,0.0000,0.0000,false\n"
    );
}

#[test]
fn reports_amounts_with_a_precision_of_four_decimal_places() {
    let report = report(
        "type,client,tx,amount\n\
         deposit,1,1,0.0001\n\
         deposit,1,2,10\n\
         deposit,2,3,0.00004\n",
    );

    assert_eq!(
        report,
        "client,available,held,total,locked\n\
         1,10.0001,0.0000,10.0001,false\n\
         2,0.0000,0.0000,0.0000,false\n"
    );
}

#[test]
fn reports_available_and_held_that_add_up_to_the_reported_total() {
    let report = report(
        "type,client,tx,amount\n\
         deposit,1,1,0.00005\n\
         deposit,1,2,0.00005\n\
         dispute,1,2,\n",
    );

    assert_eq!(
        report,
        "client,available,held,total,locked\n\
         1,0.0000,0.0000,0.0000,false\n"
    );
}

#[test]
fn reports_a_zero_balance_without_a_negative_sign() {
    assert_eq!(format_amount(Amount::zero()), "0.0000");
    assert_eq!(format_amount(Amount::zero().neg()), "0.0000");
}

#[test]
fn reports_the_largest_balance_an_account_can_hold() {
    assert_eq!(
        format_amount(Amount::max()),
        "79228162514264337593543950335.0000"
    );
    assert_eq!(
        format_amount(Amount::max().neg()),
        "-79228162514264337593543950335.0000"
    );
}

#[test]
fn reports_a_balance_whose_digits_exceed_a_fixed_width_buffer() {
    let balance = amount("1234567890123456789012345678");

    assert_eq!(format_amount(balance), "1234567890123456789012345678.0000");
}

#[test]
fn reports_a_large_balance_driven_negative_by_a_chargeback() {
    let report = report(
        "type,client,tx,amount\n\
         deposit,1,1,1234567890123456789012345678\n\
         withdrawal,1,2,1234567890123456789012345678\n\
         dispute,1,1,\n\
         chargeback,1,1,\n",
    );

    assert_eq!(
        report,
        "client,available,held,total,locked\n\
         1,-1234567890123456789012345678.0000,0.0000,-1234567890123456789012345678.0000,true\n"
    );
}

#[test]
fn cuts_a_fraction_finer_than_the_reported_scale() {
    let balance = amount("1.23456789");

    assert_eq!(format_amount(balance), "1.2345");
}

#[test]
fn writes_the_report_documented_for_the_sample_input() {
    let input = "type, client, tx, amount\n\
                 deposit, 1, 1, 1.0\n\
                 deposit, 2, 2, 2.0\n\
                 deposit, 1, 3, 2.0\n\
                 withdrawal, 1, 4, 1.5\n\
                 withdrawal, 2, 5, 3.0\n\
                 deposit, 3, 6, 5.0\n\
                 deposit, 3, 7, 1.5\n\
                 dispute, 3, 6,\n\
                 resolve, 3, 6,\n\
                 deposit, 4, 8, 4.0\n\
                 dispute, 4, 8,\n\
                 deposit, 5, 9, 3.0\n\
                 dispute, 5, 9,\n\
                 chargeback, 5, 9,\n\
                 deposit, 5, 10, 1.0\n";

    assert_eq!(
        report(input),
        "client,available,held,total,locked\n\
         1,1.5000,0.0000,1.5000,false\n\
         2,2.0000,0.0000,2.0000,false\n\
         3,6.5000,0.0000,6.5000,false\n\
         4,0.0000,4.0000,4.0000,false\n\
         5,0.0000,0.0000,0.0000,true\n"
    );
}

#[test]
fn pads_or_cuts_the_fraction_of_a_rendered_decimal() {
    assert_eq!(fixed_point("12"), "12.0000");
    assert_eq!(fixed_point("-3.5"), "-3.5000");
    assert_eq!(fixed_point("0.123456"), "0.1234");
    assert_eq!(fixed_point(""), ".0000");
    assert_eq!(fixed_point("7."), "7.0000");
}

#[test]
fn renders_a_report_row_from_an_account() {
    let mut account = rust_coding_challenge::account::Account::new(42);
    assert!(account.deposit(amount("3.25")));
    assert!(account.hold(amount("1")));
    let row = AccountReport::from(&account);
    assert_eq!(row.client, 42);
    assert_eq!(row.available, "2.2500");
    assert_eq!(row.held, "1.0000");
    assert_eq!(row.total, "3.2500");
    assert!(!row.locked);
}

#[test]
fn names_the_report_columns_in_order() {
    assert_eq!(
        report_columns(),
        vec!["client", "available", "held", "total", "locked"]
    );
}

#[test]
fn reports_a_balance_of_four_places_as_text_that_reads_back_to_it() {
    for text in ["-12.3456", "0.0001", "-0.0007", "42", "7.5", "-1234567.8900"] {
        let balance = amount(text);
        let shown = format_amount(balance);
        let fraction = shown.split('.').nth(1).expect("a fractional part");
        assert_eq!(fraction.len(), 4);
        assert_eq!(shown.starts_with('-'), text.starts_with('-'));
        let read: Decimal = shown.parse().expect("valid decimal");
        let expected: Decimal = text.parse().expect("valid decimal");
        assert_eq!(read, expected);
    }
}
