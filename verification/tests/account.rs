use rust_coding_challenge::account::Account;
use rust_coding_challenge::amount::Amount;

#[test]
fn opens_an_empty_account_that_is_not_frozen() {
    let account = Account::new(7);

    assert_eq!(account.client(), 7);
    assert_eq!(account.available(), Amount::zero());
    assert_eq!(account.held(), Amount::zero());
    assert_eq!(account.total(), Amount::zero());
    assert!(!account.is_locked());
}

#[test]
fn account_leaves_the_account_untouched_when_a_deposit_would_overflow() {
    let mut account = Account::new(1);
    assert!(account.deposit(Amount::max()));
    assert!(!account.deposit(Amount::max()));
    assert_eq!(account.available(), Amount::max());
    assert_eq!(account.total(), Amount::max());
}

#[test]
fn account_leaves_the_account_untouched_when_the_total_would_overflow() {
    let mut account = Account::new(1);
    assert!(account.deposit(Amount::max()));
    assert!(account.hold(Amount::max()));

    assert!(!account.deposit(Amount::one()));
    assert_eq!(account.available(), Amount::zero());
    assert_eq!(account.held(), Amount::max());
    assert_eq!(account.total(), Amount::max());
}

#[test]
fn leaves_the_account_untouched_when_a_dispute_would_overflow() {
    let mut account = Account::new(1);
    assert!(account.deposit(Amount::max()));
    assert!(account.hold(Amount::max()));

    assert!(!account.hold(Amount::max()));
    assert_eq!(account.available(), Amount::zero());
    assert_eq!(account.held(), Amount::max());
}

#[test]
fn refuses_a_withdrawal_that_the_available_funds_do_not_cover() {
    let mut account = Account::new(3);
    assert!(account.deposit(Amount::new(10, 1)));
    assert!(!account.withdraw(Amount::new(10001, 4)));
    assert_eq!(account.available(), Amount::new(1, 0));
    assert!(account.withdraw(Amount::new(1, 0)));
    assert_eq!(account.available(), Amount::zero());
}

#[test]
fn releases_what_was_held() {
    let mut account = Account::new(3);
    assert!(account.deposit(Amount::new(25, 1)));
    assert!(account.hold(Amount::new(15, 1)));
    assert_eq!(account.available(), Amount::new(1, 0));
    assert_eq!(account.held(), Amount::new(15, 1));
    assert_eq!(account.total(), Amount::new(25, 1));
    assert!(account.release(Amount::new(15, 1)));
    assert_eq!(account.available(), Amount::new(25, 1));
    assert_eq!(account.held(), Amount::zero());
    assert!(!account.is_locked());
}

#[test]
fn reversing_removes_the_held_funds_and_freezes_the_account() {
    let mut account = Account::new(3);
    assert!(account.deposit(Amount::new(2, 0)));
    assert!(account.hold(Amount::new(5, 1)));
    assert!(account.reverse(Amount::new(5, 1)));
    assert_eq!(account.available(), Amount::new(15, 1));
    assert_eq!(account.held(), Amount::zero());
    assert_eq!(account.total(), Amount::new(15, 1));
    assert!(account.is_locked());
}

#[test]
fn refuses_a_reversal_that_would_overflow_and_stays_open() {
    let mut account = Account::new(3);
    assert!(account.deposit(Amount::max()));
    assert!(account.hold(Amount::max()));
    assert!(!account.reverse(Amount::max().neg()));
    assert!(!account.is_locked());
    assert_eq!(account.held(), Amount::max());
}
