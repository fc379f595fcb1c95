use txledger::account::{Account, AccountBalance, BalanceChange};
use txledger::decimal::CheckedDecimal;
use txledger::engine::{Chargeback, Deposit, Dispute, Resolve};
use txledger::error::Error;

fn decimal(value: &str) -> CheckedDecimal {
    CheckedDecimal::parse(value).unwrap()
}

fn decimal_max() -> CheckedDecimal {
    CheckedDecimal::parse("79228162514264337593543950335").unwrap()
}

#[test]
fn test_balance() {
    let mut balance = AccountBalance::new();
    balance.available = decimal("100.00");
    balance.held = decimal("50.00");

    // Successful mutation
    balance
        .mutate(BalanceChange::AddAvailable(decimal("20.00")))
        .unwrap();

    assert_eq!(balance.available, decimal("120.00"));
    assert_eq!(balance.held, decimal("50.00"));
    assert_eq!(balance.computed_total, decimal("170.00"));

    // Failed mutation: the second step overflows
    balance
        .mutate(BalanceChange::SubAvailableAddHeld(
            decimal("200.00"),
            decimal_max(),
        ))
        .unwrap_err();

    // Ensure the balance is rolled back to the previous state
    assert_eq!(balance.available, decimal("120.00"));
    assert_eq!(balance.held, decimal("50.00"));
    assert_eq!(balance.computed_total, decimal("170.00"));
}

#[test]
fn test_balance_underflow_rolls_back() {
    let mut balance = AccountBalance::new();
    balance.available = decimal("-79228162514264337593543950335");
    let r = balance.mutate(BalanceChange::SubAvailable(decimal_max()));
    assert!(matches!(r, Err(Error::DecimalUnderflow)));
    assert_eq!(balance.available, decimal("-79228162514264337593543950335"));
    assert_eq!(balance.held, decimal("0"));
}

#[test]
fn test_balance_total_overflow_rolls_back() {
    let mut balance = AccountBalance::new();
    balance.held = decimal_max();
    let r = balance.mutate(BalanceChange::AddAvailable(decimal("1")));
    match r {
        Err(Error::InvalidTotalAmount { source }) => {
            assert!(matches!(*source, Error::DecimalOverflow));
        }
        other => panic!("expected a total overflow, got {:?}", other),
    }
    assert_eq!(balance.available, decimal("0"));
    assert_eq!(balance.held, decimal_max());
    assert_eq!(balance.computed_total, decimal("0"));
}

#[test]
fn test_chargeback_replay_is_rejected() {
    let mut account = Account::new();
    account
        .deposit(Deposit {
            transaction_id: 7,
            amount: decimal("30.00"),
        })
        .unwrap();
    account
        .start_dispute(Dispute {
            original_transaction_id: 7,
        })
        .unwrap();
    account
        .chargeback(Chargeback {
            original_transaction_id: 7,
        })
        .unwrap();
    assert!(account.locked());
    assert_eq!(account.balance().held, decimal("0.00"));

    let second = account.chargeback(Chargeback {
        original_transaction_id: 7,
    });
    assert!(matches!(second, Err(Error::DisputeAlreadyChargedback(7))));
    assert!(account.locked());
    assert_eq!(account.balance().held, decimal("0.00"));
    assert_eq!(account.balance().available, decimal("0.00"));
}

#[test]
fn test_duplicate_deposit_always_rejected() {
    let mut account = Account::new();
    account
        .deposit(Deposit {
            transaction_id: 1,
            amount: decimal("10.00"),
        })
        .unwrap();

    // A repeat of the id is rejected before any balance work, even with an
    // amount whose balance update would overflow.
    let r = account.deposit(Deposit {
        transaction_id: 1,
        amount: decimal_max(),
    });
    assert!(matches!(r, Err(Error::DuplicateTransactionId(1))));
    assert_eq!(account.balance().available, decimal("10.00"));
    assert_eq!(account.balance().computed_total, decimal("10.00"));
}

#[test]
fn test_failed_deposit_rolls_record_back() {
    let mut account = Account::new();
    account
        .deposit(Deposit {
            transaction_id: 1,
            amount: decimal_max(),
        })
        .unwrap();
    // The second deposit overflows `available`; its record must vanish too,
    // so the same id is accepted once room exists again.
    let r = account.deposit(Deposit {
        transaction_id: 2,
        amount: decimal("1.00"),
    });
    assert!(matches!(r, Err(Error::DecimalOverflow)));
    assert_eq!(account.balance().available, decimal_max());

    let r = account.start_dispute(Dispute {
        original_transaction_id: 2,
    });
    assert!(matches!(r, Err(Error::TransactionNotFound(2))));
}

#[test]
fn test_dispute_lifecycle_errors() {
    let mut account = Account::new();
    account
        .deposit(Deposit {
            transaction_id: 5,
            amount: decimal("10.00"),
        })
        .unwrap();

    let r = account.start_dispute(Dispute {
        original_transaction_id: 99,
    });
    assert!(matches!(r, Err(Error::TransactionNotFound(99))));

    let r = account.resolve_dispute(Resolve {
        original_transaction_id: 5,
    });
    assert!(matches!(r, Err(Error::DisputeNotStarted(5))));

    account
        .start_dispute(Dispute {
            original_transaction_id: 5,
        })
        .unwrap();
    let r = account.start_dispute(Dispute {
        original_transaction_id: 5,
    });
    assert!(matches!(r, Err(Error::DisputeAlreadyStarted(5))));

    account
        .chargeback(Chargeback {
            original_transaction_id: 5,
        })
        .unwrap();
    let r = account.start_dispute(Dispute {
        original_transaction_id: 5,
    });
    assert!(matches!(r, Err(Error::DisputeNotAllowed(5))));
}

#[test]
fn test_chargeback_without_dispute_quarantines() {
    let mut account = Account::new();
    account
        .deposit(Deposit {
            transaction_id: 3,
            amount: decimal("25.00"),
        })
        .unwrap();
    // No dispute is open: the call reports success, only the lock moves.
    account
        .chargeback(Chargeback {
            original_transaction_id: 3,
        })
        .unwrap();
    assert!(account.locked());
    assert_eq!(account.balance().available, decimal("25.00"));
    assert_eq!(account.balance().held, decimal("0.00"));
    assert_eq!(account.balance().computed_total, decimal("25.00"));
}
