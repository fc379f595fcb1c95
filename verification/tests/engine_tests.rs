use std::collections::HashMap;

use txledger::csv::{CsvInputRecord, CsvReader, TransactionType};
use txledger::decimal::CheckedDecimal;
use txledger::engine::{
    Chargeback, Deposit, Dispute, Engine, EngineOutputItem, EngineTransaction, Op, Resolve,
    Withdrawal,
};
use txledger::error::Error;

fn decimal(value: &str) -> CheckedDecimal {
    CheckedDecimal::parse(value).unwrap()
}

fn get_client_output(engine: &Engine, client_id: u16) -> EngineOutputItem {
    engine
        .output_items()
        .into_iter()
        .find(|item| item.client == client_id)
        .unwrap()
}

fn get_client_output_map(engine: &Engine) -> HashMap<u16, EngineOutputItem> {
    engine
        .output_items()
        .into_iter()
        .map(|item| (item.client, item))
        .collect()
}

fn deposit(client_id: u16, tx: u32, amount: &str) -> EngineTransaction {
    EngineTransaction {
        client_id,
        op: Op::Deposit(Deposit {
            transaction_id: tx,
            amount: decimal(amount),
        }),
    }
}

fn withdrawal(client_id: u16, amount: &str) -> EngineTransaction {
    EngineTransaction {
        client_id,
        op: Op::Withdrawal(Withdrawal {
            amount: decimal(amount),
        }),
    }
}

fn dispute(client_id: u16, tx: u32) -> EngineTransaction {
    EngineTransaction {
        client_id,
        op: Op::Dispute(Dispute {
            original_transaction_id: tx,
        }),
    }
}

fn resolve(client_id: u16, tx: u32) -> EngineTransaction {
    EngineTransaction {
        client_id,
        op: Op::Resolve(Resolve {
            original_transaction_id: tx,
        }),
    }
}

fn chargeback(client_id: u16, tx: u32) -> EngineTransaction {
    EngineTransaction {
        client_id,
        op: Op::Chargeback(Chargeback {
            original_transaction_id: tx,
        }),
    }
}

#[test]
fn test_deposit_withdrawal() {
    let txns = [
        deposit(1, 1001, "100.00"),
        deposit(1, 1002, "50.00"),
        deposit(2, 2001, "25.00"),
        withdrawal(1, "80.00"),
    ];

    let mut engine = Engine::new();
    for txn in txns {
        engine.process_transaction(txn).unwrap();
    }

    let map = get_client_output_map(&engine);

    let account1 = map.get(&1).unwrap();
    // 100 + 50 - 80 = 70
    assert_eq!(account1.available, decimal("70.00"));
    assert_eq!(account1.held, decimal("0.00"));
    assert_eq!(account1.total, decimal("70.00"));
    assert!(!account1.locked);

    let account2 = map.get(&2).unwrap();
    // 25
    assert_eq!(account2.available, decimal("25.00"));
    assert_eq!(account2.held, decimal("0.00"));
    assert_eq!(account2.total, decimal("25.00"));
    assert!(!account2.locked);
}

#[test]
fn test_withdrawal_overdraft() {
    let mut engine = Engine::new();
    engine
        .process_transaction(deposit(1, 1001, "100.00"))
        .unwrap();

    let result = engine.process_transaction(withdrawal(1, "150.00"));
    if let Err(Error::InsufficientFunds) = result {
        // Expected error
    } else {
        panic!("Expected insufficient funds error");
    }

    let account1 = get_client_output(&engine, 1);
    assert_eq!(account1.available, decimal("100.00"));
    assert_eq!(account1.held, decimal("0.00"));
    assert_eq!(account1.total, decimal("100.00"));
    assert!(!account1.locked);
}

#[test]
fn test_dispute_resolve_chargeback() {
    let mut engine = Engine::new();
    engine
        .process_transaction(deposit(1, 1001, "100.00"))
        .unwrap();
    engine
        .process_transaction(deposit(1, 1002, "50.00"))
        .unwrap();
    engine.process_transaction(dispute(1, 1001)).unwrap();

    // dispute 1001
    {
        let account1 = get_client_output(&engine, 1);
        assert_eq!(account1.available, decimal("50.00"));
        assert_eq!(account1.held, decimal("100.00"));
    }

    // resolve 1001
    {
        engine.process_transaction(resolve(1, 1001)).unwrap();

        let account1 = get_client_output(&engine, 1);
        assert_eq!(account1.available, decimal("150.00"));
        assert_eq!(account1.held, decimal("0.00"));
    }

    // dispute 1001 again
    {
        engine.process_transaction(dispute(1, 1001)).unwrap();

        let account1 = get_client_output(&engine, 1);
        assert_eq!(account1.available, decimal("50.00"));
        assert_eq!(account1.held, decimal("100.00"));
    }

    // chargeback 1001
    {
        engine.process_transaction(chargeback(1, 1001)).unwrap();

        let account1 = get_client_output(&engine, 1);
        assert_eq!(account1.available, decimal("50.00"));
        assert_eq!(account1.held, decimal("0.00"));
        assert!(account1.locked);
    }
}

#[test]
fn test_dispute_after_withdrawal() {
    let mut engine = Engine::new();
    engine
        .process_transaction(deposit(1, 1001, "100.00"))
        .unwrap();
    engine.process_transaction(withdrawal(1, "50.00")).unwrap();

    // Insufficient funds for dispute
    engine.process_transaction(dispute(1, 1001)).unwrap_err();

    let account1 = get_client_output(&engine, 1);
    assert_eq!(account1.available, decimal("50.00"));
    assert_eq!(account1.held, decimal("0.00"));
}

#[test]
fn test_example_csv() {
    let csv_data = r#"type, client, tx, amount
deposit, 1, 1, 1.0
deposit, 2, 2, 2.0
deposit, 1, 3, 2.0
withdrawal, 1, 4, 1.5
withdrawal, 2, 5, 3.0
"#;

    let mut engine = Engine::new();
    let mut reader = CsvReader::from_reader(csv_data).unwrap();

    while let Some(record) = reader.read_next().unwrap() {
        let record = EngineTransaction::parse_csv_record(&record).unwrap();
        engine.process_transaction(record).ok();
    }

    let map = get_client_output_map(&engine);
    let account1 = map.get(&1).unwrap();
    assert_eq!(account1.available, decimal("1.50"));
    assert_eq!(account1.held, decimal("0.00"));
    assert_eq!(account1.total, decimal("1.50"));
    assert!(!account1.locked);

    let account2 = map.get(&2).unwrap();
    assert_eq!(account2.available, decimal("2.00"));
    assert_eq!(account2.held, decimal("0.00"));
    assert_eq!(account2.total, decimal("2.00"));
    assert!(!account2.locked);
}

#[test]
fn test_locked_account_rejects_everything() {
    // Scenario: after a chargeback the account is locked and every further
    // transaction fails `AccountLocked`.
    let mut engine = Engine::new();
    engine
        .process_transaction(deposit(1, 1001, "100.00"))
        .unwrap();
    engine.process_transaction(dispute(1, 1001)).unwrap();
    engine.process_transaction(chargeback(1, 1001)).unwrap();

    let r = engine.process_transaction(deposit(1, 1002, "5.00"));
    assert!(matches!(r, Err(Error::AccountLocked(1))));
    let r = engine.process_transaction(withdrawal(1, "1.00"));
    assert!(matches!(r, Err(Error::AccountLocked(1))));

    let account1 = get_client_output(&engine, 1);
    assert_eq!(account1.available, decimal("0.00"));
    assert_eq!(account1.held, decimal("0.00"));
    assert!(account1.locked);
}

#[test]
fn test_chargeback_unknown_transaction_locks() {
    // Scenario: a chargeback that names no known deposit reports success,
    // locks the account and moves no funds.
    let mut engine = Engine::new();
    engine
        .process_transaction(deposit(1, 1001, "40.00"))
        .unwrap();
    engine.process_transaction(chargeback(1, 9999)).unwrap();

    let account1 = get_client_output(&engine, 1);
    assert!(account1.locked);
    assert_eq!(account1.available, decimal("40.00"));
    assert_eq!(account1.held, decimal("0.00"));
    assert_eq!(account1.total, decimal("40.00"));
}

#[test]
fn test_funds_conservation_concrete() {
    // Over deposits, withdrawals, disputes and resolves — no chargebacks —
    // the funds across accounts equal accepted deposits minus accepted
    // withdrawals.
    let mut engine = Engine::new();
    engine
        .process_transaction(deposit(1, 1, "10.00"))
        .unwrap();
    engine
        .process_transaction(deposit(2, 2, "20.00"))
        .unwrap();
    engine.process_transaction(withdrawal(1, "4.00")).unwrap();
    engine.process_transaction(dispute(2, 2)).unwrap();
    engine
        .process_transaction(withdrawal(2, "1.00"))
        .unwrap_err();
    engine.process_transaction(resolve(2, 2)).unwrap();

    let map = get_client_output_map(&engine);
    let mut sum = CheckedDecimal::zero();
    for item in map.values() {
        sum = sum.checked_add(item.available).unwrap();
        sum = sum.checked_add(item.held).unwrap();
    }
    // 10 + 20 - 4 = 26
    assert_eq!(sum, decimal("26.00"));
}

#[test]
fn test_total_always_available_plus_held() {
    let mut engine = Engine::new();
    engine
        .process_transaction(deposit(1, 1, "12.34"))
        .unwrap();
    engine.process_transaction(dispute(1, 1)).unwrap();
    engine
        .process_transaction(withdrawal(1, "99.00"))
        .unwrap_err();

    let account1 = get_client_output(&engine, 1);
    assert_eq!(
        account1.total,
        account1.available.checked_add(account1.held).unwrap()
    );
    assert_eq!(account1.available, decimal("0.00"));
    assert_eq!(account1.held, decimal("12.34"));
}

#[test]
fn test_parse_csv_record_validation() {
    // A deposit without an amount is rejected.
    let record = CsvInputRecord {
        tx_type: TransactionType::Deposit,
        client: 1,
        tx: 1,
        amount: None,
    };
    let r = EngineTransaction::parse_csv_record(&record);
    assert!(matches!(r, Err(Error::InvalidTransactionAmount(_))));

    // A negative amount is rejected.
    let record = CsvInputRecord {
        tx_type: TransactionType::Withdrawal,
        client: 1,
        tx: 1,
        amount: Some("-3.5".chars().collect()),
    };
    let r = EngineTransaction::parse_csv_record(&record);
    assert!(matches!(r, Err(Error::InvalidTransactionAmount(_))));

    // Malformed amount text is a parse error.
    let record = CsvInputRecord {
        tx_type: TransactionType::Deposit,
        client: 1,
        tx: 1,
        amount: Some("abc".chars().collect()),
    };
    let r = EngineTransaction::parse_csv_record(&record);
    assert!(matches!(r, Err(Error::ParseDecimal(_))));

    // A dispute needs no amount.
    let record = CsvInputRecord {
        tx_type: TransactionType::Dispute,
        client: 7,
        tx: 42,
        amount: None,
    };
    let t = EngineTransaction::parse_csv_record(&record).unwrap();
    assert_eq!(t.client_id, 7);
    assert!(matches!(
        t.op,
        Op::Dispute(Dispute {
            original_transaction_id: 42
        })
    ));
}

#[test]
fn test_deposit_overflow_is_reported() {
    let mut engine = Engine::new();
    engine
        .process_transaction(deposit(1, 1, "79228162514264337593543950335"))
        .unwrap();
    let r = engine.process_transaction(deposit(1, 2, "1.00"));
    assert!(matches!(r, Err(Error::DecimalOverflow)));
    let account1 = get_client_output(&engine, 1);
    assert_eq!(account1.available, decimal("79228162514264337593543950335"));
}
