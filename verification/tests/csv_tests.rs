use txledger::csv::{CsvReader, TransactionType};
use txledger::error::Error;

#[test]
fn test_reader_reads_records_in_order() {
    let data = "type, client, tx, amount\ndeposit, 1, 10, 1.25\nwithdrawal, 2, 11, 0.5\n";
    let mut reader = CsvReader::from_reader(data).unwrap();

    let first = reader.read_next().unwrap().unwrap();
    assert!(matches!(first.tx_type, TransactionType::Deposit));
    assert_eq!(first.client, 1);
    assert_eq!(first.tx, 10);
    assert_eq!(first.amount, Some("1.25".chars().collect()));

    let second = reader.read_next().unwrap().unwrap();
    assert!(matches!(second.tx_type, TransactionType::Withdrawal));
    assert_eq!(second.client, 2);
    assert_eq!(second.tx, 11);
    assert_eq!(second.amount, Some("0.5".chars().collect()));

    assert!(reader.read_next().unwrap().is_none());
    assert!(reader.read_next().unwrap().is_none());
}

#[test]
fn test_reader_handles_blank_lines_and_crlf() {
    let data = "type,client,tx,amount\r\n\r\n\ndispute,3,77,\r\n";
    let mut reader = CsvReader::from_reader(data).unwrap();
    let rec = reader.read_next().unwrap().unwrap();
    assert!(matches!(rec.tx_type, TransactionType::Dispute));
    assert_eq!(rec.client, 3);
    assert_eq!(rec.tx, 77);
    // An empty amount field counts as absent.
    assert_eq!(rec.amount, None);
    assert!(reader.read_next().unwrap().is_none());
}

#[test]
fn test_reader_without_amount_column() {
    let data = "type,client,tx\nresolve, 9 , 12\n";
    let mut reader = CsvReader::from_reader(data).unwrap();
    let rec = reader.read_next().unwrap().unwrap();
    assert!(matches!(rec.tx_type, TransactionType::Resolve));
    assert_eq!(rec.client, 9);
    assert_eq!(rec.tx, 12);
    assert_eq!(rec.amount, None);
}

#[test]
fn test_reader_rejects_field_count_mismatch() {
    let data = "type,client,tx,amount\ndeposit, 1, 10\n";
    let mut reader = CsvReader::from_reader(data).unwrap();
    let r = reader.read_next();
    assert!(matches!(r, Err(Error::ReadCsvRecord(_))));
}

#[test]
fn test_reader_rejects_bad_fields() {
    let data = "type,client,tx,amount\nrefund, 1, 10, 1.0\n";
    let mut reader = CsvReader::from_reader(data).unwrap();
    assert!(matches!(
        reader.read_next(),
        Err(Error::DeserializeCsvRecord(_))
    ));

    let data = "type,client,tx,amount\ndeposit, 70000, 10, 1.0\n";
    let mut reader = CsvReader::from_reader(data).unwrap();
    assert!(matches!(
        reader.read_next(),
        Err(Error::DeserializeCsvRecord(_))
    ));

    let data = "type,client,tx,amount\ndeposit, 1, 99999999999, 1.0\n";
    let mut reader = CsvReader::from_reader(data).unwrap();
    assert!(matches!(
        reader.read_next(),
        Err(Error::DeserializeCsvRecord(_))
    ));
}

#[test]
fn test_reader_accepts_zero_padded_ids() {
    let data = "type,client,tx,amount\nchargeback, 007, 0000000042,\n";
    let mut reader = CsvReader::from_reader(data).unwrap();
    let rec = reader.read_next().unwrap().unwrap();
    assert!(matches!(rec.tx_type, TransactionType::Chargeback));
    assert_eq!(rec.client, 7);
    assert_eq!(rec.tx, 42);
}

#[test]
fn test_reader_empty_input() {
    let mut reader = CsvReader::from_reader("").unwrap();
    assert!(reader.read_next().unwrap().is_none());

    let mut reader = CsvReader::from_reader("\n\r\n\n").unwrap();
    assert!(reader.read_next().unwrap().is_none());
}
