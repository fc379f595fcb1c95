use vstd::prelude::*;

verus! {

/// Every failure the ledger can report, one variant per cause.
#[derive(Debug)]
pub enum Error {
    /// A transaction amount was missing or negative at the input boundary.
    InvalidTransactionAmount(&'static str),
    /// Recomputing `available + held` left the representable range; wraps the
    /// arithmetic cause.
    InvalidTotalAmount { source: Box<Error> },
    /// A deposit reused a transaction id already recorded for the account.
    DuplicateTransactionId(u32),
    /// A dispute, resolve or chargeback named a transaction never deposited.
    TransactionNotFound(u32),
    /// A withdrawal or dispute asked for more than `available` holds.
    InsufficientFunds,
    /// A dispute was opened on a transaction already under dispute.
    DisputeAlreadyStarted(u32),
    /// A resolve arrived for a transaction with no dispute in progress.
    DisputeNotStarted(u32),
    /// A dispute was opened on a transaction already charged back.
    DisputeNotAllowed(u32),
    /// A chargeback was replayed on a transaction already charged back.
    DisputeAlreadyChargedback(u32),
    /// `held` does not cover the disputed amount at resolve time.
    InsufficientHoldsToResolveDispute,
    /// The account is locked and accepts no further transactions.
    AccountLocked(u16),
    /// The amount text could not be read as a decimal number; carries the
    /// parser's report.
    ParseDecimal(String),
    /// A row of the input could not be read as a record.
    ReadCsvRecord(String),
    /// A record's fields could not be read as a transaction.
    DeserializeCsvRecord(String),
    /// A checked addition left the representable range.
    DecimalOverflow,
    /// A checked subtraction left the representable range.
    DecimalUnderflow,
}

} // verus!
