use vstd::prelude::*;

use std::collections::HashMap;

use crate::decimal::{in_range, CheckedDecimal};
use crate::engine::{Chargeback, Deposit, Dispute, Resolve, Withdrawal};
use crate::error::Error;

verus! {

broadcast use vstd::std_specs::hash::group_hash_axioms;

/// Where a recorded deposit stands in the dispute lifecycle.
#[derive(Debug, Clone, Copy, PartialEq, Eq, Structural)]
pub enum DisputeStatus {
    NotStarted,
    InProgress,
    Chargebacked,
}

/// A recorded deposit: its amount and where its dispute stands.
#[derive(Debug, Clone, Copy)]
pub struct DepositRecord {
    pub deposit_amount: CheckedDecimal,
    pub dispute_status: DisputeStatus,
}

/// The mathematical content of an `AccountBalance`, in ten-thousandths.
#[verifier::ext_equal]
pub ghost struct BalanceView {
    pub available: int,
    pub held: int,
    pub total: int,
}

impl BalanceView {
    /// All three fields lie in range and the total is the sum of the parts.
    pub open spec fn wf(self) -> bool {
        &&& in_range(self.available)
        &&& in_range(self.held)
        &&& in_range(self.total)
        &&& self.total == self.available + self.held
    }
}

/// The mathematical content of an `Account`.
#[verifier::ext_equal]
pub ghost struct AccountView {
    pub balance: BalanceView,
    pub locked: bool,
    pub records: Map<u32, DepositRecord>,
}

impl AccountView {
    pub open spec fn wf(self) -> bool {
        self.balance.wf()
    }
}

/// The balances of one account. `computed_total` is recomputed from
/// `available + held` after every change of either.
#[derive(Debug, Clone, Copy)]
pub struct AccountBalance {
    pub available: CheckedDecimal,
    pub held: CheckedDecimal,
    pub computed_total: CheckedDecimal,
}

impl View for AccountBalance {
    type V = BalanceView;

    open spec fn view(&self) -> BalanceView {
        BalanceView { available: self.available@, held: self.held@, total: self.computed_total@ }
    }
}

/// One atomic change of the balance fields, applied under the snapshot and
/// rollback protocol of `AccountBalance::mutate`. The order of the variants'
/// steps decides which range error is reported first.
#[derive(Debug, Clone, Copy)]
pub enum BalanceChange {
    AddAvailable(CheckedDecimal),
    SubAvailable(CheckedDecimal),
    SubAvailableAddHeld(CheckedDecimal, CheckedDecimal),
    SubHeldAddAvailable(CheckedDecimal, CheckedDecimal),
    SubHeld(CheckedDecimal),
}

/// The `(available, held)` pair a change asks for, or the range error of its
/// first failing step.
pub open spec fn spec_apply_change(b: BalanceView, c: BalanceChange) -> Result<(int, int), Error> {
    match c {
        BalanceChange::AddAvailable(d) => if in_range(b.available + d@) {
            Ok((b.available + d@, b.held))
        } else {
            Err(Error::DecimalOverflow)
        },
        BalanceChange::SubAvailable(d) => if in_range(b.available - d@) {
            Ok((b.available - d@, b.held))
        } else {
            Err(Error::DecimalUnderflow)
        },
        BalanceChange::SubAvailableAddHeld(x, y) => if !in_range(b.available - x@) {
            Err(Error::DecimalUnderflow)
        } else if !in_range(b.held + y@) {
            Err(Error::DecimalOverflow)
        } else {
            Ok((b.available - x@, b.held + y@))
        },
        BalanceChange::SubHeldAddAvailable(x, y) => if !in_range(b.held - x@) {
            Err(Error::DecimalUnderflow)
        } else if !in_range(b.available + y@) {
            Err(Error::DecimalOverflow)
        } else {
            Ok((b.available + y@, b.held - x@))
        },
        BalanceChange::SubHeld(d) => if in_range(b.held - d@) {
            Ok((b.available, b.held - d@))
        } else {
            Err(Error::DecimalUnderflow)
        },
    }
}

/// What `AccountBalance::mutate` leaves behind and returns: on any failure the
/// balance is exactly the old one; on success the total is recomputed whenever
/// `available` or `held` changed.
pub open spec fn spec_mutate(b: BalanceView, c: BalanceChange) -> (BalanceView, Result<(), Error>) {
    match spec_apply_change(b, c) {
        Err(e) => (b, Err(e)),
        Ok(ah) => if ah.0 == b.available && ah.1 == b.held {
            (b, Ok(()))
        } else if in_range(ah.0 + ah.1) {
            (BalanceView { available: ah.0, held: ah.1, total: ah.0 + ah.1 }, Ok(()))
        } else {
            (b, Err(Error::InvalidTotalAmount { source: Box::new(Error::DecimalOverflow) }))
        },
    }
}

impl AccountBalance {
    /// A zero balance.
    pub fn new() -> (r: Self)
        ensures
            r@ == (BalanceView { available: 0, held: 0, total: 0 }),
    {
        AccountBalance {
            available: CheckedDecimal::zero(),
            held: CheckedDecimal::zero(),
            computed_total: CheckedDecimal::zero(),
        }
    }

    /// Applies one change atomically: a snapshot is taken first, and on any
    /// failure — of a step or of the final total recomputation — the snapshot
    /// is restored verbatim before the error propagates.
    pub fn mutate(&mut self, change: BalanceChange) -> (r: Result<(), Error>)
        ensures
            ({
                let (b2, r2) = spec_mutate(old(self)@, change);
                final(self)@ == b2 && r == r2
            }),
    {
        let snapshot = *self;
        let step: Result<(), Error> = match change {
            BalanceChange::AddAvailable(d) => match self.available.checked_add(d) {
                Ok(v) => {
                    self.available = v;
                    Ok(())
                },
                Err(e) => Err(e),
            },
            BalanceChange::SubAvailable(d) => match self.available.checked_sub(d) {
                Ok(v) => {
                    self.available = v;
                    Ok(())
                },
                Err(e) => Err(e),
            },
            BalanceChange::SubAvailableAddHeld(x, y) => match self.available.checked_sub(x) {
                Ok(v) => {
                    self.available = v;
                    match self.held.checked_add(y) {
                        Ok(w) => {
                            self.held = w;
                            Ok(())
                        },
                        Err(e) => Err(e),
                    }
                },
                Err(e) => Err(e),
            },
            BalanceChange::SubHeldAddAvailable(x, y) => match self.held.checked_sub(x) {
                Ok(v) => {
                    self.held = v;
                    match self.available.checked_add(y) {
                        Ok(w) => {
                            self.available = w;
                            Ok(())
                        },
                        Err(e) => Err(e),
                    }
                },
                Err(e) => Err(e),
            },
            BalanceChange::SubHeld(d) => match self.held.checked_sub(d) {
                Ok(v) => {
                    self.held = v;
                    Ok(())
                },
                Err(e) => Err(e),
            },
        };
        let r: Result<(), Error> = match step {
            Ok(()) => {
                if !(self.available == snapshot.available) || !(self.held == snapshot.held) {
                    match self.available.checked_add(self.held) {
                        Ok(total) => {
                            self.computed_total = total;
                            Ok(())
                        },
                        Err(err) => {
                            *self = snapshot;
                            Err(Error::InvalidTotalAmount { source: Box::new(err) })
                        },
                    }
                } else {
                    Ok(())
                }
            },
            Err(err) => {
                *self = snapshot;
                Err(err)
            },
        };
        proof {
            assert(self@ =~= spec_mutate(old(self)@, change).0);
        }
        r
    }
}

/// The state a fresh account starts in.
pub open spec fn spec_account_new() -> AccountView {
    AccountView {
        balance: BalanceView { available: 0, held: 0, total: 0 },
        locked: false,
        records: Map::empty(),
    }
}

/// What a deposit leaves behind and returns: a reused transaction id is
/// rejected outright; otherwise the record insertion and the balance change
/// succeed or fail as one.
pub open spec fn spec_deposit(a: AccountView, tx: u32, amount: CheckedDecimal) -> (
    AccountView,
    Result<(), Error>,
) {
    if a.records.contains_key(tx) {
        (a, Err(Error::DuplicateTransactionId(tx)))
    } else {
        let (b2, r) = spec_mutate(a.balance, BalanceChange::AddAvailable(amount));
        match r {
            Ok(()) => (
                AccountView {
                    balance: b2,
                    records: a.records.insert(
                        tx,
                        DepositRecord {
                            deposit_amount: amount,
                            dispute_status: DisputeStatus::NotStarted,
                        },
                    ),
                    ..a
                },
                Ok(()),
            ),
            Err(e) => (a, Err(e)),
        }
    }
}

/// What a withdrawal leaves behind and returns: rejected when `available` is
/// short of the amount, applied atomically otherwise.
pub open spec fn spec_withdraw(a: AccountView, amount: CheckedDecimal) -> (
    AccountView,
    Result<(), Error>,
) {
    if a.balance.available < amount@ {
        (a, Err(Error::InsufficientFunds))
    } else {
        let (b2, r) = spec_mutate(a.balance, BalanceChange::SubAvailable(amount));
        match r {
            Ok(()) => (AccountView { balance: b2, ..a }, Ok(())),
            Err(e) => (a, Err(e)),
        }
    }
}

/// What opening a dispute leaves behind and returns: the deposit must be
/// recorded, not already under or past a dispute, and covered by `available`;
/// then its amount moves from `available` to `held`.
pub open spec fn spec_start_dispute(a: AccountView, tx: u32) -> (AccountView, Result<(), Error>) {
    if !a.records.contains_key(tx) {
        (a, Err(Error::TransactionNotFound(tx)))
    } else {
        let rec = a.records[tx];
        match rec.dispute_status {
            DisputeStatus::InProgress => (a, Err(Error::DisputeAlreadyStarted(tx))),
            DisputeStatus::Chargebacked => (a, Err(Error::DisputeNotAllowed(tx))),
            DisputeStatus::NotStarted => if a.balance.available < rec.deposit_amount@ {
                (a, Err(Error::InsufficientFunds))
            } else {
                let (b2, r) = spec_mutate(
                    a.balance,
                    BalanceChange::SubAvailableAddHeld(rec.deposit_amount, rec.deposit_amount),
                );
                match r {
                    Ok(()) => (
                        AccountView {
                            balance: b2,
                            records: a.records.insert(
                                tx,
                                DepositRecord {
                                    dispute_status: DisputeStatus::InProgress,
                                    ..rec
                                },
                            ),
                            ..a
                        },
                        Ok(()),
                    ),
                    Err(e) => (a, Err(e)),
                }
            },
        }
    }
}

/// What resolving a dispute leaves behind and returns: the dispute must be in
/// progress and covered by `held`; then its amount moves back to `available`.
pub open spec fn spec_resolve_dispute(a: AccountView, tx: u32) -> (AccountView, Result<(), Error>) {
    if !a.records.contains_key(tx) {
        (a, Err(Error::TransactionNotFound(tx)))
    } else {
        let rec = a.records[tx];
        if rec.dispute_status != DisputeStatus::InProgress {
            (a, Err(Error::DisputeNotStarted(tx)))
        } else if a.balance.held < rec.deposit_amount@ {
            (a, Err(Error::InsufficientHoldsToResolveDispute))
        } else {
            let (b2, r) = spec_mutate(
                a.balance,
                BalanceChange::SubHeldAddAvailable(rec.deposit_amount, rec.deposit_amount),
            );
            match r {
                Ok(()) => (
                    AccountView {
                        balance: b2,
                        records: a.records.insert(
                            tx,
                            DepositRecord { dispute_status: DisputeStatus::NotStarted, ..rec },
                        ),
                        ..a
                    },
                    Ok(()),
                ),
                Err(e) => (a, Err(e)),
            }
        }
    }
}

/// What a chargeback leaves behind and returns. A chargeback with no matching
/// record, or on a dispute never opened, reports success and only locks the
/// account: the quarantine policy for a partially trusted upstream. A replay
/// on a charged-back record is rejected. On an in-progress dispute the held
/// amount is removed, the record is closed and the account locks.
pub open spec fn spec_chargeback(a: AccountView, tx: u32) -> (AccountView, Result<(), Error>) {
    if !a.records.contains_key(tx) {
        (AccountView { locked: true, ..a }, Ok(()))
    } else {
        let rec = a.records[tx];
        match rec.dispute_status {
            DisputeStatus::NotStarted => (AccountView { locked: true, ..a }, Ok(())),
            DisputeStatus::Chargebacked => (a, Err(Error::DisputeAlreadyChargedback(tx))),
            DisputeStatus::InProgress => {
                let (b2, r) = spec_mutate(a.balance, BalanceChange::SubHeld(rec.deposit_amount));
                match r {
                    Ok(()) => (
                        AccountView {
                            balance: b2,
                            locked: true,
                            records: a.records.insert(
                                tx,
                                DepositRecord {
                                    dispute_status: DisputeStatus::Chargebacked,
                                    ..rec
                                },
                            ),
                        },
                        Ok(()),
                    ),
                    Err(e) => (a, Err(e)),
                }
            },
        }
    }
}

/// What clearing the deposit ledger leaves behind.
pub open spec fn spec_clear_deposit_records(a: AccountView) -> AccountView {
    AccountView { records: Map::empty(), ..a }
}

/// The per-client state machine: balances, the per-transaction dispute
/// ledger, and the terminal lock flag.
pub struct Account {
    balance: AccountBalance,
    locked: bool,
    deposit_map: HashMap<u32, DepositRecord>,
}

impl View for Account {
    type V = AccountView;

    closed spec fn view(&self) -> AccountView {
        AccountView { balance: self.balance@, locked: self.locked, records: self.deposit_map@ }
    }
}

impl Account {
    /// An unlocked account with zero balances and no records.
    pub fn new() -> (r: Self)
        ensures
            r@ == spec_account_new(),
            r@.wf(),
    {
        let r = Account {
            balance: AccountBalance::new(),
            locked: false,
            deposit_map: HashMap::new(),
        };
        proof {
            assert(r@ =~= spec_account_new());
        }
        r
    }

    /// Whether the account is locked.
    pub fn locked(&self) -> (r: bool)
        ensures
            r == self@.locked,
    {
        self.locked
    }

    /// A read-only view of the balances.
    pub fn balance(&self) -> (r: &AccountBalance)
        ensures
            r@ == self@.balance,
    {
        &self.balance
    }

    /// Records a deposit and adds its amount to `available`, atomically as a
    /// pair: a failed balance update rolls the fresh record back too.
    pub fn deposit(&mut self, deposit: Deposit) -> (r: Result<(), Error>)
        requires
            old(self)@.wf(),
        ensures
            final(self)@.wf(),
            old(self)@.locked ==> final(self)@.locked,
            ({
                let (a2, r2) = spec_deposit(old(self)@, deposit.transaction_id, deposit.amount);
                final(self)@ == a2 && r == r2
            }),
    {
        match self.add_deposit_record(&deposit) {
            Ok(()) => {},
            Err(e) => {
                return Err(e);
            },
        }
        match self.balance.mutate(BalanceChange::AddAvailable(deposit.amount)) {
            Ok(()) => {
                proof {
                    balance_wf_after_mutate(
                        old(self)@.balance,
                        BalanceChange::AddAvailable(deposit.amount),
                    );
                    assert(self@ =~= spec_deposit(
                        old(self)@,
                        deposit.transaction_id,
                        deposit.amount,
                    ).0);
                }
                Ok(())
            },
            Err(e) => {
                self.remove_deposit_record(deposit.transaction_id);
                proof {
                    assert(self@.records =~= old(self)@.records);
                    assert(self@ =~= old(self)@);
                }
                Err(e)
            },
        }
    }

    /// Subtracts the amount from `available`, or rejects the withdrawal when
    /// `available` is short of it.
    pub fn withdraw(&mut self, withdrawal: Withdrawal) -> (r: Result<(), Error>)
        requires
            old(self)@.wf(),
        ensures
            final(self)@.wf(),
            old(self)@.locked ==> final(self)@.locked,
            ({
                let (a2, r2) = spec_withdraw(old(self)@, withdrawal.amount);
                final(self)@ == a2 && r == r2
            }),
    {
        let amount = withdrawal.amount;
        if self.balance.available.lt(&amount) {
            return Err(Error::InsufficientFunds);
        }
        match self.balance.mutate(BalanceChange::SubAvailable(amount)) {
            Ok(()) => {
                proof {
                    balance_wf_after_mutate(old(self)@.balance, BalanceChange::SubAvailable(amount));
                    assert(self@ =~= spec_withdraw(old(self)@, amount).0);
                }
                Ok(())
            },
            Err(e) => {
                proof {
                    assert(self@ =~= old(self)@);
                }
                Err(e)
            },
        }
    }

    /// Opens a dispute on a recorded deposit, moving its amount from
    /// `available` to `held`.
    pub fn start_dispute(&mut self, dispute: Dispute) -> (r: Result<(), Error>)
        requires
            old(self)@.wf(),
        ensures
            final(self)@.wf(),
            old(self)@.locked ==> final(self)@.locked,
            ({
                let (a2, r2) = spec_start_dispute(old(self)@, dispute.original_transaction_id);
                final(self)@ == a2 && r == r2
            }),
    {
        let tx = dispute.original_transaction_id;
        let record = match self.deposit_map.get(&tx) {
            Some(record) => *record,
            None => {
                return Err(Error::TransactionNotFound(tx));
            },
        };
        match record.dispute_status {
            DisputeStatus::InProgress => {
                return Err(Error::DisputeAlreadyStarted(tx));
            },
            DisputeStatus::Chargebacked => {
                return Err(Error::DisputeNotAllowed(tx));
            },
            DisputeStatus::NotStarted => {},
        }
        let deposit_amount = record.deposit_amount;
        if self.balance.available.lt(&deposit_amount) {
            return Err(Error::InsufficientFunds);
        }
        match self.balance.mutate(
            BalanceChange::SubAvailableAddHeld(deposit_amount, deposit_amount),
        ) {
            Ok(()) => {
                self.deposit_map.insert(
                    tx,
                    DepositRecord { dispute_status: DisputeStatus::InProgress, ..record },
                );
                proof {
                    balance_wf_after_mutate(
                        old(self)@.balance,
                        BalanceChange::SubAvailableAddHeld(deposit_amount, deposit_amount),
                    );
                    assert(self@ =~= spec_start_dispute(old(self)@, tx).0);
                }
                Ok(())
            },
            Err(e) => {
                proof {
                    assert(self@ =~= old(self)@);
                }
                Err(e)
            },
        }
    }

    /// Releases an in-progress dispute, moving its amount from `held` back to
    /// `available`.
    pub fn resolve_dispute(&mut self, resolve: Resolve) -> (r: Result<(), Error>)
        requires
            old(self)@.wf(),
        ensures
            final(self)@.wf(),
            old(self)@.locked ==> final(self)@.locked,
            ({
                let (a2, r2) = spec_resolve_dispute(old(self)@, resolve.original_transaction_id);
                final(self)@ == a2 && r == r2
            }),
    {
        let tx = resolve.original_transaction_id;
        let record = match self.deposit_map.get(&tx) {
            Some(record) => *record,
            None => {
                return Err(Error::TransactionNotFound(tx));
            },
        };
        match record.dispute_status {
            DisputeStatus::InProgress => {},
            _ => {
                return Err(Error::DisputeNotStarted(tx));
            },
        }
        let deposit_amount = record.deposit_amount;
        if self.balance.held.lt(&deposit_amount) {
            return Err(Error::InsufficientHoldsToResolveDispute);
        }
        match self.balance.mutate(
            BalanceChange::SubHeldAddAvailable(deposit_amount, deposit_amount),
        ) {
            Ok(()) => {
                self.deposit_map.insert(
                    tx,
                    DepositRecord { dispute_status: DisputeStatus::NotStarted, ..record },
                );
                proof {
                    balance_wf_after_mutate(
                        old(self)@.balance,
                        BalanceChange::SubHeldAddAvailable(deposit_amount, deposit_amount),
                    );
                    assert(self@ =~= spec_resolve_dispute(old(self)@, tx).0);
                }
                Ok(())
            },
            Err(e) => {
                proof {
                    assert(self@ =~= old(self)@);
                }
                Err(e)
            },
        }
    }

    /// Applies a chargeback under the quarantine policy: an unmatched or
    /// undisputed chargeback locks the account and reports success; a replay
    /// is rejected; an in-progress dispute loses its held amount and the
    /// account locks.
    pub fn chargeback(&mut self, chargeback: Chargeback) -> (r: Result<(), Error>)
        requires
            old(self)@.wf(),
        ensures
            final(self)@.wf(),
            old(self)@.locked ==> final(self)@.locked,
            ({
                let (a2, r2) = spec_chargeback(old(self)@, chargeback.original_transaction_id);
                final(self)@ == a2 && r == r2
            }),
    {
        let tx = chargeback.original_transaction_id;
        let record = match self.deposit_map.get(&tx) {
            Some(record) => *record,
            None => {
                self.locked = true;
                proof {
                    assert(self@ =~= spec_chargeback(old(self)@, tx).0);
                }
                return Ok(());
            },
        };
        match record.dispute_status {
            DisputeStatus::NotStarted => {
                self.locked = true;
                proof {
                    assert(self@ =~= spec_chargeback(old(self)@, tx).0);
                }
                return Ok(());
            },
            DisputeStatus::Chargebacked => {
                return Err(Error::DisputeAlreadyChargedback(tx));
            },
            DisputeStatus::InProgress => {},
        }
        match self.balance.mutate(BalanceChange::SubHeld(record.deposit_amount)) {
            Ok(()) => {
                self.locked = true;
                self.deposit_map.insert(
                    tx,
                    DepositRecord { dispute_status: DisputeStatus::Chargebacked, ..record },
                );
                proof {
                    balance_wf_after_mutate(
                        old(self)@.balance,
                        BalanceChange::SubHeld(record.deposit_amount),
                    );
                    assert(self@ =~= spec_chargeback(old(self)@, tx).0);
                }
                Ok(())
            },
            Err(e) => {
                proof {
                    assert(self@ =~= old(self)@);
                }
                Err(e)
            },
        }
    }

    /// Drops the whole deposit ledger; called once an account is locked, since
    /// a locked account accepts no further transactions.
    pub fn clear_deposit_records(&mut self)
        requires
            old(self)@.wf(),
        ensures
            final(self)@.wf(),
            final(self)@ == spec_clear_deposit_records(old(self)@),
    {
        self.deposit_map.clear();
        proof {
            assert(self@ =~= spec_clear_deposit_records(old(self)@));
        }
    }

    /// Inserts a fresh record for a deposit, or rejects a reused transaction
    /// id without touching anything.
    fn add_deposit_record(&mut self, deposit: &Deposit) -> (r: Result<(), Error>)
        ensures
            old(self)@.records.contains_key(deposit.transaction_id) ==> r == Err::<(), Error>(
                Error::DuplicateTransactionId(deposit.transaction_id),
            ) && final(self)@ == old(self)@,
            !old(self)@.records.contains_key(deposit.transaction_id) ==> r == Ok::<(), Error>(())
                && final(self)@ == (AccountView {
                records: old(self)@.records.insert(
                    deposit.transaction_id,
                    DepositRecord {
                        deposit_amount: deposit.amount,
                        dispute_status: DisputeStatus::NotStarted,
                    },
                ),
                ..old(self)@
            }),
    {
        if self.deposit_map.contains_key(&deposit.transaction_id) {
            return Err(Error::DuplicateTransactionId(deposit.transaction_id));
        }
        self.deposit_map.insert(
            deposit.transaction_id,
            DepositRecord { deposit_amount: deposit.amount, dispute_status: DisputeStatus::NotStarted },
        );
        proof {
            assert(self@ =~= (AccountView {
                records: old(self)@.records.insert(
                    deposit.transaction_id,
                    DepositRecord {
                        deposit_amount: deposit.amount,
                        dispute_status: DisputeStatus::NotStarted,
                    },
                ),
                ..old(self)@
            }));
        }
        Ok(())
    }

    /// Takes a record back out of the ledger.
    fn remove_deposit_record(&mut self, transaction_id: u32)
        ensures
            final(self)@ == (AccountView {
                records: old(self)@.records.remove(transaction_id),
                ..old(self)@
            }),
    {
        self.deposit_map.remove(&transaction_id);
        proof {
            assert(self@ =~= (AccountView {
                records: old(self)@.records.remove(transaction_id),
                ..old(self)@
            }));
        }
    }
}

/// A successful `mutate` leaves a well-formed balance behind whenever it
/// started from one.
pub proof fn balance_wf_after_mutate(b: BalanceView, c: BalanceChange)
    requires
        b.wf(),
    ensures
        spec_mutate(b, c).1 is Ok ==> spec_mutate(b, c).0.wf(),
        spec_mutate(b, c).1 is Err ==> spec_mutate(b, c).0 == b,
{
}

/// Law: a deposit that reuses a recorded transaction id is always rejected,
/// whatever its amount — even one whose own balance update would fail — and
/// the account is left unchanged.
pub proof fn lemma_duplicate_deposit_rejected(a: AccountView, tx: u32, amount: CheckedDecimal)
    requires
        a.records.contains_key(tx),
    ensures
        spec_deposit(a, tx, amount) == (a, Err::<(), Error>(Error::DuplicateTransactionId(tx))),
{
}

/// Law: a deposit that fails — for any reason — leaves the account exactly as
/// it was; in particular a record inserted before a failing balance update is
/// rolled back with it.
pub proof fn lemma_failed_deposit_rolls_back(a: AccountView, tx: u32, amount: CheckedDecimal)
    requires
        spec_deposit(a, tx, amount).1 is Err,
    ensures
        spec_deposit(a, tx, amount).0 == a,
{
}

/// Law: on an in-progress dispute whose removal from `held` stays within the
/// representable range, the first chargeback succeeds, locks the account and
/// closes the record; a second chargeback on the same transaction id then
/// fails `DisputeAlreadyChargedback` and changes nothing further.
pub proof fn lemma_chargeback_replay(a: AccountView, tx: u32)
    requires
        a.wf(),
        a.records.contains_key(tx),
        a.records[tx].dispute_status == DisputeStatus::InProgress,
        in_range(a.balance.held - a.records[tx].deposit_amount@),
        in_range(a.balance.available + a.balance.held - a.records[tx].deposit_amount@),
    ensures
        ({
            let (a1, r1) = spec_chargeback(a, tx);
            let (a2, r2) = spec_chargeback(a1, tx);
            &&& r1 == Ok::<(), Error>(())
            &&& a1.locked
            &&& a1.records[tx].dispute_status == DisputeStatus::Chargebacked
            &&& a1.balance.held == a.balance.held - a.records[tx].deposit_amount@
            &&& a1.balance.available == a.balance.available
            &&& r2 == Err::<(), Error>(Error::DisputeAlreadyChargedback(tx))
            &&& a2 == a1
        }),
{
}

} // verus!
