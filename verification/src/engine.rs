use vstd::prelude::*;

use std::collections::HashMap;

use crate::account::{
    spec_account_new, spec_chargeback, spec_clear_deposit_records, spec_deposit,
    spec_resolve_dispute, spec_start_dispute, spec_withdraw, Account, AccountView,
    balance_wf_after_mutate, BalanceChange,
};
use crate::csv::{CsvInputRecord, TransactionType};
use crate::decimal::{parsed_units, CheckedDecimal};
use crate::error::Error;

verus! {

broadcast use vstd::std_specs::hash::group_hash_axioms;

/// A deposit of `amount` recorded under `transaction_id`.
#[derive(Debug, Clone, Copy)]
pub struct Deposit {
    pub transaction_id: u32,
    pub amount: CheckedDecimal,
}

/// A withdrawal of `amount` from the available funds.
#[derive(Debug, Clone, Copy)]
pub struct Withdrawal {
    pub amount: CheckedDecimal,
}

/// A claim against the deposit recorded under `original_transaction_id`.
#[derive(Debug, Clone, Copy)]
pub struct Dispute {
    pub original_transaction_id: u32,
}

/// The release of the dispute on `original_transaction_id`.
#[derive(Debug, Clone, Copy)]
pub struct Resolve {
    pub original_transaction_id: u32,
}

/// The finalisation of the dispute on `original_transaction_id` against the
/// client.
#[derive(Debug, Clone, Copy)]
pub struct Chargeback {
    pub original_transaction_id: u32,
}

/// The five operations an account understands.
#[derive(Debug, Clone, Copy)]
pub enum Op {
    Deposit(Deposit),
    Withdrawal(Withdrawal),
    Dispute(Dispute),
    Resolve(Resolve),
    Chargeback(Chargeback),
}

/// One transaction of the input stream: an operation addressed to a client.
#[derive(Debug, Clone, Copy)]
pub struct EngineTransaction {
    pub client_id: u16,
    pub op: Op,
}

/// The mathematical content of an `Engine`: the accounts by client id, and
/// the order in which clients were first seen.
#[verifier::ext_equal]
pub ghost struct EngineView {
    pub accounts: Map<u16, AccountView>,
    pub clients: Seq<u16>,
}

impl EngineView {
    /// The client list carries each known client exactly once, and every
    /// account is well formed.
    pub open spec fn wf(self) -> bool {
        &&& self.clients.no_duplicates()
        &&& forall|c: u16| #![auto] self.accounts.contains_key(c) <==> self.clients.contains(c)
        &&& forall|c: u16| #[trigger] self.accounts.contains_key(c) ==> self.accounts[c].wf()
    }
}

/// The state a fresh engine starts in.
pub open spec fn spec_engine_new() -> EngineView {
    EngineView { accounts: Map::empty(), clients: Seq::empty() }
}

/// Dispatches an operation to the account's own transition.
pub open spec fn spec_apply_op(a: AccountView, op: Op) -> (AccountView, Result<(), Error>) {
    match op {
        Op::Deposit(d) => spec_deposit(a, d.transaction_id, d.amount),
        Op::Withdrawal(w) => spec_withdraw(a, w.amount),
        Op::Dispute(d) => spec_start_dispute(a, d.original_transaction_id),
        Op::Resolve(rv) => spec_resolve_dispute(a, rv.original_transaction_id),
        Op::Chargeback(cb) => spec_chargeback(a, cb.original_transaction_id),
    }
}

/// What processing one transaction leaves behind and returns: the client's
/// account is found or freshly created; a locked account rejects the
/// operation outright; otherwise the operation runs, and an account that came
/// out locked has its deposit ledger dropped.
pub open spec fn spec_process_transaction(e: EngineView, tx: EngineTransaction) -> (
    EngineView,
    Result<(), Error>,
) {
    let c = tx.client_id;
    let known = e.accounts.contains_key(c);
    let a0 = if known {
        e.accounts[c]
    } else {
        spec_account_new()
    };
    let clients2 = if known {
        e.clients
    } else {
        e.clients.push(c)
    };
    if a0.locked {
        (
            EngineView { accounts: e.accounts.insert(c, a0), clients: clients2 },
            Err(Error::AccountLocked(c)),
        )
    } else {
        let (a1, r) = spec_apply_op(a0, tx.op);
        let a2 = if r is Ok && a1.locked {
            spec_clear_deposit_records(a1)
        } else {
            a1
        };
        (EngineView { accounts: e.accounts.insert(c, a2), clients: clients2 }, r)
    }
}

/// Inserting a well-formed account, and listing its client on first sight,
/// keeps an engine view well formed.
proof fn lemma_wf_after_insert(e: EngineView, c: u16, a2: AccountView)
    requires
        e.wf(),
        a2.wf(),
    ensures
        (EngineView {
            accounts: e.accounts.insert(c, a2),
            clients: if e.accounts.contains_key(c) {
                e.clients
            } else {
                e.clients.push(c)
            },
        }).wf(),
{
    let known = e.accounts.contains_key(c);
    let clients2 = if known {
        e.clients
    } else {
        e.clients.push(c)
    };
    let acc2 = e.accounts.insert(c, a2);
    if !known {
        assert(!e.clients.contains(c));
        assert(clients2.len() == e.clients.len() + 1);
        assert(clients2[clients2.len() - 1] == c);
        assert forall|i: int, j: int| 0 <= i < j < clients2.len() implies clients2[i] != clients2[j] by {
            if j < clients2.len() - 1 {
                assert(e.clients.no_duplicates());
            } else {
                assert(clients2[j] == c);
                assert(clients2[i] == e.clients[i]);
                assert(e.clients.contains(e.clients[i]));
            }
        }
        assert(clients2.no_duplicates());
    }
    assert forall|c2: u16| #![auto] acc2.contains_key(c2) <==> clients2.contains(c2) by {
        if c2 == c {
            if known {
                assert(clients2.contains(c2));
            } else {
                assert(clients2[clients2.len() - 1] == c2);
                assert(clients2.contains(c2));
            }
        } else {
            assert(acc2.contains_key(c2) == e.accounts.contains_key(c2));
            if clients2.contains(c2) {
                let i = choose|i: int| 0 <= i < clients2.len() && clients2[i] == c2;
                if !known {
                    assert(i < clients2.len() - 1);
                    assert(e.clients[i] == c2);
                }
                assert(e.clients.contains(c2));
            }
            if e.clients.contains(c2) {
                let i = choose|i: int| 0 <= i < e.clients.len() && e.clients[i] == c2;
                assert(clients2[i] == c2);
                assert(clients2.contains(c2));
            }
        }
    }
}

/// A read-only snapshot row for one account.
#[derive(Debug, Clone, Copy)]
pub struct EngineOutputItem {
    pub client: u16,
    pub available: CheckedDecimal,
    pub held: CheckedDecimal,
    pub total: CheckedDecimal,
    pub locked: bool,
}

/// Whether `item` is the snapshot of account `a` under client id `c`.
pub open spec fn is_snapshot_of(item: EngineOutputItem, c: u16, a: AccountView) -> bool {
    &&& item.client == c
    &&& item.available@ == a.balance.available
    &&& item.held@ == a.balance.held
    &&& item.total@ == a.balance.total
    &&& item.locked == a.locked
}

/// Routes transactions to per-client accounts and aggregates the outcome.
pub struct Engine {
    account_map: HashMap<u16, Account>,
    client_ids: Vec<u16>,
}

impl View for Engine {
    type V = EngineView;

    closed spec fn view(&self) -> EngineView {
        EngineView {
            accounts: self.account_map@.map_values(|a: Account| a@),
            clients: self.client_ids@,
        }
    }
}

impl Engine {
    /// An engine with no accounts yet.
    pub fn new() -> (r: Self)
        ensures
            r@ == spec_engine_new(),
            r@.wf(),
    {
        let r = Engine { account_map: HashMap::new(), client_ids: Vec::new() };
        proof {
            assert(r@.accounts =~= spec_engine_new().accounts);
            assert(r@ =~= spec_engine_new());
        }
        r
    }

    /// Processes one transaction: the account is looked up or lazily created,
    /// a locked account rejects the transaction with `AccountLocked`, and an
    /// account that locks during the operation has its ledger cleared. A
    /// rejected transaction never touches any other account.
    pub fn process_transaction(&mut self, tx: EngineTransaction) -> (r: Result<(), Error>)
        requires
            old(self)@.wf(),
        ensures
            final(self)@.wf(),
            ({
                let (e2, r2) = spec_process_transaction(old(self)@, tx);
                final(self)@ == e2 && r == r2
            }),
            forall|c: u16| #[trigger]
                old(self)@.accounts.contains_key(c) ==> final(self)@.accounts.contains_key(c) && (
                old(self)@.accounts[c].locked ==> final(self)@.accounts[c].locked),
    {
        let client_id = tx.client_id;
        let mut account = match self.account_map.remove(&client_id) {
            Some(a) => a,
            None => {
                self.client_ids.push(client_id);
                Account::new()
            },
        };
        if account.locked() {
            proof {
                lemma_wf_after_insert(old(self)@, client_id, account@);
            }
            self.account_map.insert(client_id, account);
            proof {
                assert(self@.accounts =~= spec_process_transaction(old(self)@, tx).0.accounts);
                assert(self@ =~= spec_process_transaction(old(self)@, tx).0);
            }
            return Err(Error::AccountLocked(client_id));
        }
        let r = match tx.op {
            Op::Deposit(d) => account.deposit(d),
            Op::Withdrawal(w) => account.withdraw(w),
            Op::Dispute(d) => account.start_dispute(d),
            Op::Resolve(rv) => account.resolve_dispute(rv),
            Op::Chargeback(cb) => account.chargeback(cb),
        };
        if r.is_ok() && account.locked() {
            account.clear_deposit_records();
        }
        proof {
            lemma_wf_after_insert(old(self)@, client_id, account@);
        }
        self.account_map.insert(client_id, account);
        proof {
            assert(self@.accounts =~= spec_process_transaction(old(self)@, tx).0.accounts);
            assert(self@ =~= spec_process_transaction(old(self)@, tx).0);
        }
        r
    }

    /// Produces one snapshot row per known account, in the order the clients
    /// were first seen; callers may not rely on that order.
    pub fn output_items(&self) -> (r: Vec<EngineOutputItem>)
        requires
            self@.wf(),
        ensures
            r@.len() == self@.clients.len(),
            forall|i: int|
                0 <= i < r@.len() ==> #[trigger] is_snapshot_of(
                    r@[i],
                    self@.clients[i],
                    self@.accounts[self@.clients[i]],
                ),
    {
        let mut items: Vec<EngineOutputItem> = Vec::new();
        let n = self.client_ids.len();
        let mut i: usize = 0;
        while i < n
            invariant
                self@.wf(),
                n == self@.clients.len(),
                i <= n,
                items@.len() == i,
                forall|j: int|
                    0 <= j < i ==> #[trigger] is_snapshot_of(
                        items@[j],
                        self@.clients[j],
                        self@.accounts[self@.clients[j]],
                    ),
            decreases n - i,
        {
            let c = self.client_ids[i];
            proof {
                assert(self@.clients.contains(self@.clients[i as int]));
            }
            if let Some(account) = self.account_map.get(&c) {
                let balance = account.balance();
                items.push(
                    EngineOutputItem {
                        client: c,
                        available: balance.available,
                        held: balance.held,
                        total: balance.computed_total,
                        locked: account.locked(),
                    },
                );
            } else {
                proof {
                    assert(false);
                }
            }
            i += 1;
        }
        items
    }
}

impl EngineTransaction {
    /// Turns a raw input record into a transaction: deposits and withdrawals
    /// must carry a well-formed, non-negative amount; the other operations
    /// only name a prior transaction.
    pub fn parse_csv_record(record: &CsvInputRecord) -> (r: Result<EngineTransaction, Error>)
        ensures
            (record.tx_type matches TransactionType::Deposit || record.tx_type
                matches TransactionType::Withdrawal) ==> match record.amount {
                None => r == Err::<EngineTransaction, Error>(
                    Error::InvalidTransactionAmount("Amount is required"),
                ),
                Some(a) => match parsed_units(a@) {
                    None => (r matches Err(e) && e matches Error::ParseDecimal(_)),
                    Some(u) => if u < 0 {
                        r == Err::<EngineTransaction, Error>(
                            Error::InvalidTransactionAmount("Amount cannot be negative"),
                        )
                    } else {
                        r matches Ok(t) && t.client_id == record.client && match record.tx_type {
                            TransactionType::Deposit => t.op matches Op::Deposit(d)
                                && d.transaction_id == record.tx && d.amount@ == u,
                            TransactionType::Withdrawal => t.op matches Op::Withdrawal(w)
                                && w.amount@ == u,
                            _ => false,
                        }
                    },
                },
            },
            record.tx_type matches TransactionType::Dispute ==> r matches Ok(t) && t.client_id
                == record.client && t.op == Op::Dispute(
                Dispute { original_transaction_id: record.tx },
            ),
            record.tx_type matches TransactionType::Resolve ==> r matches Ok(t) && t.client_id
                == record.client && t.op == Op::Resolve(
                Resolve { original_transaction_id: record.tx },
            ),
            record.tx_type matches TransactionType::Chargeback ==> r matches Ok(t) && t.client_id
                == record.client && t.op == Op::Chargeback(
                Chargeback { original_transaction_id: record.tx },
            ),
    {
        let op = match record.tx_type {
            TransactionType::Deposit => Op::Deposit(
                Deposit {
                    transaction_id: record.tx,
                    amount: match Self::parse_amount(&record.amount) {
                        Ok(a) => a,
                        Err(e) => {
                            return Err(e);
                        },
                    },
                },
            ),
            TransactionType::Withdrawal => Op::Withdrawal(
                Withdrawal {
                    amount: match Self::parse_amount(&record.amount) {
                        Ok(a) => a,
                        Err(e) => {
                            return Err(e);
                        },
                    },
                },
            ),
            TransactionType::Dispute => Op::Dispute(
                Dispute { original_transaction_id: record.tx },
            ),
            TransactionType::Resolve => Op::Resolve(
                Resolve { original_transaction_id: record.tx },
            ),
            TransactionType::Chargeback => Op::Chargeback(
                Chargeback { original_transaction_id: record.tx },
            ),
        };
        Ok(EngineTransaction { client_id: record.client, op })
    }

    /// Demands a present, well-formed, non-negative amount.
    fn parse_amount(amount: &Option<Vec<char>>) -> (r: Result<CheckedDecimal, Error>)
        ensures
            match amount {
                None => r == Err::<CheckedDecimal, Error>(
                    Error::InvalidTransactionAmount("Amount is required"),
                ),
                Some(a) => match parsed_units(a@) {
                    None => (r matches Err(e) && e matches Error::ParseDecimal(_)),
                    Some(u) => if u < 0 {
                        r == Err::<CheckedDecimal, Error>(
                            Error::InvalidTransactionAmount("Amount cannot be negative"),
                        )
                    } else {
                        r matches Ok(v) && v@ == u
                    },
                },
            },
    {
        let text = match amount {
            Some(a) => a,
            None => {
                return Err(Error::InvalidTransactionAmount("Amount is required"));
            },
        };
        let value = match CheckedDecimal::parse_chars(text) {
            Ok(v) => v,
            Err(e) => {
                return Err(e);
            },
        };
        if value.is_sign_negative() {
            return Err(Error::InvalidTransactionAmount("Amount cannot be negative"));
        }
        Ok(value)
    }
}

/// The funds an account carries: `available + held`.
pub open spec fn funds_of(a: AccountView) -> int {
    a.balance.available + a.balance.held
}

/// The funds held across the listed clients' accounts.
pub open spec fn total_funds_at(accounts: Map<u16, AccountView>, clients: Seq<u16>) -> int
    decreases clients.len(),
{
    if clients.len() == 0 {
        0
    } else {
        total_funds_at(accounts, clients.drop_last()) + funds_of(accounts[clients.last()])
    }
}

/// The funds held across all of an engine's accounts.
pub open spec fn total_funds(e: EngineView) -> int {
    total_funds_at(e.accounts, e.clients)
}

/// What one processed transaction moves in or out of the engine as a whole:
/// the amount of an accepted deposit, the negated amount of an accepted
/// withdrawal, nothing otherwise.
pub open spec fn op_flow(op: Op, r: Result<(), Error>) -> int {
    match (op, r) {
        (Op::Deposit(d), Ok(())) => d.amount@,
        (Op::Withdrawal(w), Ok(())) => -w.amount@,
        _ => 0,
    }
}

/// The engine state after a whole batch of transactions.
pub open spec fn spec_run(e: EngineView, txs: Seq<EngineTransaction>) -> EngineView
    decreases txs.len(),
{
    if txs.len() == 0 {
        e
    } else {
        spec_run(spec_process_transaction(e, txs[0]).0, txs.skip(1))
    }
}

/// The accepted deposits minus the accepted withdrawals over a whole batch.
pub open spec fn net_flow(e: EngineView, txs: Seq<EngineTransaction>) -> int
    decreases txs.len(),
{
    if txs.len() == 0 {
        0
    } else {
        let (e1, r) = spec_process_transaction(e, txs[0]);
        op_flow(txs[0].op, r) + net_flow(e1, txs.skip(1))
    }
}

/// Two maps that agree on every listed client carry the same total funds.
proof fn lemma_total_funds_agree(m1: Map<u16, AccountView>, m2: Map<u16, AccountView>, clients: Seq<u16>)
    requires
        forall|i: int| 0 <= i < clients.len() ==> m1[#[trigger] clients[i]] == m2[clients[i]],
    ensures
        total_funds_at(m1, clients) == total_funds_at(m2, clients),
    decreases clients.len(),
{
    if clients.len() > 0 {
        let pre = clients.drop_last();
        assert(forall|i: int| 0 <= i < pre.len() ==> m1[#[trigger] pre[i]] == m2[pre[i]]);
        lemma_total_funds_agree(m1, m2, pre);
    }
}

/// Overwriting one listed client's account changes the total funds by
/// exactly that account's change.
proof fn lemma_total_funds_insert(m: Map<u16, AccountView>, clients: Seq<u16>, c: u16, a2: AccountView)
    requires
        clients.no_duplicates(),
        clients.contains(c),
    ensures
        total_funds_at(m.insert(c, a2), clients) == total_funds_at(m, clients) - funds_of(m[c])
            + funds_of(a2),
    decreases clients.len(),
{
    let pre = clients.drop_last();
    if clients.last() == c {
        assert(forall|i: int| 0 <= i < pre.len() ==> #[trigger] pre[i] != c);
        assert(forall|i: int| 0 <= i < pre.len() ==> m.insert(c, a2)[#[trigger] pre[i]] == m[pre[i]]);
        lemma_total_funds_agree(m.insert(c, a2), m, pre);
    } else {
        let i = choose|i: int| 0 <= i < clients.len() && clients[i] == c;
        assert(i < clients.len() - 1);
        assert(pre[i] == c);
        assert(pre.contains(c));
        assert(pre.no_duplicates());
        lemma_total_funds_insert(m, pre, c, a2);
    }
}

/// An operation keeps an account well formed; a failed one changes nothing;
/// none but a chargeback touches the lock, and none but a chargeback moves
/// funds in any way other than its own accepted flow.
proof fn lemma_apply_op_wf(a: AccountView, op: Op)
    requires
        a.wf(),
    ensures
        ({
            let (a1, r) = spec_apply_op(a, op);
            &&& a1.wf()
            &&& (a.locked ==> a1.locked)
            &&& (r is Err ==> a1 == a)
            &&& (!(op matches Op::Chargeback(_)) ==> a1.locked == a.locked && funds_of(a1)
                == funds_of(a) + op_flow(op, r))
        }),
{
    match op {
        Op::Deposit(d) => {
            balance_wf_after_mutate(a.balance, BalanceChange::AddAvailable(d.amount));
        },
        Op::Withdrawal(w) => {
            balance_wf_after_mutate(a.balance, BalanceChange::SubAvailable(w.amount));
        },
        Op::Dispute(d) => {
            if a.records.contains_key(d.original_transaction_id) {
                let amt = a.records[d.original_transaction_id].deposit_amount;
                balance_wf_after_mutate(a.balance, BalanceChange::SubAvailableAddHeld(amt, amt));
            }
        },
        Op::Resolve(rv) => {
            if a.records.contains_key(rv.original_transaction_id) {
                let amt = a.records[rv.original_transaction_id].deposit_amount;
                balance_wf_after_mutate(a.balance, BalanceChange::SubHeldAddAvailable(amt, amt));
            }
        },
        Op::Chargeback(cb) => {
            if a.records.contains_key(cb.original_transaction_id) {
                let amt = a.records[cb.original_transaction_id].deposit_amount;
                balance_wf_after_mutate(a.balance, BalanceChange::SubHeld(amt));
            }
        },
    }
}

/// One processed transaction that is no chargeback moves the engine's total
/// funds by exactly its own accepted flow.
proof fn lemma_step_conservation(e: EngineView, tx: EngineTransaction)
    requires
        e.wf(),
        !(tx.op matches Op::Chargeback(_)),
    ensures
        ({
            let (e1, r) = spec_process_transaction(e, tx);
            e1.wf() && total_funds(e1) == total_funds(e) + op_flow(tx.op, r)
        }),
{
    let c = tx.client_id;
    let known = e.accounts.contains_key(c);
    let a0 = if known {
        e.accounts[c]
    } else {
        spec_account_new()
    };
    if a0.locked {
        assert(known);
        lemma_wf_after_insert(e, c, a0);
        lemma_total_funds_insert(e.accounts, e.clients, c, a0);
    } else {
        let (a1, r) = spec_apply_op(a0, tx.op);
        lemma_apply_op_wf(a0, tx.op);
        assert(!a1.locked);
        lemma_wf_after_insert(e, c, a1);
        if known {
            lemma_total_funds_insert(e.accounts, e.clients, c, a1);
        } else {
            let m2 = e.accounts.insert(c, a1);
            let clients2 = e.clients.push(c);
            assert(clients2.drop_last() =~= e.clients);
            assert(clients2.last() == c);
            assert(total_funds_at(m2, clients2) == total_funds_at(m2, e.clients) + funds_of(
                m2[c],
            ));
            assert(!e.clients.contains(c));
            assert(forall|i: int| 0 <= i < e.clients.len() ==> #[trigger] e.clients[i] != c);
            assert(forall|i: int|
                0 <= i < e.clients.len() ==> m2[#[trigger] e.clients[i]] == e.accounts[e.clients[i]]);
            lemma_total_funds_agree(m2, e.accounts, e.clients);
        }
    }
}

/// Law: over any batch that holds no chargeback, the funds across all
/// accounts — `available + held` summed over every client — move by exactly
/// the accepted deposits minus the accepted withdrawals.
pub proof fn lemma_funds_conservation(e: EngineView, txs: Seq<EngineTransaction>)
    requires
        e.wf(),
        forall|i: int| 0 <= i < txs.len() ==> !((#[trigger] txs[i].op) matches Op::Chargeback(_)),
    ensures
        spec_run(e, txs).wf(),
        total_funds(spec_run(e, txs)) == total_funds(e) + net_flow(e, txs),
    decreases txs.len(),
{
    if txs.len() > 0 {
        lemma_step_conservation(e, txs[0]);
        let e1 = spec_process_transaction(e, txs[0]).0;
        let rest = txs.skip(1);
        assert(forall|i: int|
            0 <= i < rest.len() ==> !((#[trigger] rest[i].op) matches Op::Chargeback(_)));
        lemma_funds_conservation(e1, rest);
    }
}

/// Law: run from a fresh engine, a batch without chargebacks ends with the
/// funds across all accounts equal to the accepted deposits minus the
/// accepted withdrawals.
pub proof fn lemma_funds_conservation_from_start(txs: Seq<EngineTransaction>)
    requires
        forall|i: int| 0 <= i < txs.len() ==> !((#[trigger] txs[i].op) matches Op::Chargeback(_)),
    ensures
        total_funds(spec_run(spec_engine_new(), txs)) == net_flow(spec_engine_new(), txs),
{
    lemma_funds_conservation(spec_engine_new(), txs);
}

/// Any processed transaction keeps the engine well formed.
proof fn lemma_step_wf(e: EngineView, tx: EngineTransaction)
    requires
        e.wf(),
    ensures
        spec_process_transaction(e, tx).0.wf(),
{
    let c = tx.client_id;
    let known = e.accounts.contains_key(c);
    let a0 = if known {
        e.accounts[c]
    } else {
        spec_account_new()
    };
    if a0.locked {
        lemma_wf_after_insert(e, c, a0);
    } else {
        let (a1, r) = spec_apply_op(a0, tx.op);
        lemma_apply_op_wf(a0, tx.op);
        let a2 = if r is Ok && a1.locked {
            spec_clear_deposit_records(a1)
        } else {
            a1
        };
        lemma_wf_after_insert(e, c, a2);
    }
}

/// Law: the lock is monotonic — an account locked at some point of a run
/// stays locked for the remainder of the run, whatever transactions follow.
pub proof fn lemma_lock_monotonic(e: EngineView, txs: Seq<EngineTransaction>, c: u16)
    requires
        e.wf(),
        e.accounts.contains_key(c),
        e.accounts[c].locked,
    ensures
        spec_run(e, txs).accounts.contains_key(c),
        spec_run(e, txs).accounts[c].locked,
    decreases txs.len(),
{
    if txs.len() > 0 {
        let (e1, r) = spec_process_transaction(e, txs[0]);
        lemma_step_wf(e, txs[0]);
        if txs[0].client_id == c {
            let a0 = e.accounts[c];
            lemma_apply_op_wf(a0, txs[0].op);
        }
        lemma_lock_monotonic(e1, txs.skip(1), c);
    }
}

} // verus!
