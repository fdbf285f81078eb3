use vstd::prelude::*;

use crate::assoc::{
    assoc_map, has_key, keys_unique, lemma_assoc_map_index, lemma_assoc_map_push,
    lemma_assoc_map_update,
};
use crate::transaction::{Transaction, TransactionType};
use crate::transaction_error::{TransactionError, TransactionErrorTypes};

verus! {

/// A client account with id, balances, status, and previous transactions.
///
/// Balances count ten-thousandths (0.0001) of a currency unit, so every
/// balance has exactly four decimal places and the arithmetic is exact.
#[derive(Debug)]
pub struct Client {
    /// Unique client ID.
    pub id: u16,
    /// Funds available for withdrawal, in ten-thousandths of a unit.
    pub available: i64,
    /// Funds held in dispute, in ten-thousandths of a unit.
    pub held: i64,
    /// Total funds in the account, in ten-thousandths of a unit.
    pub total: i64,
    /// True once a chargeback has been issued; no further transaction is
    /// ever applied to a locked account.
    pub locked: bool,
    /// A log of previous transactions, grouped by transaction ID: each
    /// deposit or withdrawal opens the entry keyed by its own id, and each
    /// dispute, resolve, or chargeback is appended to the entry keyed by
    /// the id it references.
    pub transactions: Vec<(u32, Vec<Transaction>)>,
}

/// The mathematical state of an account: exact integer balances and the
/// transaction log read as a finite map from id to arrival-ordered entries.
#[verifier::ext_equal]
pub ghost struct AccountView {
    pub id: u16,
    pub available: int,
    pub held: int,
    pub total: int,
    pub locked: bool,
    pub history: Map<u32, Seq<Transaction>>,
}

impl View for Client {
    type V = AccountView;

    open spec fn view(&self) -> AccountView {
        AccountView {
            id: self.id,
            available: self.available as int,
            held: self.held as int,
            total: self.total as int,
            locked: self.locked,
            history: assoc_map(self.transactions@),
        }
    }
}

/// A history entry as opened by a deposit or withdrawal: nonempty, and its
/// first transaction (the one the entry is keyed by) carries a positive
/// amount.
pub open spec fn entry_ok(txs: Seq<Transaction>) -> bool {
    &&& txs.len() > 0
    &&& txs[0].amount is Some
    &&& txs[0].amount.unwrap() > 0
}

impl AccountView {
    /// Funds conservation: the total is exactly the available funds plus
    /// the held funds.
    pub open spec fn balanced(self) -> bool {
        self.total == self.available + self.held
    }

    /// Every history entry was opened by a deposit or withdrawal and so
    /// starts with a transaction carrying a positive amount.
    pub open spec fn entries_wf(self) -> bool {
        forall|id: u32| #[trigger] self.history.dom().contains(id) ==> entry_ok(self.history[id])
    }

    /// The invariant of every reachable account state.
    pub open spec fn wf(self) -> bool {
        self.balanced() && self.entries_wf()
    }

    /// All three balances fit in `i64`; a transition whose result would
    /// not is refused at run time.
    pub open spec fn in_i64_bounds(self) -> bool {
        &&& i64::MIN <= self.available <= i64::MAX
        &&& i64::MIN <= self.held <= i64::MAX
        &&& i64::MIN <= self.total <= i64::MAX
    }
}

impl Client {
    /// The invariant of every reachable `Client` value: no transaction id
    /// is logged twice, and the denoted account state is well formed.
    pub open spec fn wf(self) -> bool {
        keys_unique(self.transactions@) && self@.wf()
    }
}

/// Where in the log the entry for `id` stands, if anywhere.
fn find_entry(entries: &Vec<(u32, Vec<Transaction>)>, id: u32) -> (r: Option<usize>)
    ensures
        match r {
            Some(i) => i < entries@.len() && entries@[i as int].0 == id,
            None => !has_key(entries@, id),
        },
{
    let n = entries.len();
    let mut i: usize = 0;
    while i < n
        invariant
            i <= n,
            n == entries@.len(),
            forall|k: int| 0 <= k < i ==> entries@[k].0 != id,
        decreases n - i,
    {
        if entries[i].0 == id {
            return Some(i);
        }
        i += 1;
    }
    None
}

/// The transaction log after recording `t`: a new entry keyed by `t.id`
/// if none exists, else `t` appended to the existing entry.
pub open spec fn log_entry(h: Map<u32, Seq<Transaction>>, t: Transaction) -> Map<
    u32,
    Seq<Transaction>,
> {
    if h.dom().contains(t.id) {
        h.insert(t.id, h[t.id].push(t))
    } else {
        h.insert(t.id, seq![t])
    }
}

impl Client {
    /// Logs the transaction alongside any related transactions.
    fn log_transaction(&mut self, transaction: Transaction)
        requires
            keys_unique(old(self).transactions@),
        ensures
            keys_unique(final(self).transactions@),
            final(self)@ == (AccountView {
                history: log_entry(old(self)@.history, transaction),
                ..old(self)@
            }),
    {
        proof {
            lemma_assoc_map_index(self.transactions@);
        }
        match find_entry(&self.transactions, transaction.id) {
            Some(i) => {
                let ghost s = self.transactions@;
                let mut entry = self.transactions.remove(i);
                entry.1.push(transaction);
                let ghost newtxs = entry.1;
                self.transactions.insert(i, entry);
                proof {
                    assert(newtxs@ == s[i as int].1@.push(transaction));
                    assert(self.transactions@ =~= s.update(i as int, (s[i as int].0, newtxs)));
                    lemma_assoc_map_update(s, i as int, newtxs);
                    assert(self@.history == log_entry(old(self)@.history, transaction));
                    assert(self@ =~= (AccountView {
                        history: log_entry(old(self)@.history, transaction),
                        ..old(self)@
                    }));
                }
            },
            None => {
                let ghost s = self.transactions@;
                let txs = vec![transaction];
                let ghost newtxs = txs;
                self.transactions.push((transaction.id, txs));
                proof {
                    assert(newtxs@ =~= seq![transaction]);
                    lemma_assoc_map_push(s, transaction.id, newtxs);
                    assert(!old(self)@.history.dom().contains(transaction.id));
                    assert(self@.history == log_entry(old(self)@.history, transaction));
                    assert(self@ =~= (AccountView {
                        history: log_entry(old(self)@.history, transaction),
                        ..old(self)@
                    }));
                }
            },
        }
    }

    /// The logged transactions for the given id, in arrival order, if any.
    pub fn get_transactions(&self, id: u32) -> (r: Option<&Vec<Transaction>>)
        requires
            keys_unique(self.transactions@),
        ensures
            match r {
                Some(txs) => self@.history.dom().contains(id) && txs@ == self@.history[id],
                None => !self@.history.dom().contains(id),
            },
    {
        proof {
            lemma_assoc_map_index(self.transactions@);
        }
        match find_entry(&self.transactions, id) {
            Some(i) => Some(&self.transactions[i].1),
            None => None,
        }
    }
}

/// The entry's latest transaction is a dispute, so its funds are
/// currently held.
pub open spec fn last_is_dispute(txs: Seq<Transaction>) -> bool {
    txs.len() > 0 && txs[txs.len() - 1].transaction_type is Dispute
}

/// One outcome of the account state machine.
pub ghost enum Step {
    /// The transaction applies and the account moves to this state.
    Next(AccountView),
    /// The transaction is rejected with this error and the account is
    /// left unchanged.
    Reject(TransactionErrorTypes),
}

/// A deposit requires a positive amount; it adds the amount to the
/// available and total funds and opens the history entry keyed by its id.
pub open spec fn step_deposit(pre: AccountView, t: Transaction) -> Step {
    match t.amount {
        Some(a) => if a <= 0 {
            Step::Reject(TransactionErrorTypes::NonPositiveAmount)
        } else {
            Step::Next(
                AccountView {
                    available: pre.available + a as int,
                    total: pre.total + a as int,
                    history: log_entry(pre.history, t),
                    ..pre
                },
            )
        },
        None => Step::Reject(TransactionErrorTypes::MissingRequiredAmount),
    }
}

/// A withdrawal requires a positive amount no greater than the available
/// funds; it subtracts the amount from the available and total funds and
/// opens the history entry keyed by its id.
pub open spec fn step_withdrawal(pre: AccountView, t: Transaction) -> Step {
    match t.amount {
        Some(a) => if a <= 0 {
            Step::Reject(TransactionErrorTypes::NonPositiveAmount)
        } else if a as int > pre.available {
            Step::Reject(TransactionErrorTypes::InsufficientFunds)
        } else {
            Step::Next(
                AccountView {
                    available: pre.available - a as int,
                    total: pre.total - a as int,
                    history: log_entry(pre.history, t),
                    ..pre
                },
            )
        },
        None => Step::Reject(TransactionErrorTypes::MissingRequiredAmount),
    }
}

/// A dispute carries no amount and references an existing entry; it moves
/// the referenced transaction's amount from available to held funds. The
/// referenced transaction may be a withdrawal as well as a deposit: the
/// funds move by its amount either way, which can drive the available
/// funds negative. That is the chosen behaviour, not an accident.
pub open spec fn step_dispute(pre: AccountView, t: Transaction) -> Step {
    if t.amount is Some {
        Step::Reject(TransactionErrorTypes::HasMeaninglessAmount)
    } else if !pre.history.dom().contains(t.id) {
        Step::Reject(TransactionErrorTypes::InvalidIdReferenced)
    } else {
        let a = pre.history[t.id][0].amount.unwrap() as int;
        Step::Next(
            AccountView {
                available: pre.available - a,
                held: pre.held + a,
                history: log_entry(pre.history, t),
                ..pre
            },
        )
    }
}

/// A resolve carries no amount and references an existing entry. If that
/// entry's latest transaction is a dispute it moves the referenced amount
/// back from held to available funds; otherwise it only logs itself.
pub open spec fn step_resolve(pre: AccountView, t: Transaction) -> Step {
    if t.amount is Some {
        Step::Reject(TransactionErrorTypes::HasMeaninglessAmount)
    } else if !pre.history.dom().contains(t.id) {
        Step::Reject(TransactionErrorTypes::InvalidIdReferenced)
    } else if !last_is_dispute(pre.history[t.id]) {
        Step::Next(AccountView { history: log_entry(pre.history, t), ..pre })
    } else {
        let a = pre.history[t.id][0].amount.unwrap() as int;
        Step::Next(
            AccountView {
                available: pre.available + a,
                held: pre.held - a,
                history: log_entry(pre.history, t),
                ..pre
            },
        )
    }
}

/// A chargeback carries no amount and references an existing entry. If
/// that entry's latest transaction is a dispute it removes the referenced
/// amount from held and total funds and locks the account; otherwise it
/// only logs itself.
pub open spec fn step_chargeback(pre: AccountView, t: Transaction) -> Step {
    if t.amount is Some {
        Step::Reject(TransactionErrorTypes::HasMeaninglessAmount)
    } else if !pre.history.dom().contains(t.id) {
        Step::Reject(TransactionErrorTypes::InvalidIdReferenced)
    } else if !last_is_dispute(pre.history[t.id]) {
        Step::Next(AccountView { history: log_entry(pre.history, t), ..pre })
    } else {
        let a = pre.history[t.id][0].amount.unwrap() as int;
        Step::Next(
            AccountView {
                held: pre.held - a,
                total: pre.total - a,
                locked: true,
                history: log_entry(pre.history, t),
                ..pre
            },
        )
    }
}

/// The transition function of the account state machine: how one
/// transaction moves an account to its next state, or is rejected. A
/// locked account rejects every transaction.
pub open spec fn step(pre: AccountView, t: Transaction) -> Step {
    if pre.locked {
        Step::Reject(TransactionErrorTypes::AccountLocked)
    } else {
        match t.transaction_type {
            TransactionType::Deposit => step_deposit(pre, t),
            TransactionType::Withdrawal => step_withdrawal(pre, t),
            TransactionType::Dispute => step_dispute(pre, t),
            TransactionType::Resolve => step_resolve(pre, t),
            TransactionType::Chargeback => step_chargeback(pre, t),
        }
    }
}

/// What an apply function returns, given the step the state machine
/// takes: the next state when its balances are representable, the step's
/// own error otherwise or on a rejection — and on every error the account
/// exactly as it was handed in.
pub open spec fn resolves_to(
    pre: Client,
    t: Transaction,
    s: Step,
    r: Result<Client, TransactionError>,
) -> bool {
    match s {
        Step::Next(v) => if v.in_i64_bounds() {
            r matches Ok(c) && c@ == v && c.wf()
        } else {
            r matches Err(e) && e.error_type is Unspecified && e.client == pre && e.transaction
                == t
        },
        Step::Reject(k) => r matches Err(e) && e.error_type == k && e.client == pre
            && e.transaction == t,
    }
}

/// Recording a transaction keeps every history entry well formed, as long
/// as a fresh entry is only opened by a transaction with a positive
/// amount.
proof fn lemma_log_entry_wf(h: Map<u32, Seq<Transaction>>, t: Transaction)
    requires
        forall|id: u32| #[trigger] h.dom().contains(id) ==> entry_ok(h[id]),
        h.dom().contains(t.id) || (t.amount is Some && t.amount.unwrap() > 0),
    ensures
        forall|id: u32| #[trigger] log_entry(h, t).dom().contains(id) ==> entry_ok(
            log_entry(h, t)[id],
        ),
{
    let h1 = log_entry(h, t);
    assert forall|id: u32| #[trigger] h1.dom().contains(id) implies entry_ok(h1[id]) by {
        if id == t.id {
            if h.dom().contains(t.id) {
                assert(h1[id] == h[t.id].push(t));
                assert(h1[id][0] == h[t.id][0]);
            } else {
                assert(h1[id] == seq![t]);
            }
        } else {
            assert(h.dom().contains(id));
        }
    }
}

impl Client {
    /// If the given amount is a positive number, adds it to the available
    /// and total funds and logs the transaction under its own id.
    pub fn apply_deposit(self, transaction: Transaction) -> (r: Result<Client, TransactionError>)
        requires
            self.wf(),
        ensures
            resolves_to(self, transaction, step_deposit(self@, transaction), r),
    {
        let ghost pre = self;
        let mut c = self;
        match transaction.amount {
            Some(amount) => {
                if amount <= 0 {
                    return Err(
                        TransactionError {
                            error_type: TransactionErrorTypes::NonPositiveAmount,
                            transaction,
                            client: c,
                        },
                    );
                }
                if c.available > i64::MAX - amount || c.total > i64::MAX - amount {
                    return Err(
                        TransactionError {
                            error_type: TransactionErrorTypes::Unspecified,
                            transaction,
                            client: c,
                        },
                    );
                }
                c.available = c.available + amount;
                c.total = c.total + amount;
                c.log_transaction(transaction);
                proof {
                    lemma_log_entry_wf(pre@.history, transaction);
                    assert(c@ =~= (AccountView {
                        available: pre@.available + amount as int,
                        total: pre@.total + amount as int,
                        history: log_entry(pre@.history, transaction),
                        ..pre@
                    }));
                }
                Ok(c)
            },
            None => Err(
                TransactionError {
                    error_type: TransactionErrorTypes::MissingRequiredAmount,
                    transaction,
                    client: c,
                },
            ),
        }
    }

    /// If the given amount is a positive number no greater than the
    /// available funds, subtracts it from the available and total funds
    /// and logs the transaction under its own id.
    pub fn apply_withdrawal(self, transaction: Transaction) -> (r: Result<
        Client,
        TransactionError,
    >)
        requires
            self.wf(),
        ensures
            resolves_to(self, transaction, step_withdrawal(self@, transaction), r),
    {
        let ghost pre = self;
        let mut c = self;
        match transaction.amount {
            Some(amount) => {
                if amount <= 0 {
                    return Err(
                        TransactionError {
                            error_type: TransactionErrorTypes::NonPositiveAmount,
                            transaction,
                            client: c,
                        },
                    );
                }
                if amount > c.available {
                    return Err(
                        TransactionError {
                            error_type: TransactionErrorTypes::InsufficientFunds,
                            transaction,
                            client: c,
                        },
                    );
                }
                if c.total < i64::MIN + amount {
                    return Err(
                        TransactionError {
                            error_type: TransactionErrorTypes::Unspecified,
                            transaction,
                            client: c,
                        },
                    );
                }
                c.available = c.available - amount;
                c.total = c.total - amount;
                c.log_transaction(transaction);
                proof {
                    lemma_log_entry_wf(pre@.history, transaction);
                    assert(c@ =~= (AccountView {
                        available: pre@.available - amount as int,
                        total: pre@.total - amount as int,
                        history: log_entry(pre@.history, transaction),
                        ..pre@
                    }));
                }
                Ok(c)
            },
            None => Err(
                TransactionError {
                    error_type: TransactionErrorTypes::MissingRequiredAmount,
                    transaction,
                    client: c,
                },
            ),
        }
    }

    /// If the given transaction id exists in the log, moves the amount of
    /// the referenced transaction from available to held funds; an unknown
    /// id is rejected. The referenced transaction may be a withdrawal as
    /// well as a deposit; its amount moves either way.
    pub fn apply_dispute(self, transaction: Transaction) -> (r: Result<Client, TransactionError>)
        requires
            self.wf(),
        ensures
            resolves_to(self, transaction, step_dispute(self@, transaction), r),
    {
        let ghost pre = self;
        let mut c = self;
        if transaction.amount.is_some() {
            return Err(
                TransactionError {
                    error_type: TransactionErrorTypes::HasMeaninglessAmount,
                    transaction,
                    client: c,
                },
            );
        }
        proof {
            lemma_assoc_map_index(c.transactions@);
        }
        match find_entry(&c.transactions, transaction.id) {
            Some(i) => {
                proof {
                    assert(pre@.history.dom().contains(transaction.id));
                    assert(pre@.history[transaction.id] == c.transactions@[i as int].1@);
                    assert(entry_ok(pre@.history[transaction.id]));
                }
                let amount = c.transactions[i].1[0].amount.unwrap();
                if c.available < i64::MIN + amount || c.held > i64::MAX - amount {
                    return Err(
                        TransactionError {
                            error_type: TransactionErrorTypes::Unspecified,
                            transaction,
                            client: c,
                        },
                    );
                }
                c.available = c.available - amount;
                c.held = c.held + amount;
                c.log_transaction(transaction);
                proof {
                    lemma_log_entry_wf(pre@.history, transaction);
                    assert(c@ =~= (AccountView {
                        available: pre@.available - amount as int,
                        held: pre@.held + amount as int,
                        history: log_entry(pre@.history, transaction),
                        ..pre@
                    }));
                }
                Ok(c)
            },
            None => Err(
                TransactionError {
                    error_type: TransactionErrorTypes::InvalidIdReferenced,
                    transaction,
                    client: c,
                },
            ),
        }
    }

    /// If the given transaction id exists in the log and a dispute was its
    /// latest entry, moves the referenced amount from held back to
    /// available funds; an unknown id is rejected; a referenced entry not
    /// currently disputed leaves the funds untouched but is still logged.
    pub fn apply_resolve(self, transaction: Transaction) -> (r: Result<Client, TransactionError>)
        requires
            self.wf(),
        ensures
            resolves_to(self, transaction, step_resolve(self@, transaction), r),
    {
        let ghost pre = self;
        let mut c = self;
        if transaction.amount.is_some() {
            return Err(
                TransactionError {
                    error_type: TransactionErrorTypes::HasMeaninglessAmount,
                    transaction,
                    client: c,
                },
            );
        }
        proof {
            lemma_assoc_map_index(c.transactions@);
        }
        match find_entry(&c.transactions, transaction.id) {
            Some(i) => {
                proof {
                    assert(pre@.history.dom().contains(transaction.id));
                    assert(pre@.history[transaction.id] == c.transactions@[i as int].1@);
                    assert(entry_ok(pre@.history[transaction.id]));
                }
                let len = c.transactions[i].1.len();
                if c.transactions[i].1[len - 1].transaction_type != TransactionType::Dispute {
                    c.log_transaction(transaction);
                    proof {
                        lemma_log_entry_wf(pre@.history, transaction);
                        assert(c@ =~= (AccountView {
                            history: log_entry(pre@.history, transaction),
                            ..pre@
                        }));
                    }
                    return Ok(c);
                }
                let amount = c.transactions[i].1[0].amount.unwrap();
                if c.held < i64::MIN + amount || c.available > i64::MAX - amount {
                    return Err(
                        TransactionError {
                            error_type: TransactionErrorTypes::Unspecified,
                            transaction,
                            client: c,
                        },
                    );
                }
                c.held = c.held - amount;
                c.available = c.available + amount;
                c.log_transaction(transaction);
                proof {
                    lemma_log_entry_wf(pre@.history, transaction);
                    assert(c@ =~= (AccountView {
                        available: pre@.available + amount as int,
                        held: pre@.held - amount as int,
                        history: log_entry(pre@.history, transaction),
                        ..pre@
                    }));
                }
                Ok(c)
            },
            None => Err(
                TransactionError {
                    error_type: TransactionErrorTypes::InvalidIdReferenced,
                    transaction,
                    client: c,
                },
            ),
        }
    }

    /// If the given transaction id exists in the log and a dispute was its
    /// latest entry, removes the referenced amount from held and total
    /// funds and locks the account; an unknown id is rejected; a
    /// referenced entry not currently disputed leaves the funds untouched
    /// but is still logged.
    pub fn apply_chargeback(self, transaction: Transaction) -> (r: Result<
        Client,
        TransactionError,
    >)
        requires
            self.wf(),
        ensures
            resolves_to(self, transaction, step_chargeback(self@, transaction), r),
    {
        let ghost pre = self;
        let mut c = self;
        if transaction.amount.is_some() {
            return Err(
                TransactionError {
                    error_type: TransactionErrorTypes::HasMeaninglessAmount,
                    transaction,
                    client: c,
                },
            );
        }
        proof {
            lemma_assoc_map_index(c.transactions@);
        }
        match find_entry(&c.transactions, transaction.id) {
            Some(i) => {
                proof {
                    assert(pre@.history.dom().contains(transaction.id));
                    assert(pre@.history[transaction.id] == c.transactions@[i as int].1@);
                    assert(entry_ok(pre@.history[transaction.id]));
                }
                let len = c.transactions[i].1.len();
                if c.transactions[i].1[len - 1].transaction_type != TransactionType::Dispute {
                    c.log_transaction(transaction);
                    proof {
                        lemma_log_entry_wf(pre@.history, transaction);
                        assert(c@ =~= (AccountView {
                            history: log_entry(pre@.history, transaction),
                            ..pre@
                        }));
                    }
                    return Ok(c);
                }
                let amount = c.transactions[i].1[0].amount.unwrap();
                if c.held < i64::MIN + amount || c.total < i64::MIN + amount {
                    return Err(
                        TransactionError {
                            error_type: TransactionErrorTypes::Unspecified,
                            transaction,
                            client: c,
                        },
                    );
                }
                c.held = c.held - amount;
                c.total = c.total - amount;
                c.locked = true;
                c.log_transaction(transaction);
                proof {
                    lemma_log_entry_wf(pre@.history, transaction);
                    assert(c@ =~= (AccountView {
                        held: pre@.held - amount as int,
                        total: pre@.total - amount as int,
                        locked: true,
                        history: log_entry(pre@.history, transaction),
                        ..pre@
                    }));
                }
                Ok(c)
            },
            None => Err(
                TransactionError {
                    error_type: TransactionErrorTypes::InvalidIdReferenced,
                    transaction,
                    client: c,
                },
            ),
        }
    }

    /// Tries to apply the given transaction to the client, and if
    /// successful returns the updated client; a locked account rejects
    /// every transaction. On any error the returned account environment is
    /// exactly the client as it was handed in: a rejected transaction
    /// never alters balances, lock status, or history.
    pub fn apply_transaction(self, transaction: Transaction) -> (r: Result<
        Client,
        TransactionError,
    >)
        requires
            self.wf(),
        ensures
            resolves_to(self, transaction, step(self@, transaction), r),
    {
        if self.locked {
            return Err(
                TransactionError {
                    error_type: TransactionErrorTypes::AccountLocked,
                    transaction,
                    client: self,
                },
            );
        }
        match transaction.transaction_type {
            TransactionType::Deposit => self.apply_deposit(transaction),
            TransactionType::Withdrawal => self.apply_withdrawal(transaction),
            TransactionType::Dispute => self.apply_dispute(transaction),
            TransactionType::Resolve => self.apply_resolve(transaction),
            TransactionType::Chargeback => self.apply_chargeback(transaction),
        }
    }
}

/// The account a client starts with: zeroed balances, unlocked, and an
/// empty transaction log.
pub open spec fn fresh_account(id: u16) -> AccountView {
    AccountView { id, available: 0, held: 0, total: 0, locked: false, history: Map::empty() }
}

/// What `initialize_client` returns: a rejection of any first transaction
/// that is not a deposit, else whatever one step of the state machine
/// makes of that deposit on a fresh account — with the fresh, unmodified
/// account embedded in every error.
pub open spec fn initialize_resolves_to(t: Transaction, r: Result<
    Client,
    TransactionError,
>) -> bool {
    if !(t.transaction_type is Deposit) {
        r matches Err(e) && e.error_type is FirstTransactionNotDeposit && e.client@
            == fresh_account(t.client_id) && e.client.wf() && e.transaction == t
    } else {
        match step(fresh_account(t.client_id), t) {
            Step::Next(v) => if v.in_i64_bounds() {
                r matches Ok(c) && c@ == v && c.wf()
            } else {
                r matches Err(e) && e.error_type is Unspecified && e.client@ == fresh_account(
                    t.client_id,
                ) && e.transaction == t
            },
            Step::Reject(k) => r matches Err(e) && e.error_type == k && e.client@
                == fresh_account(t.client_id) && e.transaction == t,
        }
    }
}

/// Creates a new client with default settings, then applies their first
/// transaction, which must be a deposit.
pub fn initialize_client(transaction: Transaction) -> (r: Result<Client, TransactionError>)
    ensures
        initialize_resolves_to(transaction, r),
{
    let client = Client {
        id: transaction.client_id,
        available: 0,
        held: 0,
        total: 0,
        locked: false,
        transactions: Vec::new(),
    };
    proof {
        assert(client.transactions@ =~= Seq::<(u32, Vec<Transaction>)>::empty());
        assert(client@.history =~= Map::<u32, Seq<Transaction>>::empty());
        assert(client@ =~= fresh_account(transaction.client_id));
        assert(client.wf());
    }
    if transaction.transaction_type != TransactionType::Deposit {
        return Err(
            TransactionError {
                error_type: TransactionErrorTypes::FirstTransactionNotDeposit,
                transaction,
                client,
            },
        );
    }
    client.apply_transaction(transaction)
}

/// Every applying step keeps the account's id, and keeps the account
/// invariant: a well-formed account can only step to a well-formed
/// account.
pub proof fn lemma_step_preserves_wf(pre: AccountView, t: Transaction)
    ensures
        step(pre, t) matches Step::Next(v) ==> v.id == pre.id && (pre.wf() ==> v.wf()),
{
    match step(pre, t) {
        Step::Next(v) => {
            if pre.wf() {
                match t.transaction_type {
                    TransactionType::Deposit => {
                        lemma_log_entry_wf(pre.history, t);
                    },
                    TransactionType::Withdrawal => {
                        lemma_log_entry_wf(pre.history, t);
                    },
                    TransactionType::Dispute => {
                        lemma_log_entry_wf(pre.history, t);
                    },
                    TransactionType::Resolve => {
                        lemma_log_entry_wf(pre.history, t);
                    },
                    TransactionType::Chargeback => {
                        lemma_log_entry_wf(pre.history, t);
                    },
                }
            }
        },
        Step::Reject(_) => {},
    }
}

/// Funds conservation: from an account whose total equals its available
/// plus held funds, every applying step leads to an account for which the
/// same equation holds exactly.
pub proof fn lemma_step_preserves_balance(pre: AccountView, t: Transaction)
    requires
        pre.balanced(),
    ensures
        step(pre, t) matches Step::Next(v) ==> v.balanced(),
{
}

/// The lock is a one-way latch: a locked account rejects every
/// transaction outright, so no later step changes any of its balance
/// fields, its lock, or its history.
pub proof fn lemma_locked_is_final(pre: AccountView, t: Transaction)
    requires
        pre.locked,
    ensures
        step(pre, t) == Step::Reject(TransactionErrorTypes::AccountLocked),
{
}

/// A withdrawal of exactly the available funds succeeds and leaves
/// exactly nothing available.
pub proof fn lemma_withdraw_all(pre: AccountView, t: Transaction)
    requires
        !pre.locked,
        t.transaction_type is Withdrawal,
        t.amount is Some,
        t.amount.unwrap() > 0,
        t.amount.unwrap() as int == pre.available,
    ensures
        step(pre, t) matches Step::Next(v) && v.available == 0 && v.held == pre.held && v.total
            == pre.total - pre.available,
{
}

/// A dispute referencing any existing entry — one opened by a withdrawal
/// as much as by a deposit — moves exactly the referenced transaction's
/// amount from available to held funds and leaves the total unchanged.
pub proof fn lemma_dispute_moves_referenced_amount(pre: AccountView, t: Transaction)
    requires
        !pre.locked,
        t.transaction_type is Dispute,
        t.amount is None,
        pre.history.dom().contains(t.id),
    ensures
        step(pre, t) matches Step::Next(v) && v.available == pre.available
            - pre.history[t.id][0].amount.unwrap() && v.held == pre.held
            + pre.history[t.id][0].amount.unwrap() && v.total == pre.total,
{
}

impl Clone for Client {
    /// Clones the account; the copy denotes the same account state, entry
    /// by entry.
    fn clone(&self) -> (r: Self)
        ensures
            r@ == self@,
            r.id == self.id && r.available == self.available && r.held == self.held && r.total
                == self.total && r.locked == self.locked,
            r.transactions@.len() == self.transactions@.len(),
            forall|i: int|
                #![auto]
                0 <= i < self.transactions@.len() ==> r.transactions@[i].0
                    == self.transactions@[i].0 && r.transactions@[i].1@
                    == self.transactions@[i].1@,
            self.wf() ==> r.wf(),
    {
        let n = self.transactions.len();
        let mut transactions: Vec<(u32, Vec<Transaction>)> = Vec::new();
        let mut i: usize = 0;
        while i < n
            invariant
                i <= n,
                n == self.transactions@.len(),
                transactions@.len() == i as int,
                forall|k: int|
                    #![auto]
                    0 <= k < i ==> transactions@[k].0 == self.transactions@[k].0
                        && transactions@[k].1@ == self.transactions@[k].1@,
            decreases n - i,
        {
            let m = self.transactions[i].1.len();
            let mut txs: Vec<Transaction> = Vec::new();
            let mut j: usize = 0;
            while j < m
                invariant
                    j <= m,
                    i < self.transactions@.len(),
                    m == self.transactions@[i as int].1@.len(),
                    txs@.len() == j as int,
                    forall|k: int|
                        0 <= k < j ==> txs@[k] == self.transactions@[i as int].1@[k],
                decreases m - j,
            {
                txs.push(self.transactions[i].1[j]);
                j += 1;
            }
            proof {
                assert(txs@ =~= self.transactions@[i as int].1@);
            }
            transactions.push((self.transactions[i].0, txs));
            i += 1;
        }
        let r = Client {
            id: self.id,
            available: self.available,
            held: self.held,
            total: self.total,
            locked: self.locked,
            transactions,
        };
        proof {
            crate::assoc::lemma_assoc_map_equiv(r.transactions@, self.transactions@);
            assert(r@ =~= self@);
            if self.wf() {
                assert(keys_unique(r.transactions@));
            }
        }
        r
    }
}

} // verus!
