//! A client account and the rules by which transactions change it.

use crate::amount::{
    zero_amount,
    decimal_checked_sum, decimal_text, difference_fits, minus_defined, minus_four_places,
    plus_defined, plus_four_places, sum_fits, Amount,
};
use crate::text::{decimal_digits, integer_text};
use crate::transaction::Transaction;
use std::collections::HashMap;
use vstd::prelude::*;
use vstd::string::StringExecFns;

verus! {

broadcast use vstd::std_specs::hash::group_hash_axioms;

/// Why a transaction was rejected.
#[derive(Debug, Clone, Copy, PartialEq, Eq, Structural)]
pub enum ClientError {
    /// A deposit or withdrawal on a locked account.
    AccountLocked,
    /// A withdrawal of more than the available funds.
    InsufficientFunds,
    /// A dispute, resolve or chargeback that refers to no suitable transaction of this client.
    InvalidTransaction,
    /// A deposit or withdrawal whose id this client has already used.
    TransactionReferenceConflict,
}

/// Whether a recorded transaction put funds in or took them out.
#[derive(Debug, Clone, Copy, PartialEq, Eq, Structural)]
pub enum FundsKind {
    Deposit,
    Withdrawal,
}

/// Where a recorded transaction stands with respect to disputes.
#[derive(Debug, Clone, Copy, PartialEq, Eq, Structural)]
pub enum DisputeState {
    /// Never disputed.
    Undisputed,
    /// Under an open dispute.
    Disputed,
    /// Its dispute was resolved; it cannot be disputed again.
    Resolved,
    /// It was charged back; it cannot be disputed again.
    ChargedBack,
}

/// A deposit or withdrawal as the client remembers it.
#[derive(Debug, Clone, Copy)]
pub struct FundsTransaction {
    pub kind: FundsKind,
    pub amount: Amount,
    pub state: DisputeState,
}

/// A client's account.
pub struct Client {
    pub client_id: u16,
    pub available: Amount,
    pub held: Amount,
    pub locked: bool,
    /// The deposits and withdrawals of this client, by transaction id.
    pub transactions: HashMap<u32, FundsTransaction>,
}

/// The abstract state of a client.
pub struct ClientModel {
    pub client_id: u16,
    pub available: Amount,
    pub held: Amount,
    pub locked: bool,
    /// The client's deposits and withdrawals, by transaction id.
    pub history: Map<u32, FundsTransaction>,
}

/// `r` is `(a + b).round_dp(4)`; when both have at most four places and the
/// exact sum can be written with the larger scale, it is the exact sum, with
/// at most four places.
pub open spec fn added(a: Amount, b: Amount, r: Amount) -> bool {
    &&& r@ == plus_four_places(a, b)
    &&& sum_fits(a, b) ==> r@.2 <= 4 && r.value() == a.value() + b.value()
}

/// `r` is `(a - b).round_dp(4)`; when both have at most four places and the
/// exact difference can be written with the larger scale, it is the exact
/// difference, with at most four places.
pub open spec fn subtracted(a: Amount, b: Amount, r: Amount) -> bool {
    &&& r@ == minus_four_places(a, b)
    &&& difference_fits(a, b) ==> r@.2 <= 4 && r.value() == a.value() - b.value()
}

/// The transaction with id `tx` can be disputed.
pub open spec fn disputable(c: ClientModel, tx: u32) -> bool {
    c.history.contains_key(tx) && c.history[tx].state == DisputeState::Undisputed
}

/// The transaction with id `tx` is under an open dispute.
pub open spec fn under_dispute(c: ClientModel, tx: u32) -> bool {
    c.history.contains_key(tx) && c.history[tx].state == DisputeState::Disputed
}

/// `tx` now carries the dispute state `s`, all else in the history unchanged.
pub open spec fn restated(c: ClientModel, tx: u32, s: DisputeState) -> Map<u32, FundsTransaction> {
    c.history.insert(tx, FundsTransaction { state: s, ..c.history[tx] })
}

/// The error a transaction meets in state `c`, if any.
pub open spec fn rejection(c: ClientModel, t: Transaction) -> Option<ClientError> {
    match t {
        Transaction::Deposit { tx, .. } => if c.locked {
            Some(ClientError::AccountLocked)
        } else if c.history.contains_key(tx) {
            Some(ClientError::TransactionReferenceConflict)
        } else {
            None
        },
        Transaction::Withdrawal { tx, amount, .. } => if c.locked {
            Some(ClientError::AccountLocked)
        } else if c.available.value() < amount.value() {
            Some(ClientError::InsufficientFunds)
        } else if c.history.contains_key(tx) {
            Some(ClientError::TransactionReferenceConflict)
        } else {
            None
        },
        Transaction::Dispute { tx, .. } => if disputable(c, tx) {
            None
        } else {
            Some(ClientError::InvalidTransaction)
        },
        Transaction::Resolve { tx, .. } => if under_dispute(c, tx) {
            None
        } else {
            Some(ClientError::InvalidTransaction)
        },
        Transaction::Chargeback { tx, .. } => if under_dispute(c, tx) {
            None
        } else {
            Some(ClientError::InvalidTransaction)
        },
        Transaction::DisputedDeposit { .. } => Some(ClientError::InvalidTransaction),
        Transaction::DisputedWithdrawal { .. } => Some(ClientError::InvalidTransaction),
    }
}

/// The arithmetic that an accepted transaction performs stays within range
/// (otherwise the decimal operations overflow).
pub open spec fn arithmetic_defined(c: ClientModel, t: Transaction) -> bool {
    rejection(c, t) is None ==> match t {
        Transaction::Deposit { amount, .. } => plus_defined(c.available, amount),
        Transaction::Withdrawal { amount, .. } => minus_defined(c.available, amount),
        Transaction::Dispute { tx, .. } => {
            let f = c.history[tx];
            plus_defined(c.held, f.amount) && (f.kind == FundsKind::Deposit ==> minus_defined(
                c.available,
                f.amount,
            ))
        },
        Transaction::Resolve { tx, .. } => {
            let f = c.history[tx];
            minus_defined(c.held, f.amount) && (f.kind == FundsKind::Deposit ==> plus_defined(
                c.available,
                f.amount,
            ))
        },
        Transaction::Chargeback { tx, .. } => {
            let f = c.history[tx];
            minus_defined(c.held, f.amount) && (f.kind == FundsKind::Withdrawal
                ==> plus_defined(c.available, f.amount))
        },
        Transaction::DisputedDeposit { .. } => true,
        Transaction::DisputedWithdrawal { .. } => true,
    }
}

/// The arithmetic that an accepted transaction performs is on amounts with at
/// most four places whose exact results can be written with the larger of
/// the two scales; it is then exact, and in particular within range.
pub open spec fn arithmetic_exact(c: ClientModel, t: Transaction) -> bool {
    rejection(c, t) is None ==> match t {
        Transaction::Deposit { amount, .. } => sum_fits(c.available, amount),
        Transaction::Withdrawal { amount, .. } => difference_fits(c.available, amount),
        Transaction::Dispute { tx, .. } => {
            let f = c.history[tx];
            sum_fits(c.held, f.amount) && (f.kind == FundsKind::Deposit ==> difference_fits(
                c.available,
                f.amount,
            ))
        },
        Transaction::Resolve { tx, .. } => {
            let f = c.history[tx];
            difference_fits(c.held, f.amount) && (f.kind == FundsKind::Deposit ==> sum_fits(
                c.available,
                f.amount,
            ))
        },
        Transaction::Chargeback { tx, .. } => {
            let f = c.history[tx];
            difference_fits(c.held, f.amount) && (f.kind == FundsKind::Withdrawal ==> sum_fits(
                c.available,
                f.amount,
            ))
        },
        Transaction::DisputedDeposit { .. } => true,
        Transaction::DisputedWithdrawal { .. } => true,
    }
}

/// How an accepted transaction changes the state (`new`) from `old`.
pub open spec fn applied(old: ClientModel, t: Transaction, new: ClientModel) -> bool {
    &&& new.client_id == old.client_id
    &&& match t {
        Transaction::Deposit { tx, amount, .. } => {
            &&& added(old.available, amount, new.available)
            &&& new.held == old.held
            &&& new.locked == old.locked
            &&& new.history == old.history.insert(
                tx,
                FundsTransaction {
                    kind: FundsKind::Deposit,
                    amount,
                    state: DisputeState::Undisputed,
                },
            )
        },
        Transaction::Withdrawal { tx, amount, .. } => {
            &&& subtracted(old.available, amount, new.available)
            &&& new.held == old.held
            &&& new.locked == old.locked
            &&& new.history == old.history.insert(
                tx,
                FundsTransaction {
                    kind: FundsKind::Withdrawal,
                    amount,
                    state: DisputeState::Undisputed,
                },
            )
        },
        Transaction::Dispute { tx, .. } => {
            let f = old.history[tx];
            &&& added(old.held, f.amount, new.held)
            &&& if f.kind == FundsKind::Deposit {
                subtracted(old.available, f.amount, new.available)
            } else {
                new.available == old.available
            }
            &&& new.locked == old.locked
            &&& new.history == restated(old, tx, DisputeState::Disputed)
        },
        Transaction::Resolve { tx, .. } => {
            let f = old.history[tx];
            &&& subtracted(old.held, f.amount, new.held)
            &&& if f.kind == FundsKind::Deposit {
                added(old.available, f.amount, new.available)
            } else {
                new.available == old.available
            }
            &&& new.locked == old.locked
            &&& new.history == restated(old, tx, DisputeState::Resolved)
        },
        Transaction::Chargeback { tx, .. } => {
            let f = old.history[tx];
            &&& subtracted(old.held, f.amount, new.held)
            &&& if f.kind == FundsKind::Withdrawal {
                added(old.available, f.amount, new.available)
            } else {
                new.available == old.available
            }
            &&& new.locked
            &&& new.history == restated(old, tx, DisputeState::ChargedBack)
        },
        Transaction::DisputedDeposit { .. } => false,
        Transaction::DisputedWithdrawal { .. } => false,
    }
}

/// What processing `t` does: a rejected transaction leaves the state as it
/// was and reports its error; an accepted one is applied and reports `Ok`.
pub open spec fn processed(
    old: ClientModel,
    t: Transaction,
    new: ClientModel,
    r: Result<(), ClientError>,
) -> bool {
    match rejection(old, t) {
        Some(e) => r == Err::<(), ClientError>(e) && new == old,
        None => r == Ok::<(), ClientError>(()) && applied(old, t, new),
    }
}

/// A fresh account: no funds, unlocked, no history.
pub open spec fn fresh_model(client_id: u16) -> ClientModel {
    ClientModel {
        client_id,
        available: zero_amount(),
        held: zero_amount(),
        locked: false,
        history: Map::empty(),
    }
}

impl Client {
    pub open spec fn model(&self) -> ClientModel {
        ClientModel {
            client_id: self.client_id,
            available: self.available,
            held: self.held,
            locked: self.locked,
            history: self.transactions@,
        }
    }

    /// A new account with zero funds, unlocked.
    pub fn new(client_id: u16) -> (r: Client)
        ensures
            r.model() == fresh_model(client_id),
    {
        Client {
            client_id,
            available: Amount::zero(),
            held: Amount::zero(),
            locked: false,
            transactions: HashMap::new(),
        }
    }

    /// Whether the arithmetic that `transaction` would perform stays within range.
    pub fn arithmetic_fits(&self, transaction: &Transaction) -> (r: bool)
        ensures
            r == arithmetic_defined(self.model(), *transaction),
            arithmetic_exact(self.model(), *transaction) ==> r,
    {
        match transaction {
            Transaction::Deposit { tx, amount, .. } => {
                if self.locked || self.transactions.contains_key(tx) {
                    true
                } else {
                    self.available.can_add(amount)
                }
            },
            Transaction::Withdrawal { tx, amount, .. } => {
                if self.locked || self.available.less_than(amount) || self.transactions.contains_key(
                    tx,
                ) {
                    true
                } else {
                    self.available.can_subtract(amount)
                }
            },
            Transaction::Dispute { tx, .. } => {
                match self.transactions.get(tx) {
                    Some(f) => {
                        if f.state != DisputeState::Undisputed {
                            true
                        } else {
                            self.held.can_add(&f.amount) && (f.kind != FundsKind::Deposit
                                || self.available.can_subtract(&f.amount))
                        }
                    },
                    None => true,
                }
            },
            Transaction::Resolve { tx, .. } => {
                match self.transactions.get(tx) {
                    Some(f) => {
                        if f.state != DisputeState::Disputed {
                            true
                        } else {
                            self.held.can_subtract(&f.amount) && (f.kind != FundsKind::Deposit
                                || self.available.can_add(&f.amount))
                        }
                    },
                    None => true,
                }
            },
            Transaction::Chargeback { tx, .. } => {
                match self.transactions.get(tx) {
                    Some(f) => {
                        if f.state != DisputeState::Disputed {
                            true
                        } else {
                            self.held.can_subtract(&f.amount) && (f.kind
                                != FundsKind::Withdrawal || self.available.can_add(&f.amount))
                        }
                    },
                    None => true,
                }
            },
            Transaction::DisputedDeposit { .. } => true,
            Transaction::DisputedWithdrawal { .. } => true,
        }
    }

    /// Applies `transaction` to this account, or rejects it with the reason.
    pub fn process_transaction(&mut self, transaction: Transaction) -> (r: Result<(), ClientError>)
        requires
            arithmetic_defined(old(self).model(), transaction),
        ensures
            processed(old(self).model(), transaction, final(self).model(), r),
    {
        match transaction {
            Transaction::Deposit { tx, amount, .. } => {
                if self.locked {
                    return Err(ClientError::AccountLocked);
                }
                if self.transactions.contains_key(&tx) {
                    return Err(ClientError::TransactionReferenceConflict);
                }
                self.transactions.insert(
                    tx,
                    FundsTransaction {
                        kind: FundsKind::Deposit,
                        amount,
                        state: DisputeState::Undisputed,
                    },
                );
                self.available = self.available.plus(&amount);
                Ok(())
            },
            Transaction::Withdrawal { tx, amount, .. } => {
                if self.locked {
                    return Err(ClientError::AccountLocked);
                }
                if self.available.less_than(&amount) {
                    return Err(ClientError::InsufficientFunds);
                }
                if self.transactions.contains_key(&tx) {
                    return Err(ClientError::TransactionReferenceConflict);
                }
                self.transactions.insert(
                    tx,
                    FundsTransaction {
                        kind: FundsKind::Withdrawal,
                        amount,
                        state: DisputeState::Undisputed,
                    },
                );
                self.available = self.available.minus(&amount);
                Ok(())
            },
            Transaction::Dispute { tx, .. } => {
                let f = match self.transactions.get(&tx) {
                    Some(f) => *f,
                    None => {
                        return Err(ClientError::InvalidTransaction);
                    },
                };
                if f.state != DisputeState::Undisputed {
                    return Err(ClientError::InvalidTransaction);
                }
                self.held = self.held.plus(&f.amount);
                if f.kind == FundsKind::Deposit {
                    self.available = self.available.minus(&f.amount);
                }
                self.transactions.insert(tx, FundsTransaction { state: DisputeState::Disputed, ..f });
                Ok(())
            },
            Transaction::Resolve { tx, .. } => {
                let f = match self.transactions.get(&tx) {
                    Some(f) => *f,
                    None => {
                        return Err(ClientError::InvalidTransaction);
                    },
                };
                if f.state != DisputeState::Disputed {
                    return Err(ClientError::InvalidTransaction);
                }
                self.held = self.held.minus(&f.amount);
                if f.kind == FundsKind::Deposit {
                    self.available = self.available.plus(&f.amount);
                }
                self.transactions.insert(tx, FundsTransaction { state: DisputeState::Resolved, ..f });
                Ok(())
            },
            Transaction::Chargeback { tx, .. } => {
                let f = match self.transactions.get(&tx) {
                    Some(f) => *f,
                    None => {
                        return Err(ClientError::InvalidTransaction);
                    },
                };
                if f.state != DisputeState::Disputed {
                    return Err(ClientError::InvalidTransaction);
                }
                self.held = self.held.minus(&f.amount);
                if f.kind == FundsKind::Withdrawal {
                    self.available = self.available.plus(&f.amount);
                }
                self.locked = true;
                self.transactions.insert(tx, FundsTransaction { state: DisputeState::ChargedBack, ..f });
                Ok(())
            },
            // A marked record only stands in the file for a disputed
            // deposit or withdrawal; it is never a transaction of its own.
            Transaction::DisputedDeposit { .. } => Err(ClientError::InvalidTransaction),
            Transaction::DisputedWithdrawal { .. } => Err(ClientError::InvalidTransaction),
        }
    }

    /// Processes `transaction` when its arithmetic stays within range;
    /// otherwise returns `None` and leaves the account unchanged.
    pub fn try_process_transaction(&mut self, transaction: Transaction) -> (r: Option<
        Result<(), ClientError>,
    >)
        ensures
            r is None <==> !arithmetic_defined(old(self).model(), transaction),
            arithmetic_exact(old(self).model(), transaction) ==> r is Some,
            r is None ==> final(self).model() == old(self).model(),
            r matches Some(res) ==> processed(old(self).model(), transaction, final(self).model(), res),
    {
        if self.arithmetic_fits(&transaction) {
            Some(self.process_transaction(transaction))
        } else {
            None
        }
    }
}


impl ClientError {
    /// The error's message, as its `Display` writes it.
    pub fn message(&self) -> (r: &'static str)
        ensures
            r@ == match self {
                ClientError::AccountLocked => "account is locked"@,
                ClientError::InsufficientFunds => "insufficient available funds"@,
                ClientError::InvalidTransaction => "invalid transaction"@,
                ClientError::TransactionReferenceConflict => "transaction id already used"@,
            },
    {
        match self {
            ClientError::AccountLocked => "account is locked",
            ClientError::InsufficientFunds => "insufficient available funds",
            ClientError::InvalidTransaction => "invalid transaction",
            ClientError::TransactionReferenceConflict => "transaction id already used",
        }
    }
}

/// The output columns, in order.
pub open spec fn output_header() -> Seq<Seq<char>> {
    seq!["client"@, "available"@, "held"@, "total"@, "locked"@]
}

/// The output's header row.
pub fn output_header_row() -> (r: Vec<String>)
    ensures
        r@.map_values(|c: String| c@) == output_header(),
{
    let mut row: Vec<String> = Vec::new();
    row.push(String::from_str("client"));
    row.push(String::from_str("available"));
    row.push(String::from_str("held"));
    row.push(String::from_str("total"));
    row.push(String::from_str("locked"));
    assert(row@.map_values(|c: String| c@) =~= output_header());
    row
}

impl Client {
    /// `available + held` stays within range.
    pub open spec fn total_defined(&self) -> bool {
        plus_defined(self.available, self.held)
    }

    /// Whether `available + held` stays within range.
    pub fn total_fits(&self) -> (r: bool)
        ensures
            r == self.total_defined(),
    {
        self.available.can_add(&self.held)
    }

    /// The account's output row: client id, available, held, total
    /// (`available + held`) and locked, in the columns of `output_header()`.
    pub fn output_row(&self) -> (r: Vec<String>)
        requires
            self.total_defined(),
        ensures
            r@.len() == 5,
            r@[0]@ == decimal_digits(self.client_id as nat),
            r@[1]@ == decimal_text(self.available@),
            r@[2]@ == decimal_text(self.held@),
            r@[3]@ == decimal_text(decimal_checked_sum(self.available@, self.held@)->0),
            r@[4]@ == (if self.locked {
                "true"@
            } else {
                "false"@
            }),
    {
        let total = self.available.sum(&self.held);
        let mut row: Vec<String> = Vec::new();
        row.push(integer_text(self.client_id as u64));
        row.push(self.available.to_text());
        row.push(self.held.to_text());
        row.push(total.to_text());
        row.push(
            if self.locked {
                String::from_str("true")
            } else {
                String::from_str("false")
            },
        );
        row
    }

    /// The output row when `available + held` stays within range; `None` otherwise.
    pub fn try_output_row(&self) -> (r: Option<Vec<String>>)
        ensures
            r is Some == self.total_defined(),
            r matches Some(row) ==> row@.len() == 5 && row@[0]@ == decimal_digits(
                self.client_id as nat,
            ) && row@[1]@ == decimal_text(self.available@) && row@[2]@ == decimal_text(self.held@)
                && row@[3]@ == decimal_text(decimal_checked_sum(self.available@, self.held@)->0)
                && row@[4]@ == (if self.locked {
                "true"@
            } else {
                "false"@
            }),
    {
        if self.total_fits() {
            Some(self.output_row())
        } else {
            None
        }
    }
}

} // verus!
