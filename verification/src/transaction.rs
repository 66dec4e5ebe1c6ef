//! Transactions, and their conversion from decoded records.

use crate::amount::{
    decimal_from_text, lemma_value_positive, plain_decimal, plain_decimal_parts, Amount, Parts,
};
use crate::record::{Record, RecordView};
use vstd::prelude::*;
use vstd::string::{StrSliceExecFns, StringExecFns};

verus! {

/// One transaction against a client's account.
#[derive(Debug, Clone, Copy)]
pub enum Transaction {
    Deposit { client: u16, tx: u32, amount: Amount },
    Withdrawal { client: u16, tx: u32, amount: Amount },
    Dispute { client: u16, tx: u32 },
    Resolve { client: u16, tx: u32 },
    Chargeback { client: u16, tx: u32 },
    /// A deposit record marked in place as disputed (type `Zeposit`).
    DisputedDeposit { client: u16, tx: u32, amount: Amount },
    /// A withdrawal record marked in place as disputed (type `Zithdrawal`).
    DisputedWithdrawal { client: u16, tx: u32, amount: Amount },
}

/// Why a record is not a valid transaction.
#[derive(Debug)]
pub enum ParseTransactionError {
    /// The type column holds none of the transaction names (nor a dispute mark).
    UnknownType(String),
    /// A deposit or withdrawal amount is not a positive decimal with at most four places.
    InvalidAmount(String),
}

impl Transaction {
    /// The client the transaction belongs to.
    pub open spec fn client_of(self) -> u16 {
        match self {
            Transaction::Deposit { client, .. } => client,
            Transaction::Withdrawal { client, .. } => client,
            Transaction::Dispute { client, .. } => client,
            Transaction::Resolve { client, .. } => client,
            Transaction::Chargeback { client, .. } => client,
            Transaction::DisputedDeposit { client, .. } => client,
            Transaction::DisputedWithdrawal { client, .. } => client,
        }
    }

    /// The client the transaction belongs to.
    pub fn client_id(&self) -> (r: u16)
        ensures
            r == self.client_of(),
    {
        match self {
            Transaction::Deposit { client, .. } => *client,
            Transaction::Withdrawal { client, .. } => *client,
            Transaction::Dispute { client, .. } => *client,
            Transaction::Resolve { client, .. } => *client,
            Transaction::Chargeback { client, .. } => *client,
            Transaction::DisputedDeposit { client, .. } => *client,
            Transaction::DisputedWithdrawal { client, .. } => *client,
        }
    }
}

/// A decimal accepted as a deposit or withdrawal amount: strictly positive,
/// with at most four digits after the point (trailing zeros count).
pub open spec fn amount_parts_accepted(p: Parts) -> bool {
    !p.0 && p.1 > 0 && p.2 <= 4
}

/// The amount text parses as a decimal that is accepted as an amount.
pub open spec fn amount_accepted(text: Seq<char>) -> bool {
    decimal_from_text(text) matches Some(p) && amount_parts_accepted(p)
}

/// A plainly written amount is accepted exactly when it has no `-` sign, is
/// not zero, and has at most four digits after the point, trailing zeros
/// counted.
pub open spec fn plain_amount_accepted(text: Seq<char>) -> bool {
    let p = plain_decimal_parts(text);
    text[0] != '-' && p.1 > 0 && p.2 <= 4
}

/// `a` and `b` hold the same characters.
fn same_text(a: &str, b: &str) -> (r: bool)
    ensures
        r == (a@ == b@),
{
    let n = a.unicode_len();
    if n != b.unicode_len() {
        return false;
    }
    let mut i: usize = 0;
    while i < n
        invariant
            n == a@.len() == b@.len(),
            i <= n,
            forall|j: int| 0 <= j < i ==> a@[j] == b@[j],
        decreases n - i,
    {
        if a.get_char(i) != b.get_char(i) {
            return false;
        }
        i = i + 1;
    }
    assert(a@ =~= b@);
    true
}

/// Checks the result of parsing the amount text `raw`: an amount is accepted
/// when it parsed and is strictly positive with at most four places after
/// the point; otherwise the error carries `raw`.
pub fn validate_amount(parsed: Option<Amount>, raw: String) -> (r: Result<
    Amount,
    ParseTransactionError,
>)
    ensures
        match parsed {
            Some(a) => if amount_parts_accepted(a@) {
                r == Ok::<Amount, ParseTransactionError>(a)
            } else {
                r matches Err(ParseTransactionError::InvalidAmount(s)) && s@ == raw@
            },
            None => r matches Err(ParseTransactionError::InvalidAmount(s)) && s@ == raw@,
        },
{
    match parsed {
        None => Err(ParseTransactionError::InvalidAmount(raw)),
        Some(amount) => {
            let _ = amount.parts();
            let zero = Amount::zero();
            let positive = zero.less_than(&amount);
            proof {
                lemma_value_positive(amount@);
                lemma_value_positive(zero@);
            }
            if !positive || amount.scale() > 4 {
                Err(ParseTransactionError::InvalidAmount(raw))
            } else {
                Ok(amount)
            }
        },
    }
}

/// Parses a deposit or withdrawal amount: a decimal, strictly positive, with
/// at most four places after the point.
fn parse_amount(raw: String) -> (r: Result<Amount, ParseTransactionError>)
    ensures
        amount_accepted(raw@) ==> (r matches Ok(a) && a@ == decimal_from_text(raw@)->0),
        !amount_accepted(raw@) ==> (r matches Err(ParseTransactionError::InvalidAmount(s)) && s@
            == raw@),
        plain_decimal(raw@) ==> decimal_from_text(raw@) == Some(plain_decimal_parts(raw@)),
{
    let parsed = crate::amount::decimal_parse(raw.as_str());
    validate_amount(parsed, raw)
}

/// `r` is what a record converts to: the type names are matched exactly
/// (lowercase, or the in-place dispute marks `Zeposit` and `Zithdrawal`);
/// the amount is read only for deposits and withdrawals, marked or not, and
/// must be strictly positive with at most four places.
pub open spec fn parsed_as(rv: RecordView, r: Result<Transaction, ParseTransactionError>) -> bool {
    &&& rv.transaction_type == "deposit"@ ==> (if amount_accepted(rv.amount) {
        r matches Ok(Transaction::Deposit { client, tx, amount }) && client == rv.client && tx
            == rv.tx && amount@ == decimal_from_text(rv.amount)->0
    } else {
        r matches Err(ParseTransactionError::InvalidAmount(s)) && s@ == rv.amount
    })
    &&& rv.transaction_type == "deposit"@ && plain_decimal(rv.amount) ==> (if plain_amount_accepted(
        rv.amount,
    ) {
        r matches Ok(Transaction::Deposit { amount, .. }) && amount@ == plain_decimal_parts(rv.amount)
    } else {
        r matches Err(ParseTransactionError::InvalidAmount(_))
    })
    &&& rv.transaction_type == "withdrawal"@ ==> (if amount_accepted(rv.amount) {
        r matches Ok(Transaction::Withdrawal { client, tx, amount }) && client == rv.client && tx
            == rv.tx && amount@ == decimal_from_text(rv.amount)->0
    } else {
        r matches Err(ParseTransactionError::InvalidAmount(s)) && s@ == rv.amount
    })
    &&& rv.transaction_type == "withdrawal"@ && plain_decimal(rv.amount) ==> (if plain_amount_accepted(
        rv.amount,
    ) {
        r matches Ok(Transaction::Withdrawal { amount, .. }) && amount@ == plain_decimal_parts(rv.amount)
    } else {
        r matches Err(ParseTransactionError::InvalidAmount(_))
    })
    &&& rv.transaction_type == "Zeposit"@ ==> (if amount_accepted(rv.amount) {
        r matches Ok(Transaction::DisputedDeposit { client, tx, amount }) && client == rv.client && tx
            == rv.tx && amount@ == decimal_from_text(rv.amount)->0
    } else {
        r matches Err(ParseTransactionError::InvalidAmount(s)) && s@ == rv.amount
    })
    &&& rv.transaction_type == "Zeposit"@ && plain_decimal(rv.amount) ==> (if plain_amount_accepted(
        rv.amount,
    ) {
        r matches Ok(Transaction::DisputedDeposit { amount, .. }) && amount@ == plain_decimal_parts(rv.amount)
    } else {
        r matches Err(ParseTransactionError::InvalidAmount(_))
    })
    &&& rv.transaction_type == "Zithdrawal"@ ==> (if amount_accepted(rv.amount) {
        r matches Ok(Transaction::DisputedWithdrawal { client, tx, amount }) && client == rv.client && tx
            == rv.tx && amount@ == decimal_from_text(rv.amount)->0
    } else {
        r matches Err(ParseTransactionError::InvalidAmount(s)) && s@ == rv.amount
    })
    &&& rv.transaction_type == "Zithdrawal"@ && plain_decimal(rv.amount) ==> (if plain_amount_accepted(
        rv.amount,
    ) {
        r matches Ok(Transaction::DisputedWithdrawal { amount, .. }) && amount@ == plain_decimal_parts(rv.amount)
    } else {
        r matches Err(ParseTransactionError::InvalidAmount(_))
    })
    &&& rv.transaction_type == "dispute"@ ==> (r matches Ok(Transaction::Dispute { client, tx })
        && client == rv.client && tx == rv.tx)
    &&& rv.transaction_type == "resolve"@ ==> (r matches Ok(Transaction::Resolve { client, tx })
        && client == rv.client && tx == rv.tx)
    &&& rv.transaction_type == "chargeback"@ ==> (r matches Ok(Transaction::Chargeback { client, tx })
        && client == rv.client && tx == rv.tx)
    &&& !known_type(rv) ==> (r matches Err(ParseTransactionError::UnknownType(s)) && s@
        == rv.transaction_type)
}

impl Transaction {
    /// Converts a decoded record into a transaction. The type names are
    /// matched exactly (lowercase); a deposit or withdrawal record whose type
    /// was marked in place as disputed (`Zeposit`, `Zithdrawal`) converts to
    /// its disputed form; the amount is read only for deposits and
    /// withdrawals.
    pub fn try_from(record: &Record) -> (r: Result<Transaction, ParseTransactionError>)
        ensures
            parsed_as(record@, r),
    {
        let kind = record.transaction_type.as_str();
        proof {
            reveal_strlit("deposit");
            reveal_strlit("withdrawal");
            reveal_strlit("dispute");
            reveal_strlit("resolve");
            reveal_strlit("chargeback");
            assert("deposit"@[1] != "dispute"@[1]);
            assert("deposit"@[0] != "resolve"@[0]);
            assert("dispute"@[0] != "resolve"@[0]);
            assert("withdrawal"@[0] != "chargeback"@[0]);
            reveal_strlit("Zeposit");
            reveal_strlit("Zithdrawal");
            assert("Zeposit"@[1] != "Zithdrawal"@[1]);
        }
        if same_text(kind, "deposit") {
            match parse_amount(record.amount.clone()) {
                Ok(amount) => Ok(Transaction::Deposit { client: record.client, tx: record.tx, amount }),
                Err(e) => Err(e),
            }
        } else if same_text(kind, "withdrawal") {
            match parse_amount(record.amount.clone()) {
                Ok(amount) => Ok(Transaction::Withdrawal { client: record.client, tx: record.tx, amount }),
                Err(e) => Err(e),
            }
        } else if same_text(kind, "dispute") {
            Ok(Transaction::Dispute { client: record.client, tx: record.tx })
        } else if same_text(kind, "resolve") {
            Ok(Transaction::Resolve { client: record.client, tx: record.tx })
        } else if same_text(kind, "chargeback") {
            Ok(Transaction::Chargeback { client: record.client, tx: record.tx })
        } else if same_text(kind, "Zeposit") {
            match parse_amount(record.amount.clone()) {
                Ok(amount) => Ok(Transaction::DisputedDeposit { client: record.client, tx: record.tx, amount }),
                Err(e) => Err(e),
            }
        } else if same_text(kind, "Zithdrawal") {
            match parse_amount(record.amount.clone()) {
                Ok(amount) => Ok(Transaction::DisputedWithdrawal { client: record.client, tx: record.tx, amount }),
                Err(e) => Err(e),
            }
        } else {
            Err(ParseTransactionError::UnknownType(record.transaction_type.clone()))
        }
    }
}

/// The record's type is one of the five transaction names or one of the two
/// dispute marks.
pub open spec fn known_type(record: RecordView) -> bool {
    ||| record.transaction_type == "Zeposit"@
    ||| record.transaction_type == "Zithdrawal"@
    ||| record.transaction_type == "deposit"@
    ||| record.transaction_type == "withdrawal"@
    ||| record.transaction_type == "dispute"@
    ||| record.transaction_type == "resolve"@
    ||| record.transaction_type == "chargeback"@
}

impl ParseTransactionError {
    /// The error's message, as its `Display` writes it.
    pub fn message(&self) -> (r: String)
        ensures
            match self {
                ParseTransactionError::UnknownType(t) => r@ == "unknown transaction type: "@ + t@,
                ParseTransactionError::InvalidAmount(a) => r@ == "invalid amount: "@ + a@,
            },
    {
        match self {
            ParseTransactionError::UnknownType(t) => {
                let mut m = String::from_str("unknown transaction type: ");
                m.append(t.as_str());
                m
            },
            ParseTransactionError::InvalidAmount(a) => {
                let mut m = String::from_str("invalid amount: ");
                m.append(a.as_str());
                m
            },
        }
    }
}

} // verus!
