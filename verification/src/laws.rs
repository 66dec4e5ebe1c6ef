//! Properties of the account rules that hold across transactions.

use crate::amount::{lemma_zero_amount, Amount};
use crate::client::{
    arithmetic_exact, fresh_model, processed, rejection, ClientError, ClientModel, DisputeState,
    FundsKind, FundsTransaction,
};
use crate::engine::{account_of, engine_processed};
use crate::client::Client;
use crate::mmap_record_parser::{
    ascii_bytes, law_line_span, line_span, next_line_start, type_column, type_column_from,
};
use crate::record::{
    amount_column_name, client_column_name, column_of, decode_fields, decode_from, digits_value,
    digit_value, empty_partial, is_ascii_white, number_field, plain_fields, plain_line, split_comma_bytes,
    trim_ascii, tx_column_name, type_column_name, Column, Partial, RecordError, RecordView,
};
use crate::text::{decimal_digits, digit_char};
use crate::transaction::Transaction;
use vstd::utf8::{
    char_is_scalar, char_u32_cast, decode_utf8, encode_scalar, encode_utf8, has_width_1_encoding,
    has_width_2_encoding, has_width_3_encoding, is_scalar, encode_utf8_decode_utf8, encode_utf8_valid_utf8, is_ascii_chars,
    is_ascii_chars_encode_utf8, valid_utf8,
};
use vstd::prelude::*;
use vstd::set::fold::{is_fun_commutative, lemma_fold_empty, lemma_fold_insert};

verus! {

/// How far a recorded transaction has gone through disputes.
pub open spec fn stage(s: DisputeState) -> int {
    match s {
        DisputeState::Undisputed => 0,
        DisputeState::Disputed => 1,
        DisputeState::Resolved => 2,
        DisputeState::ChargedBack => 2,
    }
}

/// `states[i + 1]` is the state after processing `ts[i]` in `states[i]`, with result `rs[i]`.
pub open spec fn trace(
    states: Seq<ClientModel>,
    ts: Seq<Transaction>,
    rs: Seq<Result<(), ClientError>>,
) -> bool {
    &&& states.len() == ts.len() + 1
    &&& rs.len() == ts.len()
    &&& forall|i: int| 0 <= i < ts.len() ==> processed(states[i], ts[i], states[i + 1], rs[i])
}

/// A rejected transaction leaves the account exactly as it was.
pub proof fn law_rejection_changes_nothing(
    old: ClientModel,
    t: Transaction,
    new: ClientModel,
    r: Result<(), ClientError>,
)
    requires
        processed(old, t, new, r),
        r is Err,
    ensures
        new == old,
{
}

/// Once an account is locked it stays locked, whatever is processed.
pub proof fn law_lock_is_permanent(
    old: ClientModel,
    t: Transaction,
    new: ClientModel,
    r: Result<(), ClientError>,
)
    requires
        processed(old, t, new, r),
        old.locked,
    ensures
        new.locked,
{
}

/// A locked account rejects every deposit and withdrawal, unchanged.
pub proof fn law_locked_account_rejects_deposits_and_withdrawals(
    old: ClientModel,
    t: Transaction,
    new: ClientModel,
    r: Result<(), ClientError>,
)
    requires
        processed(old, t, new, r),
        old.locked,
        t is Deposit || t is Withdrawal,
    ensures
        r == Err::<(), ClientError>(ClientError::AccountLocked),
        new == old,
{
}

/// Disputes, resolves and chargebacks are judged the same whether or not
/// the account is locked.
pub proof fn law_disputes_ignore_the_lock(c: ClientModel, t: Transaction)
    requires
        t is Dispute || t is Resolve || t is Chargeback,
    ensures
        rejection(c, t) == rejection(ClientModel { locked: !c.locked, ..c }, t),
{
}

/// A withdrawal succeeds only when the amount is at most the available
/// funds; when the arithmetic is exact, available funds never go below zero by
/// a withdrawal.
pub proof fn law_withdrawal_never_exceeds_available(
    old: ClientModel,
    client: u16,
    tx: u32,
    amount: Amount,
    new: ClientModel,
    r: Result<(), ClientError>,
)
    requires
        processed(old, Transaction::Withdrawal { client, tx, amount }, new, r),
        r is Ok,
    ensures
        amount.value() <= old.available.value(),
        arithmetic_exact(old, Transaction::Withdrawal { client, tx, amount })
            ==> new.available.value() == old.available.value() - amount.value()
            && new.available.value() >= 0,
{
}

/// Resolving a dispute undoes it: available and held funds are back to
/// what they were before the dispute (whenever the arithmetic is exact), and the
/// lock is untouched.
pub proof fn law_resolve_undoes_dispute(
    c0: ClientModel,
    client: u16,
    tx: u32,
    c1: ClientModel,
    r1: Result<(), ClientError>,
    c2: ClientModel,
    r2: Result<(), ClientError>,
)
    requires
        processed(c0, Transaction::Dispute { client, tx }, c1, r1),
        r1 is Ok,
        processed(c1, Transaction::Resolve { client, tx }, c2, r2),
        arithmetic_exact(c0, Transaction::Dispute { client, tx }),
        arithmetic_exact(c1, Transaction::Resolve { client, tx }),
    ensures
        r2 is Ok,
        c2.available.value() == c0.available.value(),
        c2.held.value() == c0.held.value(),
        c2.locked == c0.locked,
        c2.history[tx].state == DisputeState::Resolved,
{
}

/// Charging back a disputed deposit reverses it for good: available and
/// held funds are as before the deposit (whenever the arithmetic is exact), and the
/// account is locked.
pub proof fn law_chargeback_reverses_deposit(
    c0: ClientModel,
    client: u16,
    tx: u32,
    amount: Amount,
    c1: ClientModel,
    r1: Result<(), ClientError>,
    c2: ClientModel,
    r2: Result<(), ClientError>,
    c3: ClientModel,
    r3: Result<(), ClientError>,
)
    requires
        processed(c0, Transaction::Deposit { client, tx, amount }, c1, r1),
        r1 is Ok,
        processed(c1, Transaction::Dispute { client, tx }, c2, r2),
        processed(c2, Transaction::Chargeback { client, tx }, c3, r3),
        arithmetic_exact(c0, Transaction::Deposit { client, tx, amount }),
        arithmetic_exact(c1, Transaction::Dispute { client, tx }),
        arithmetic_exact(c2, Transaction::Chargeback { client, tx }),
    ensures
        r2 is Ok,
        r3 is Ok,
        c3.available.value() == c0.available.value(),
        c3.held.value() == c0.held.value(),
        c3.locked,
{
}

/// Charging back a disputed withdrawal undoes it: available and held funds
/// are as before the withdrawal (whenever the arithmetic is exact), and the account
/// is locked.
pub proof fn law_chargeback_reverses_withdrawal(
    c0: ClientModel,
    client: u16,
    tx: u32,
    amount: Amount,
    c1: ClientModel,
    r1: Result<(), ClientError>,
    c2: ClientModel,
    r2: Result<(), ClientError>,
    c3: ClientModel,
    r3: Result<(), ClientError>,
)
    requires
        processed(c0, Transaction::Withdrawal { client, tx, amount }, c1, r1),
        r1 is Ok,
        processed(c1, Transaction::Dispute { client, tx }, c2, r2),
        processed(c2, Transaction::Chargeback { client, tx }, c3, r3),
        arithmetic_exact(c0, Transaction::Withdrawal { client, tx, amount }),
        arithmetic_exact(c1, Transaction::Dispute { client, tx }),
        arithmetic_exact(c2, Transaction::Chargeback { client, tx }),
    ensures
        r2 is Ok,
        r3 is Ok,
        c3.available.value() == c0.available.value(),
        c3.held.value() == c0.held.value(),
        c3.locked,
{
}

/// Every step keeps each recorded transaction, with its kind and amount,
/// and only moves its dispute state forward.
pub proof fn lemma_history_moves_forward(
    old: ClientModel,
    t: Transaction,
    new: ClientModel,
    r: Result<(), ClientError>,
    tx: u32,
)
    requires
        processed(old, t, new, r),
        old.history.contains_key(tx),
    ensures
        new.history.contains_key(tx),
        new.history[tx].kind == old.history[tx].kind,
        new.history[tx].amount == old.history[tx].amount,
        stage(new.history[tx].state) >= stage(old.history[tx].state),
{
}

proof fn lemma_trace_moves_forward(
    states: Seq<ClientModel>,
    ts: Seq<Transaction>,
    rs: Seq<Result<(), ClientError>>,
    i: int,
    j: int,
    tx: u32,
)
    requires
        trace(states, ts, rs),
        0 <= i <= j <= ts.len(),
        states[i].history.contains_key(tx),
    ensures
        states[j].history.contains_key(tx),
        stage(states[j].history[tx].state) >= stage(states[i].history[tx].state),
    decreases j - i,
{
    if i < j {
        lemma_history_moves_forward(states[i], ts[i], states[i + 1], rs[i], tx);
        lemma_trace_moves_forward(states, ts, rs, i + 1, j, tx);
    }
}

/// A transaction can be disputed at most once: after a dispute of `tx`
/// succeeds, every later dispute of `tx` is rejected as invalid.
pub proof fn law_disputed_at_most_once(
    states: Seq<ClientModel>,
    ts: Seq<Transaction>,
    rs: Seq<Result<(), ClientError>>,
    i: int,
    j: int,
    client: u16,
    tx: u32,
)
    requires
        trace(states, ts, rs),
        0 <= i < j < ts.len(),
        ts[i] == (Transaction::Dispute { client, tx }),
        rs[i] is Ok,
        ts[j] is Dispute && ts[j]->Dispute_tx == tx,
    ensures
        rs[j] == Err::<(), ClientError>(ClientError::InvalidTransaction),
{
    assert(processed(states[i], ts[i], states[i + 1], rs[i]));
    lemma_trace_moves_forward(states, ts, rs, i + 1, j, tx);
    assert(processed(states[j], ts[j], states[j + 1], rs[j]));
}

/// A dispute is settled at most once: after a resolve or chargeback of `tx`
/// succeeds, every later resolve or chargeback of `tx` is rejected as invalid.
pub proof fn law_settled_at_most_once(
    states: Seq<ClientModel>,
    ts: Seq<Transaction>,
    rs: Seq<Result<(), ClientError>>,
    i: int,
    j: int,
    tx: u32,
)
    requires
        trace(states, ts, rs),
        0 <= i < j < ts.len(),
        (ts[i] is Resolve && ts[i]->Resolve_tx == tx) || (ts[i] is Chargeback
            && ts[i]->Chargeback_tx == tx),
        rs[i] is Ok,
        (ts[j] is Resolve && ts[j]->Resolve_tx == tx) || (ts[j] is Chargeback
            && ts[j]->Chargeback_tx == tx),
    ensures
        rs[j] == Err::<(), ClientError>(ClientError::InvalidTransaction),
{
    assert(processed(states[i], ts[i], states[i + 1], rs[i]));
    lemma_trace_moves_forward(states, ts, rs, i + 1, j, tx);
    assert(processed(states[j], ts[j], states[j + 1], rs[j]));
}

/// A transaction id, once used by a successful deposit or withdrawal, is
/// never accepted again for a deposit or withdrawal of this client.
pub proof fn law_transaction_ids_are_not_reused(
    states: Seq<ClientModel>,
    ts: Seq<Transaction>,
    rs: Seq<Result<(), ClientError>>,
    i: int,
    j: int,
    tx: u32,
)
    requires
        trace(states, ts, rs),
        0 <= i < j < ts.len(),
        (ts[i] is Deposit && ts[i]->Deposit_tx == tx) || (ts[i] is Withdrawal
            && ts[i]->Withdrawal_tx == tx),
        rs[i] is Ok,
        (ts[j] is Deposit && ts[j]->Deposit_tx == tx) || (ts[j] is Withdrawal
            && ts[j]->Withdrawal_tx == tx),
    ensures
        rs[j] is Err,
{
    assert(processed(states[i], ts[i], states[i + 1], rs[i]));
    lemma_trace_moves_forward(states, ts, rs, i + 1, j, tx);
    assert(processed(states[j], ts[j], states[j + 1], rs[j]));
}

/// What entry `k` of a history contributes to a sum weighted by `w`.
pub open spec fn weight_of(
    h: Map<u32, FundsTransaction>,
    k: u32,
    w: spec_fn(FundsTransaction) -> int,
) -> int {
    if h.contains_key(k) {
        w(h[k])
    } else {
        0
    }
}

/// The adding step of `history_total`.
pub open spec fn add_weight(h: Map<u32, FundsTransaction>, w: spec_fn(FundsTransaction) -> int) -> spec_fn(
    int,
    u32,
) -> int {
    |acc: int, k: u32| acc + weight_of(h, k, w)
}

/// The sum over a history of what each entry contributes by `w`.
pub open spec fn history_total(h: Map<u32, FundsTransaction>, w: spec_fn(FundsTransaction) -> int) -> int {
    h.dom().fold(0int, add_weight(h, w))
}

/// What a transaction holds: its amount while under an open dispute.
pub open spec fn held_weight(f: FundsTransaction) -> int {
    if f.state == DisputeState::Disputed {
        f.amount.value()
    } else {
        0
    }
}

/// What a transaction leaves in the available funds: a deposit its amount,
/// unless disputed or charged back; a withdrawal minus its amount, unless
/// charged back.
pub open spec fn available_weight(f: FundsTransaction) -> int {
    match f.kind {
        FundsKind::Deposit => if f.state == DisputeState::Disputed || f.state
            == DisputeState::ChargedBack {
            0
        } else {
            f.amount.value()
        },
        FundsKind::Withdrawal => if f.state == DisputeState::ChargedBack {
            0
        } else {
            -f.amount.value()
        },
    }
}

pub open spec fn held_weights() -> spec_fn(FundsTransaction) -> int {
    |f: FundsTransaction| held_weight(f)
}

pub open spec fn available_weights() -> spec_fn(FundsTransaction) -> int {
    |f: FundsTransaction| available_weight(f)
}

proof fn lemma_add_weight_commutative(h: Map<u32, FundsTransaction>, w: spec_fn(FundsTransaction) -> int)
    ensures
        is_fun_commutative(add_weight(h, w)),
{
    let f = add_weight(h, w);
    assert forall|a1: u32, a2: u32, b: int| #[trigger] f(f(b, a2), a1) == f(f(b, a1), a2) by {}
}

/// Folding over a set gives the same sum for two histories whose entries
/// contribute the same on its keys.
proof fn lemma_fold_agrees(
    s: Set<u32>,
    z: int,
    h1: Map<u32, FundsTransaction>,
    h2: Map<u32, FundsTransaction>,
    w: spec_fn(FundsTransaction) -> int,
)
    requires
        s.finite(),
        forall|k: u32| s.contains(k) ==> weight_of(h1, k, w) == weight_of(h2, k, w),
    ensures
        s.fold(z, add_weight(h1, w)) == s.fold(z, add_weight(h2, w)),
    decreases s.len(),
{
    lemma_add_weight_commutative(h1, w);
    lemma_add_weight_commutative(h2, w);
    if s.len() == 0 {
        assert(s =~= Set::<u32>::empty());
        lemma_fold_empty(z, add_weight(h1, w));
        lemma_fold_empty(z, add_weight(h2, w));
    } else {
        let a = s.choose();
        let r = s.remove(a);
        assert(r.insert(a) =~= s);
        lemma_fold_agrees(r, z, h1, h2, w);
        lemma_fold_insert(r, z, add_weight(h1, w), a);
        lemma_fold_insert(r, z, add_weight(h2, w), a);
    }
}

/// Writing entry `k` changes the total by what `k` contributes before and after.
proof fn lemma_history_total_update(
    h: Map<u32, FundsTransaction>,
    k: u32,
    e: FundsTransaction,
    w: spec_fn(FundsTransaction) -> int,
)
    requires
        h.dom().finite(),
    ensures
        history_total(h.insert(k, e), w) == history_total(h, w) - weight_of(h, k, w) + w(e),
{
    let h2 = h.insert(k, e);
    let r = h.dom().remove(k);
    lemma_add_weight_commutative(h, w);
    lemma_add_weight_commutative(h2, w);
    lemma_fold_agrees(r, 0, h, h2, w);
    assert(h2.dom() =~= r.insert(k));
    lemma_fold_insert(r, 0, add_weight(h2, w), k);
    if h.contains_key(k) {
        assert(h.dom() =~= r.insert(k));
        lemma_fold_insert(r, 0, add_weight(h, w), k);
    } else {
        assert(h.dom() =~= r);
    }
}

/// The balances are what the history says they are.
pub open spec fn balances_follow_history(c: ClientModel) -> bool {
    &&& c.history.dom().finite()
    &&& c.held.value() == history_total(c.history, held_weights())
    &&& c.available.value() == history_total(c.history, available_weights())
}

/// One step with exact arithmetic keeps the balances following the history.
proof fn lemma_balances_step(
    old: ClientModel,
    t: Transaction,
    new: ClientModel,
    r: Result<(), ClientError>,
)
    requires
        processed(old, t, new, r),
        arithmetic_exact(old, t),
        balances_follow_history(old),
    ensures
        balances_follow_history(new),
{
    if rejection(old, t) is None {
        let tx = match t {
            Transaction::Deposit { tx, .. } => tx,
            Transaction::Withdrawal { tx, .. } => tx,
            Transaction::Dispute { tx, .. } => tx,
            Transaction::Resolve { tx, .. } => tx,
            Transaction::Chargeback { tx, .. } => tx,
            Transaction::DisputedDeposit { tx, .. } => tx,
            Transaction::DisputedWithdrawal { tx, .. } => tx,
        };
        assert(new.history == old.history.insert(tx, new.history[tx]));
        lemma_history_total_update(old.history, tx, new.history[tx], held_weights());
        lemma_history_total_update(old.history, tx, new.history[tx], available_weights());
    }
}

/// Held and available funds follow the history: starting from a fresh
/// account, after every step of a trace whose arithmetic is exact, `held` is
/// the sum of the amounts under open disputes, and `available` is the sum
/// of the deposits (less those disputed or charged back) minus the
/// withdrawals (less those charged back).
pub proof fn law_balances_follow_history(
    states: Seq<ClientModel>,
    ts: Seq<Transaction>,
    rs: Seq<Result<(), ClientError>>,
    id: u16,
    j: int,
)
    requires
        trace(states, ts, rs),
        states[0] == fresh_model(id),
        forall|i: int| 0 <= i < ts.len() ==> arithmetic_exact(states[i], #[trigger] ts[i]),
        0 <= j <= ts.len(),
    ensures
        states[j].held.value() == history_total(states[j].history, held_weights()),
        states[j].available.value() == history_total(states[j].history, available_weights()),
    decreases j,
{
    lemma_balances_along(states, ts, rs, id, j);
}

proof fn lemma_balances_along(
    states: Seq<ClientModel>,
    ts: Seq<Transaction>,
    rs: Seq<Result<(), ClientError>>,
    id: u16,
    j: int,
)
    requires
        trace(states, ts, rs),
        states[0] == fresh_model(id),
        forall|i: int| 0 <= i < ts.len() ==> arithmetic_exact(states[i], #[trigger] ts[i]),
        0 <= j <= ts.len(),
    ensures
        balances_follow_history(states[j]),
    decreases j,
{
    if j == 0 {
        lemma_zero_amount();
        assert(states[0].held.value() == 0);
        assert(states[0].history.dom() =~= Set::<u32>::empty());
        lemma_fold_empty(0int, add_weight(states[0].history, held_weights()));
        lemma_fold_empty(0int, add_weight(states[0].history, available_weights()));
    } else {
        assert(arithmetic_exact(states[j - 1], ts[j - 1]));
        lemma_balances_along(states, ts, rs, id, j - 1);
        assert(processed(states[j - 1], ts[j - 1], states[j], rs[j - 1]));
        lemma_balances_step(states[j - 1], ts[j - 1], states[j], rs[j - 1]);
    }
}

/// An account is locked exactly when a chargeback on it has succeeded:
/// starting from a fresh account, after `j` steps it is locked iff one of
/// those steps was a chargeback that returned `Ok`.
pub proof fn law_locked_iff_charged_back(
    states: Seq<ClientModel>,
    ts: Seq<Transaction>,
    rs: Seq<Result<(), ClientError>>,
    id: u16,
    j: int,
)
    requires
        trace(states, ts, rs),
        states[0] == fresh_model(id),
        0 <= j <= ts.len(),
    ensures
        states[j].locked <==> exists|i: int| 0 <= i < j && #[trigger] ts[i] is Chargeback && rs[i] is Ok,
    decreases j,
{
    if j > 0 {
        law_locked_iff_charged_back(states, ts, rs, id, j - 1);
        assert(processed(states[j - 1], ts[j - 1], states[j], rs[j - 1]));
        if states[j].locked && !states[j - 1].locked {
            assert(ts[j - 1] is Chargeback && rs[j - 1] is Ok);
        }
    }
}

/// Transactions are isolated between clients: processing a transaction
/// leaves every other client's account untouched (and creates none).
pub proof fn law_clients_are_isolated(
    old: Map<u16, Client>,
    t: Transaction,
    new: Map<u16, Client>,
    r: Result<(), ClientError>,
    other: u16,
)
    requires
        engine_processed(old, t, new, r),
        other != t.client_of(),
    ensures
        new.contains_key(other) == old.contains_key(other),
        old.contains_key(other) ==> new[other] == old[other],
{
    assert(new.remove(t.client_of()).contains_key(other) == new.contains_key(other));
    assert(old.remove(t.client_of()).contains_key(other) == old.contains_key(other));
    if old.contains_key(other) {
        assert(new.remove(t.client_of())[other] == new[other]);
        assert(old.remove(t.client_of())[other] == old[other]);
    }
}

/// A dispute, resolve or chargeback can only refer to a transaction of the
/// client it names: one whose id is not in that client's history is
/// rejected as invalid, whatever other clients hold, and changes nothing.
pub proof fn law_disputes_refer_to_own_transactions(
    old: Map<u16, Client>,
    t: Transaction,
    new: Map<u16, Client>,
    r: Result<(), ClientError>,
    tx: u32,
)
    requires
        engine_processed(old, t, new, r),
        (t is Dispute && t->Dispute_tx == tx) || (t is Resolve && t->Resolve_tx == tx) || (
        t is Chargeback && t->Chargeback_tx == tx),
        !account_of(old, t.client_of()).history.contains_key(tx),
    ensures
        r == Err::<(), ClientError>(ClientError::InvalidTransaction),
        new[t.client_of()].model() == account_of(old, t.client_of()),
{
}

/// The four fields under the columns named `type`, `client`, `tx` and
/// `amount`: text, number, number, text.
pub open spec fn named_fields_valid(t: Seq<u8>, c: Seq<u8>, x: Seq<u8>, a: Seq<u8>) -> bool {
    &&& valid_utf8(t)
    &&& valid_utf8(c) && number_field(c, u16::MAX as nat) is Some
    &&& valid_utf8(x) && number_field(x, u32::MAX as nat) is Some
    &&& valid_utf8(a)
}

/// What the header walk has found after `i` headers, when the four names
/// stand at positions `pt`, `pc`, `px`, `pa`.
pub open spec fn found_after(fields: Seq<Seq<u8>>, pt: int, pc: int, px: int, pa: int, i: int) -> Partial {
    Partial {
        transaction_type: if pt < i {
            Some(decode_utf8(fields[pt]))
        } else {
            None
        },
        client: if pc < i {
            Some(number_field(fields[pc], u16::MAX as nat)->0 as u16)
        } else {
            None
        },
        tx: if px < i {
            Some(number_field(fields[px], u32::MAX as nat)->0 as u32)
        } else {
            None
        },
        amount: if pa < i {
            Some(decode_utf8(fields[pa]))
        } else {
            None
        },
    }
}

/// The fields under the names from position `i` on are valid.
pub open spec fn valid_from(fields: Seq<Seq<u8>>, pt: int, pc: int, px: int, pa: int, i: int) -> bool {
    &&& pt >= i ==> valid_utf8(fields[pt])
    &&& pc >= i ==> valid_utf8(fields[pc]) && number_field(fields[pc], u16::MAX as nat) is Some
    &&& px >= i ==> valid_utf8(fields[px]) && number_field(fields[px], u32::MAX as nat) is Some
    &&& pa >= i ==> valid_utf8(fields[pa])
}

/// The four names stand at the distinct positions `pt`, `pc`, `px`, `pa`
/// of a header of four names, over a row of four fields.
pub open spec fn names_at(
    fields: Seq<Seq<u8>>,
    headers: Seq<Seq<u8>>,
    pt: int,
    pc: int,
    px: int,
    pa: int,
) -> bool {
    &&& fields.len() == 4
    &&& headers.len() == 4
    &&& 0 <= pt < 4 && 0 <= pc < 4 && 0 <= px < 4 && 0 <= pa < 4
    &&& pt != pc && pt != px && pt != pa && pc != px && pc != pa && px != pa
    &&& headers[pt] == type_column_name()
    &&& headers[pc] == client_column_name()
    &&& headers[px] == tx_column_name()
    &&& headers[pa] == amount_column_name()
}

/// The field at position `i` is valid for the name there.
pub open spec fn valid_at(fields: Seq<Seq<u8>>, pt: int, pc: int, px: int, pa: int, i: int) -> bool {
    &&& i == pt ==> valid_utf8(fields[pt])
    &&& i == pc ==> valid_utf8(fields[pc]) && number_field(fields[pc], u16::MAX as nat) is Some
    &&& i == px ==> valid_utf8(fields[px]) && number_field(fields[px], u32::MAX as nat) is Some
    &&& i == pa ==> valid_utf8(fields[pa])
}

/// One step of the header walk: the header at `i` takes its field, or fails.
proof fn lemma_walk_step(
    fields: Seq<Seq<u8>>,
    headers: Seq<Seq<u8>>,
    pt: int,
    pc: int,
    px: int,
    pa: int,
    i: int,
)
    requires
        names_at(fields, headers, pt, pc, px, pa),
        0 <= i < 4,
    ensures
        valid_at(fields, pt, pc, px, pa, i) ==> decode_from(
            fields,
            headers,
            i as nat,
            found_after(fields, pt, pc, px, pa, i),
        ) == decode_from(fields, headers, (i + 1) as nat, found_after(fields, pt, pc, px, pa, i + 1)),
        !valid_at(fields, pt, pc, px, pa, i) ==> decode_from(
            fields,
            headers,
            i as nat,
            found_after(fields, pt, pc, px, pa, i),
        ) is Err,
{
    assert(type_column_name() != client_column_name());
    assert(type_column_name() != tx_column_name());
    assert(type_column_name()[0] != amount_column_name()[0]);
    assert(client_column_name() != tx_column_name());
    assert(client_column_name()[0] != amount_column_name()[0]);
    assert(tx_column_name() != amount_column_name());
    let p = found_after(fields, pt, pc, px, pa, i);
    let q = found_after(fields, pt, pc, px, pa, i + 1);
    if i == pt {
        assert(column_of(headers[i]) == Column::TransactionType);
        assert(Partial { transaction_type: Some(decode_utf8(fields[i])), ..p } == q);
    } else if i == pc {
        assert(column_of(headers[i]) == Column::Client);
        if number_field(fields[i], u16::MAX as nat) is Some {
            assert(Partial { client: Some(number_field(fields[i], u16::MAX as nat)->0 as u16), ..p }
                == q);
        }
    } else if i == px {
        assert(column_of(headers[i]) == Column::Tx);
        if number_field(fields[i], u32::MAX as nat) is Some {
            assert(Partial { tx: Some(number_field(fields[i], u32::MAX as nat)->0 as u32), ..p }
                == q);
        }
    } else {
        assert(i == pa);
        assert(column_of(headers[i]) == Column::Amount);
        assert(Partial { amount: Some(decode_utf8(fields[i])), ..p } == q);
    }
}

proof fn lemma_walk_by_name(
    fields: Seq<Seq<u8>>,
    headers: Seq<Seq<u8>>,
    pt: int,
    pc: int,
    px: int,
    pa: int,
    i: int,
)
    requires
        names_at(fields, headers, pt, pc, px, pa),
        0 <= i <= 4,
    ensures
        decode_from(fields, headers, i as nat, found_after(fields, pt, pc, px, pa, i)) is Ok
            <==> valid_from(fields, pt, pc, px, pa, i),
        decode_from(fields, headers, i as nat, found_after(fields, pt, pc, px, pa, i)) matches Ok(p)
            ==> p == found_after(fields, pt, pc, px, pa, 4),
    decreases 4 - i,
{
    if i < 4 {
        lemma_walk_step(fields, headers, pt, pc, px, pa, i);
        lemma_walk_by_name(fields, headers, pt, pc, px, pa, i + 1);
        assert(valid_from(fields, pt, pc, px, pa, i) <==> valid_at(fields, pt, pc, px, pa, i)
            && valid_from(fields, pt, pc, px, pa, i + 1));
    }
}

/// Columns are matched by name, in whatever order the header lists them:
/// with a header of the four names and a row of four fields, the row decodes
/// exactly when the field under each name is valid for it, and then each
/// record field is the one found under its name.
pub proof fn law_columns_match_by_name(
    fields: Seq<Seq<u8>>,
    headers: Seq<Seq<u8>>,
    pt: int,
    pc: int,
    px: int,
    pa: int,
)
    requires
        fields.len() == 4,
        headers.len() == 4,
        0 <= pt < 4 && 0 <= pc < 4 && 0 <= px < 4 && 0 <= pa < 4,
        pt != pc && pt != px && pt != pa && pc != px && pc != pa && px != pa,
        headers[pt] == type_column_name(),
        headers[pc] == client_column_name(),
        headers[px] == tx_column_name(),
        headers[pa] == amount_column_name(),
    ensures
        decode_fields(fields, headers) is Ok <==> named_fields_valid(
            fields[pt],
            fields[pc],
            fields[px],
            fields[pa],
        ),
        decode_fields(fields, headers) matches Ok(v) ==> v.transaction_type == decode_utf8(
            fields[pt],
        ) && v.client as nat == number_field(fields[pc], u16::MAX as nat)->0 && v.tx as nat
            == number_field(fields[px], u32::MAX as nat)->0 && v.amount == decode_utf8(fields[pa]),
{
    assert(names_at(fields, headers, pt, pc, px, pa));
    lemma_walk_by_name(fields, headers, pt, pc, px, pa, 0);
    assert(found_after(fields, pt, pc, px, pa, 0) == empty_partial());
}

/// A text that a CSV line carries unchanged as one cell: without commas,
/// quotes or line breaks, and neither starting nor ending with ASCII
/// whitespace.
pub open spec fn plain_cell(s: Seq<char>) -> bool {
    &&& forall|i: int|
        0 <= i < s.len() ==> #[trigger] s[i] != ',' && s[i] != '"' && s[i] != '\r' && s[i] != '\n'
    &&& s.len() > 0 ==> !is_ascii_white_char(s[0]) && !is_ascii_white_char(s.last())
}

/// The header `type,client,tx,amount`.
pub open spec fn standard_header() -> Seq<Seq<u8>> {
    seq![type_column_name(), client_column_name(), tx_column_name(), amount_column_name()]
}

/// The text of `Record::to_line` for a record.
pub open spec fn line_text(r: RecordView) -> Seq<char> {
    r.transaction_type + ","@ + decimal_digits(r.client as nat) + ","@ + decimal_digits(r.tx as nat)
        + ","@ + r.amount
}

/// The digits of `n`: at least one, each `0`..`9`, and spelling `n`.
proof fn lemma_decimal_digits(n: nat)
    ensures
        decimal_digits(n).len() >= 1,
        forall|i: int|
            0 <= i < decimal_digits(n).len() ==> '0' <= #[trigger] decimal_digits(n)[i] <= '9',
        digits_value(ascii_bytes(decimal_digits(n)), 10) == Some(n),
    decreases n,
{
    let d = decimal_digits(n);
    let b = ascii_bytes(d);
    if n >= 10 {
        lemma_decimal_digits(n / 10);
        let e = decimal_digits(n / 10);
        assert(d == e + seq![digit_char(n % 10)]);
        assert(b.drop_last() =~= ascii_bytes(e));
        assert(digit_char(n % 10) as u8 == 48 + n % 10);
        assert(b.last() == 48 + n % 10);
        assert(b.drop_last() == ascii_bytes(e));
        assert(digit_value(b.last(), 10) == Some((n % 10) as nat));
        assert(digits_value(b, 10) == Some((n / 10) * 10 + n % 10));
        assert(forall|i: int| 0 <= i < d.len() ==> '0' <= #[trigger] d[i] <= '9') by {
            assert forall|i: int| 0 <= i < d.len() implies '0' <= #[trigger] d[i] <= '9' by {
                if i < e.len() {
                    assert(d[i] == e[i]);
                }
            }
        }
    } else {
        assert(digit_char(n) as u8 == 48 + n);
        assert(b.drop_last() =~= Seq::<u8>::empty());
        assert(digits_value(b.drop_last(), 10) == Some(0nat));
        assert(b.last() == 48 + n);
        assert(digit_value(b.last(), 10) == Some(n));
    }
}

/// The bytes of ASCII text are its characters, one byte each.
proof fn lemma_ascii_encoding(s: Seq<char>)
    requires
        is_ascii_chars(s),
    ensures
        encode_utf8(s) == ascii_bytes(s),
{
    is_ascii_chars_encode_utf8(s);
    assert(encode_utf8(s) =~= ascii_bytes(s));
}

/// A line without commas is one piece.
proof fn lemma_split_comma_free(t: Seq<u8>)
    requires
        forall|i: int| 0 <= i < t.len() ==> t[i] != 44u8,
    ensures
        split_comma_bytes(t) == seq![t],
    decreases t.len(),
{
    if t.len() > 0 {
        lemma_split_comma_free(t.drop_last());
        assert(t.drop_last().push(t.last()) =~= t);
        assert(seq![t.drop_last()].update(0, t.drop_last().push(t.last())) =~= seq![t]);
    } else {
        assert(t =~= Seq::<u8>::empty());
    }
}

/// Appending comma-free bytes extends the last piece.
proof fn lemma_split_append(p: Seq<u8>, t: Seq<u8>)
    requires
        forall|i: int| 0 <= i < t.len() ==> t[i] != 44u8,
    ensures
        split_comma_bytes(p).len() >= 1,
        split_comma_bytes(p + t) == split_comma_bytes(p).update(
            split_comma_bytes(p).len() - 1,
            split_comma_bytes(p).last() + t,
        ),
    decreases p.len() + t.len(),
{
    if t.len() == 0 {
        if p.len() > 0 {
            lemma_split_append(p.drop_last(), Seq::<u8>::empty());
        }
        assert(p + t =~= p);
        assert(split_comma_bytes(p).last() + t =~= split_comma_bytes(p).last());
        assert(split_comma_bytes(p).update(split_comma_bytes(p).len() - 1, split_comma_bytes(p).last())
            =~= split_comma_bytes(p));
    } else {
        lemma_split_append(p, t.drop_last());
        assert((p + t).drop_last() =~= p + t.drop_last());
        assert((p + t).last() == t.last());
        let f = split_comma_bytes(p);
        assert((f.last() + t.drop_last()).push(t.last()) =~= f.last() + t);
        assert(split_comma_bytes(p + t) =~= f.update(f.len() - 1, f.last() + t));
    }
}

/// The bytes of `x`, a comma, then comma-free `t`, split into the pieces of
/// `x` followed by `t`.
proof fn lemma_split_then(x: Seq<u8>, t: Seq<u8>)
    requires
        forall|i: int| 0 <= i < t.len() ==> t[i] != 44u8,
    ensures
        split_comma_bytes(x + seq![44u8] + t) == split_comma_bytes(x).push(t),
{
    let p = x + seq![44u8];
    lemma_split_append(p, t);
    assert(p.drop_last() =~= x);
    assert(split_comma_bytes(p) == split_comma_bytes(x).push(Seq::<u8>::empty()));
    assert(split_comma_bytes(x).push(Seq::<u8>::empty()).update(
        split_comma_bytes(x).len() as int,
        Seq::<u8>::empty() + t,
    ) =~= split_comma_bytes(x).push(t));
}

/// Bytes that neither start nor end with ASCII whitespace are their own trim.
proof fn lemma_trim_unchanged(s: Seq<u8>)
    requires
        s.len() > 0 ==> !is_ascii_white(s[0]) && !is_ascii_white(s.last()),
    ensures
        trim_ascii(s) == s,
{
}

/// A plain cell's bytes: no comma, quote or line break, and (when not
/// empty) no ASCII whitespace at either end.
proof fn lemma_cell_bytes(s: Seq<char>)
    requires
        plain_cell(s),
    ensures
        valid_utf8(encode_utf8(s)),
        decode_utf8(encode_utf8(s)) == s,
        forall|i: int|
            0 <= i < encode_utf8(s).len() ==> #[trigger] encode_utf8(s)[i] != 44u8
                && encode_utf8(s)[i] != 34u8 && encode_utf8(s)[i] != 13u8 && encode_utf8(s)[i]
                != 10u8,
        trim_ascii(encode_utf8(s)) == encode_utf8(s),
{
    encode_utf8_valid_utf8(s);
    encode_utf8_decode_utf8(s);
    lemma_encode_cell_bytes(s);
    if s.len() > 0 {
        lemma_encode_cell_ends(s);
    } else {
        assert(encode_utf8(s) =~= Seq::<u8>::empty());
    }
    lemma_trim_unchanged(encode_utf8(s));
}

/// A record line reads back as the same record: the UTF-8 bytes of
/// `to_line`'s text, for a record whose type and amount are plain cells and
/// whose type does not start with a byte-order mark, form a plain line, and
/// that line decodes under the header `type,client,tx,amount` to the very
/// same record.
pub proof fn law_line_round_trip(r: RecordView)
    requires
        plain_cell(r.transaction_type),
        plain_cell(r.amount),
        r.transaction_type.len() > 0 ==> r.transaction_type[0] != '\u{FEFF}',
    ensures
        plain_line(encode_utf8(line_text(r))),
        decode_fields(plain_fields(encode_utf8(line_text(r))), standard_header()) == Ok::<
            RecordView,
            RecordError,
        >(r),
{
    reveal_strlit(",");
    let t = r.transaction_type;
    let a = r.amount;
    let c = decimal_digits(r.client as nat);
    let x = decimal_digits(r.tx as nat);
    lemma_decimal_digits(r.client as nat);
    lemma_decimal_digits(r.tx as nat);
    let comma = seq![','];
    assert(","@ == comma);
    let line = line_text(r);
    lemma_ascii_encoding(c);
    lemma_ascii_encoding(x);
    lemma_ascii_encoding(comma);
    assert(ascii_bytes(comma) =~= seq![44u8]);
    let bt = encode_utf8(t);
    let bc = ascii_bytes(c);
    let bx = ascii_bytes(x);
    let ba = encode_utf8(a);
    lemma_encode_concat(t, comma);
    lemma_encode_concat(t + comma, c);
    lemma_encode_concat(t + comma + c, comma);
    lemma_encode_concat(t + comma + c + comma, x);
    lemma_encode_concat(t + comma + c + comma + x, comma);
    lemma_encode_concat(t + comma + c + comma + x + comma, a);
    let bytes = encode_utf8(line);
    assert(bytes =~= bt + seq![44u8] + bc + seq![44u8] + bx + seq![44u8] + ba);
    lemma_cell_bytes(t);
    lemma_cell_bytes(a);
    assert forall|i: int| 0 <= i < bc.len() implies 48u8 <= #[trigger] bc[i] <= 57u8 by {
        assert('0' <= c[i] <= '9');
    }
    assert forall|i: int| 0 <= i < bx.len() implies 48u8 <= #[trigger] bx[i] <= 57u8 by {
        assert('0' <= x[i] <= '9');
    }
    assert(plain_line(bytes)) by {
        assert forall|i: int| 0 <= i < bytes.len() implies #[trigger] bytes[i] != 34u8 && bytes[i]
            != 13u8 && bytes[i] != 10u8 by {
            let p1 = bt.len() as int;
            let p2 = p1 + 1 + bc.len();
            let p3 = p2 + 1 + bx.len();
            if i < p1 {
                assert(bytes[i] == bt[i]);
            } else if i == p1 || i == p2 || i == p3 {
            } else if i < p2 {
                assert(bytes[i] == bc[i - p1 - 1]);
            } else if i < p3 {
                assert(bytes[i] == bx[i - p2 - 1]);
            } else {
                assert(bytes[i] == ba[i - p3 - 1]);
            }
        }
        if t.len() > 0 {
            lemma_encode_cell_ends(t);
            assert(bytes[0] == bt[0]);
            if bt.len() >= 3 {
                assert(bytes[1] == bt[1]);
                assert(bytes[2] == bt[2]);
            }
        } else {
            assert(bt =~= Seq::<u8>::empty());
            assert(bytes[0] == 44u8);
        }
    }
    lemma_split_comma_free(bt);
    lemma_split_then(bt, bc);
    lemma_split_then(bt + seq![44u8] + bc, bx);
    lemma_split_then(bt + seq![44u8] + bc + seq![44u8] + bx, ba);
    let fields = seq![bt, bc, bx, ba];
    assert(split_comma_bytes(bytes) =~= fields);
    lemma_trim_unchanged(bc);
    lemma_trim_unchanged(bx);
    assert(plain_fields(bytes) =~= fields);
    encode_utf8_valid_utf8(c);
    encode_utf8_valid_utf8(x);
    assert(bc[0] != 43u8 && bc[0] != 120u8);
    assert(bx[0] != 43u8);
    assert(bc.len() >= 2 ==> bc[1] != 120u8);
    assert(bx.len() >= 2 ==> bx[1] != 120u8);
    assert(number_field(bc, u16::MAX as nat) == Some(r.client as nat));
    assert(number_field(bx, u32::MAX as nat) == Some(r.tx as nat));
    law_columns_match_by_name(fields, standard_header(), 0, 1, 2, 3);
}

/// One of the characters `u8::is_ascii_whitespace` accepts.
pub open spec fn is_ascii_white_char(c: char) -> bool {
    c == ' ' || c == '\t' || c == '\n' || c == '\x0C' || c == '\r'
}

/// An ASCII character's byte is its code.
proof fn lemma_ascii_char_byte(c: char)
    requires
        (c as u32) < 128,
    ensures
        (c as u8) as u32 == c as u32,
        c as u8 == 44u8 ==> c == ',',
        c as u8 == 34u8 ==> c == '"',
        c as u8 == 13u8 ==> c == '\r',
        c as u8 == 10u8 ==> c == '\n',
        c as u8 == 32u8 ==> c == ' ',
        c as u8 == 9u8 ==> c == '\t',
        c as u8 == 12u8 ==> c == '\x0C',
{
    let v = c as u32;
    assert((v as u8) as u32 == v) by (bit_vector)
        requires
            v < 128,
    ;
    assert(c as u8 == v as u8);
    char_u32_cast(c, v);
}

/// Encoding a concatenation concatenates the encodings.
proof fn lemma_encode_concat(a: Seq<char>, b: Seq<char>)
    ensures
        encode_utf8(a + b) == encode_utf8(a) + encode_utf8(b),
    decreases a.len(),
{
    if a.len() == 0 {
        assert(a + b =~= b);
        assert(encode_utf8(a) =~= Seq::<u8>::empty());
        assert(encode_utf8(a) + encode_utf8(b) =~= encode_utf8(b));
    } else {
        assert((a + b)[0] == a[0]);
        assert((a + b).drop_first() =~= a.drop_first() + b);
        lemma_encode_concat(a.drop_first(), b);
        assert(encode_utf8(a + b) =~= encode_utf8(a) + encode_utf8(b));
    }
}

/// The bytes of one character: the character itself when ASCII; otherwise
/// bytes of 0x80 and up, the first of 0xC0 and up, and never the start of
/// a byte-order mark unless it is one.
proof fn lemma_encode_char(c: char)
    ensures
        encode_utf8(seq![c]) == encode_scalar(c as u32),
        encode_scalar(c as u32).len() >= 1,
        (c as u32) < 128 ==> encode_scalar(c as u32) == seq![c as u8],
        (c as u32) >= 128 ==> encode_scalar(c as u32)[0] >= 0xC0u8,
        (c as u32) >= 128 ==> forall|i: int|
            0 <= i < encode_scalar(c as u32).len() ==> #[trigger] encode_scalar(c as u32)[i] >= 0x80u8,
        c != '\u{FEFF}' ==> encode_scalar(c as u32)[0] != 0xEFu8 || encode_scalar(c as u32).len() < 3
            || encode_scalar(c as u32)[1] != 0xBBu8 || encode_scalar(c as u32)[2] != 0xBFu8,
        encode_scalar(c as u32).len() < 3 ==> encode_scalar(c as u32)[0] != 0xEFu8,
{
    let v = c as u32;
    assert(is_scalar(v)) by {
        char_is_scalar(c);
    }
    let d = seq![c].drop_first();
    assert(d =~= Seq::<char>::empty());
    assert(encode_utf8(d) == Seq::<u8>::empty());
    assert(seq![c][0] == c);
    assert(encode_utf8(seq![c]) == encode_scalar(v) + encode_utf8(d));
    assert(encode_utf8(seq![c]) =~= encode_scalar(v));
    if has_width_1_encoding(v) {
        assert((v & 0x7F) as u8 == v as u8) by (bit_vector)
            requires
                v <= 0x7F,
        ;
        assert(v as u8 == c as u8);
    } else if has_width_2_encoding(v) {
        assert(0xC0u8 | ((v >> 6) & 0x1F) as u8 >= 0xC0u8 && 0xC0u8 | ((v >> 6) & 0x1F) as u8
            <= 0xDFu8) by (bit_vector);
        assert(0x80u8 | (v & 0x3F) as u8 >= 0x80u8) by (bit_vector);
    } else if has_width_3_encoding(v) {
        assert(0xE0u8 | ((v >> 12) & 0x0F) as u8 >= 0xC0u8) by (bit_vector);
        assert(0x80u8 | (v & 0x3F) as u8 >= 0x80u8) by (bit_vector);
        assert(0x80u8 | ((v >> 6) & 0x3F) as u8 >= 0x80u8) by (bit_vector);
        assert((0xE0u8 | ((v >> 12) & 0x0F) as u8) == 0xEFu8 && (0x80u8 | ((v >> 6) & 0x3F) as u8)
            == 0xBBu8 && (0x80u8 | (v & 0x3F) as u8) == 0xBFu8 ==> v == 0xFEFF) by (bit_vector)
            requires
                v <= 0xFFFF,
        ;
        if v == 0xFEFF {
            assert(c == '\u{FEFF}') by {
                char_u32_cast(c, v);
            }
        }
    } else {
        assert(0xF0u8 | ((v >> 18) & 0x7) as u8 >= 0xF0u8) by (bit_vector);
        assert(0x80u8 | (v & 0x3F) as u8 >= 0x80u8) by (bit_vector);
        assert(0x80u8 | ((v >> 6) & 0x3F) as u8 >= 0x80u8) by (bit_vector);
        assert(0x80u8 | ((v >> 12) & 0x3F) as u8 >= 0x80u8) by (bit_vector);
    }
}

/// A cell without commas, quotes or line breaks encodes to bytes without them.
proof fn lemma_encode_cell_bytes(s: Seq<char>)
    requires
        forall|i: int|
            0 <= i < s.len() ==> #[trigger] s[i] != ',' && s[i] != '"' && s[i] != '\r' && s[i]
                != '\n',
    ensures
        forall|i: int|
            0 <= i < encode_utf8(s).len() ==> #[trigger] encode_utf8(s)[i] != 44u8
                && encode_utf8(s)[i] != 34u8 && encode_utf8(s)[i] != 13u8 && encode_utf8(s)[i]
                != 10u8,
    decreases s.len(),
{
    if s.len() > 0 {
        let c = s[0];
        lemma_encode_char(c);
        lemma_encode_cell_bytes(s.drop_first());
        let e = encode_scalar(c as u32);
        let r = encode_utf8(s.drop_first());
        assert(encode_utf8(s) == e + r);
        assert forall|i: int| 0 <= i < encode_utf8(s).len() implies #[trigger] encode_utf8(s)[i]
            != 44u8 && encode_utf8(s)[i] != 34u8 && encode_utf8(s)[i] != 13u8 && encode_utf8(s)[i]
            != 10u8 by {
            if i < e.len() {
                assert(encode_utf8(s)[i] == e[i]);
                if (c as u32) < 128 {
                    assert(e[i] == c as u8);
                    lemma_ascii_char_byte(c);
                }
            } else {
                assert(encode_utf8(s)[i] == r[i - e.len()]);
            }
        }
    }
}

/// The first and last bytes of a cell that neither starts nor ends with
/// ASCII whitespace are not ASCII whitespace.
proof fn lemma_encode_cell_ends(s: Seq<char>)
    requires
        s.len() > 0,
        !is_ascii_white_char(s[0]),
        !is_ascii_white_char(s.last()),
    ensures
        encode_utf8(s).len() > 0,
        !is_ascii_white(encode_utf8(s)[0]),
        !is_ascii_white(encode_utf8(s).last()),
        encode_utf8(s).len() >= 3 ==> s[0] != '\u{FEFF}' ==> !(encode_utf8(s)[0] == 0xEFu8
            && encode_utf8(s)[1] == 0xBBu8 && encode_utf8(s)[2] == 0xBFu8),
        encode_utf8(s).len() < 3 ==> encode_utf8(s)[0] != 0xEFu8,
{
    let c = s[0];
    let l = s.last();
    lemma_encode_char(c);
    lemma_encode_char(l);
    let e = encode_scalar(c as u32);
    assert(encode_utf8(s) == e + encode_utf8(s.drop_first()));
    assert(encode_utf8(s)[0] == e[0]);
    if e.len() >= 3 {
        assert(encode_utf8(s)[1] == e[1]);
        assert(encode_utf8(s)[2] == e[2]);
    }
    if (c as u32) < 128 {
        assert(e[0] == c as u8);
        lemma_ascii_char_byte(c);
    }
    assert(s.drop_last() + seq![l] =~= s);
    lemma_encode_concat(s.drop_last(), seq![l]);
    let el = encode_scalar(l as u32);
    assert(encode_utf8(s) == encode_utf8(s.drop_last()) + el);
    assert(encode_utf8(s).last() == el.last());
    if (l as u32) < 128 {
        assert(el.last() == l as u8);
        lemma_ascii_char_byte(l);
    } else {
        assert(el[el.len() - 1] >= 0x80u8);
    }
}

/// A deposit is accepted exactly when the account is unlocked and the
/// transaction id is new to it: it is rejected as locked only on a locked
/// account, and as a reused id only when the id was used.
pub proof fn law_deposit_acceptance(
    old: ClientModel,
    client: u16,
    tx: u32,
    amount: Amount,
    new: ClientModel,
    r: Result<(), ClientError>,
)
    requires
        processed(old, Transaction::Deposit { client, tx, amount }, new, r),
    ensures
        r is Ok <==> !old.locked && !old.history.contains_key(tx),
        r == Err::<(), ClientError>(ClientError::AccountLocked) <==> old.locked,
        r == Err::<(), ClientError>(ClientError::TransactionReferenceConflict) <==> !old.locked
            && old.history.contains_key(tx),
        r is Ok ==> new.history.contains_key(tx) && new.held == old.held && new.locked
            == old.locked,
{
}

/// A withdrawal is accepted exactly when the account is unlocked, the amount
/// is at most the available funds and the transaction id is new; it is
/// refused for insufficient funds exactly when an unlocked account has less
/// available than the amount, whatever is held.
pub proof fn law_withdrawal_acceptance(
    old: ClientModel,
    client: u16,
    tx: u32,
    amount: Amount,
    new: ClientModel,
    r: Result<(), ClientError>,
)
    requires
        processed(old, Transaction::Withdrawal { client, tx, amount }, new, r),
    ensures
        r is Ok <==> !old.locked && amount.value() <= old.available.value()
            && !old.history.contains_key(tx),
        r == Err::<(), ClientError>(ClientError::AccountLocked) <==> old.locked,
        r == Err::<(), ClientError>(ClientError::InsufficientFunds) <==> !old.locked
            && old.available.value() < amount.value(),
        r == Err::<(), ClientError>(ClientError::TransactionReferenceConflict) <==> !old.locked
            && amount.value() <= old.available.value() && old.history.contains_key(tx),
        r is Ok ==> new.history.contains_key(tx) && new.held == old.held && new.locked
            == old.locked,
{
}

/// Byte `j` belongs to a blank line: a line feed, or a carriage return that
/// ends its line (followed by a line feed or the end of the bytes).
pub open spec fn blank_byte(bytes: Seq<u8>, j: int) -> bool {
    bytes[j] == 10u8 || (bytes[j] == 13u8 && (j + 1 == bytes.len() || bytes[j + 1] == 10u8))
}

/// Every line holding anything is read, whether or not a line feed ends it
/// (the last line of a file included): a line starting at `o` whose content
/// is not empty is the next line read from `o`.
pub proof fn law_nonblank_line_is_read(bytes: Seq<u8>, o: int)
    requires
        0 <= o < bytes.len(),
        !blank_byte(bytes, o),
    ensures
        next_line_start(bytes, o) == Some(o),
{
    law_line_span(bytes, o);
}

/// Reading from `o` skips only blank lines: the line it finds starts at or
/// after `o`, holds something, and every byte before it from `o` on belongs
/// to a blank line; when it finds none, every byte from `o` on does.
pub proof fn law_only_blank_lines_are_skipped(bytes: Seq<u8>, o: int)
    requires
        0 <= o,
    ensures
        next_line_start(bytes, o) matches Some(p) ==> o <= p < bytes.len() && !blank_byte(bytes, p)
            && forall|j: int| o <= j < p ==> #[trigger] blank_byte(bytes, j),
        next_line_start(bytes, o) is None ==> forall|j: int|
            o <= j < bytes.len() ==> #[trigger] blank_byte(bytes, j),
    decreases bytes.len() + 1 - o,
{
    law_line_span(bytes, o);
    if o < bytes.len() && !blank_byte(bytes, o) {
        law_nonblank_line_is_read(bytes, o);
    } else if let Some((end, next)) = line_span(bytes, o) {
        if o < bytes.len() {
            assert(end == o);
            law_only_blank_lines_are_skipped(bytes, next);
            assert forall|j: int| o <= j < next && j < bytes.len() implies #[trigger] blank_byte(
                bytes,
                j,
            ) by {
                if j > o {
                    assert(j == o + 1);
                    assert(bytes[o] == 13u8);
                }
            }
        }
    }
}

/// The column `set_type_first_byte` marks is the first one named `type`:
/// found exactly when some column is named `type`, at the least such index.
pub proof fn law_type_column_is_first_type(headers: Seq<Seq<u8>>)
    ensures
        type_column(headers) matches Some(i) ==> 0 <= i < headers.len() && headers[i] == seq![
            116u8,
            121u8,
            112u8,
            101u8,
        ] && forall|j: int| 0 <= j < i ==> #[trigger] headers[j] != seq![116u8, 121u8, 112u8, 101u8],
        forall|i: int|
            0 <= i < headers.len() && #[trigger] headers[i] == seq![116u8, 121u8, 112u8, 101u8]
                ==> (type_column(headers) matches Some(k) && k <= i),
{
    lemma_type_column_first(headers, 0);
}

proof fn lemma_type_column_first(headers: Seq<Seq<u8>>, s: int)
    requires
        0 <= s,
    ensures
        type_column_from(headers, s) matches Some(i) ==> s <= i < headers.len() && headers[i]
            == seq![116u8, 121u8, 112u8, 101u8] && forall|j: int|
            s <= j < i ==> #[trigger] headers[j] != seq![116u8, 121u8, 112u8, 101u8],
        forall|i: int|
            s <= i < headers.len() && #[trigger] headers[i] == seq![116u8, 121u8, 112u8, 101u8]
                ==> (type_column_from(headers, s) matches Some(k) && k <= i),
    decreases headers.len() - s,
{
    assert(type_column_name() =~= seq![116u8, 121u8, 112u8, 101u8]);
    if s < headers.len() {
        lemma_type_column_first(headers, s + 1);
    }
}

/// A dispute, resolve or chargeback is accepted exactly when the id is one
/// of the client's own deposits or withdrawals in the right state: never
/// disputed for a dispute, under an open dispute for a resolve or a
/// chargeback; otherwise it is refused as invalid. The lock plays no part.
pub proof fn law_dispute_acceptance(
    old: ClientModel,
    t: Transaction,
    new: ClientModel,
    r: Result<(), ClientError>,
)
    requires
        processed(old, t, new, r),
        t is Dispute || t is Resolve || t is Chargeback,
    ensures
        t matches Transaction::Dispute { tx, .. } ==> (r is Ok <==> old.history.contains_key(tx)
            && old.history[tx].state == DisputeState::Undisputed),
        t matches Transaction::Resolve { tx, .. } ==> (r is Ok <==> old.history.contains_key(tx)
            && old.history[tx].state == DisputeState::Disputed),
        t matches Transaction::Chargeback { tx, .. } ==> (r is Ok <==> old.history.contains_key(tx)
            && old.history[tx].state == DisputeState::Disputed),
        r is Err ==> r == Err::<(), ClientError>(ClientError::InvalidTransaction) && new == old,
{
}

/// What an accepted transaction does to the balances, when its arithmetic
/// is exact: a deposit adds its amount to the available funds and a
/// withdrawal takes it away; a dispute holds the transaction's amount and,
/// for a deposit, takes it from the available funds; a resolve releases the
/// held amount and, for a deposit, gives it back to the available funds; a
/// chargeback releases the held amount and, for a withdrawal, gives it back
/// to the available funds, and locks the account.
pub proof fn law_balance_effects(
    old: ClientModel,
    t: Transaction,
    new: ClientModel,
    r: Result<(), ClientError>,
)
    requires
        processed(old, t, new, r),
        r is Ok,
        arithmetic_exact(old, t),
    ensures
        t matches Transaction::Deposit { amount, .. } ==> new.available.value()
            == old.available.value() + amount.value() && new.held == old.held,
        t matches Transaction::Withdrawal { amount, .. } ==> new.available.value()
            == old.available.value() - amount.value() && new.held == old.held,
        t matches Transaction::Dispute { tx, .. } ==> {
            let f = old.history[tx];
            &&& new.held.value() == old.held.value() + f.amount.value()
            &&& new.available.value() == old.available.value() - (if f.kind == FundsKind::Deposit {
                f.amount.value()
            } else {
                0
            })
        },
        t matches Transaction::Resolve { tx, .. } ==> {
            let f = old.history[tx];
            &&& new.held.value() == old.held.value() - f.amount.value()
            &&& new.available.value() == old.available.value() + (if f.kind == FundsKind::Deposit {
                f.amount.value()
            } else {
                0
            })
        },
        t matches Transaction::Chargeback { tx, .. } ==> {
            let f = old.history[tx];
            &&& new.held.value() == old.held.value() - f.amount.value()
            &&& new.available.value() == old.available.value() + (if f.kind
                == FundsKind::Withdrawal {
                f.amount.value()
            } else {
                0
            })
            &&& new.locked
        },
{
}

} // verus!
