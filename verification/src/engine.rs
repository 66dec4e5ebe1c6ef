//! The engine that routes each transaction to its client's account.

use crate::client::{
    arithmetic_defined, arithmetic_exact, fresh_model, processed, Client, ClientError,
    ClientModel,
};
use crate::mmap_record_parser::{mapped_bytes, mapping_byte, mapping_len, mapping_set_byte};
use crate::transaction::Transaction;
use memmap2::MmapMut;
use std::collections::HashMap;
use vstd::prelude::*;

verus! {

broadcast use vstd::std_specs::hash::group_hash_axioms;

/// All client accounts, by client id.
pub struct TransactionEngine {
    pub clients: HashMap<u16, Client>,
}

/// The account that handles a transaction of client `id`: the existing one,
/// or a fresh one.
pub open spec fn account_of(clients: Map<u16, Client>, id: u16) -> ClientModel {
    if clients.contains_key(id) {
        clients[id].model()
    } else {
        fresh_model(id)
    }
}

/// What processing `t` does to the accounts: the client named by `t` gets an
/// account (created if it had none, even when `t` is rejected), that account
/// is processed as a client processes `t`, and no other account changes.
pub open spec fn engine_processed(
    old: Map<u16, Client>,
    t: Transaction,
    new: Map<u16, Client>,
    r: Result<(), ClientError>,
) -> bool {
    let id = t.client_of();
    &&& new.dom() == old.dom().insert(id)
    &&& new.remove(id) == old.remove(id)
    &&& processed(account_of(old, id), t, new[id].model(), r)
}

impl TransactionEngine {
    /// An engine with no accounts.
    pub fn new() -> (r: TransactionEngine)
        ensures
            r.clients@ == Map::<u16, Client>::empty(),
    {
        TransactionEngine { clients: HashMap::new() }
    }

    /// Whether the arithmetic that `transaction` would perform on its client's
    /// account stays within range.
    pub fn arithmetic_fits(&self, transaction: &Transaction) -> (r: bool)
        ensures
            r == arithmetic_defined(account_of(self.clients@, transaction.client_of()), *transaction),
            arithmetic_exact(account_of(self.clients@, transaction.client_of()), *transaction) ==> r,
    {
        let id = transaction.client_id();
        match self.clients.get(&id) {
            Some(client) => client.arithmetic_fits(transaction),
            None => {
                let client = Client::new(id);
                client.arithmetic_fits(transaction)
            },
        }
    }

    /// Processes `transaction` on its client's account, creating the account
    /// first if the client has none.
    pub fn process_transaction(&mut self, transaction: Transaction) -> (r: Result<(), ClientError>)
        requires
            arithmetic_defined(account_of(old(self).clients@, transaction.client_of()), transaction),
        ensures
            engine_processed(old(self).clients@, transaction, final(self).clients@, r),
            final(self).clients@.len() == old(self).clients@.len() + (if old(self).clients@.contains_key(
                transaction.client_of(),
            ) {
                0int
            } else {
                1int
            }),
    {
        let id = transaction.client_id();
        let mut client = match self.clients.remove(&id) {
            Some(client) => client,
            None => Client::new(id),
        };
        let r = client.process_transaction(transaction);
        self.clients.insert(id, client);
        proof {
            assert(final(self).clients@.remove(id) =~= old(self).clients@.remove(id));
            assert(final(self).clients@.dom() =~= old(self).clients@.dom().insert(id));
        }
        r
    }

    /// Processes `transaction` when the arithmetic on its client's account
    /// stays within range; otherwise returns `None` and changes nothing.
    pub fn try_process_transaction(&mut self, transaction: Transaction) -> (r: Option<
        Result<(), ClientError>,
    >)
        ensures
            r is None <==> !arithmetic_defined(
                account_of(old(self).clients@, transaction.client_of()),
                transaction,
            ),
            arithmetic_exact(account_of(old(self).clients@, transaction.client_of()), transaction) ==> r is Some,
            r is None ==> final(self).clients@ == old(self).clients@,
            r matches Some(res) ==> engine_processed(old(self).clients@, transaction, final(self).clients@, res),
    {
        if self.arithmetic_fits(&transaction) {
            Some(self.process_transaction(transaction))
        } else {
            None
        }
    }
}

/// A transaction index entry: a byte offset.
pub type Index = usize;

/// The number of bytes an [`Index`] takes.
pub open spec fn index_size() -> nat {
    vstd::layout::size_of::<usize>()
}

/// The little-endian value of a sequence of bytes.
pub open spec fn le_value(bytes: Seq<u8>) -> nat
    decreases bytes.len(),
{
    if bytes.len() == 0 {
        0
    } else {
        bytes[0] as nat + 256 * le_value(bytes.drop_first())
    }
}

/// The `n` little-endian bytes of `v` (its low `n` bytes).
pub open spec fn le_bytes(v: nat, n: nat) -> Seq<u8>
    decreases n,
{
    if n == 0 {
        Seq::empty()
    } else {
        seq![(v % 256) as u8] + le_bytes(v / 256, (n - 1) as nat)
    }
}

pub open spec fn pow256(n: nat) -> nat
    decreases n,
{
    if n == 0 {
        1
    } else {
        256 * pow256((n - 1) as nat)
    }
}

/// The bytes of the entry for `key`.
pub open spec fn entry_range(key: u32) -> (int, int) {
    (key as int * index_size(), key as int * index_size() + index_size())
}

/// The entry for `key` in the buffer's bytes, if it lies within them.
pub open spec fn entry_of(bytes: Seq<u8>, key: u32) -> Option<nat> {
    let (start, end) = entry_range(key);
    if end <= bytes.len() {
        Some(le_value(bytes.subrange(start, end)))
    } else {
        None
    }
}

/// The bytes after writing `value` as the entry for `key`.
pub open spec fn with_entry(bytes: Seq<u8>, key: u32, value: nat) -> Seq<u8> {
    bytes.subrange(0, entry_range(key).0) + le_bytes(value, index_size()) + bytes.subrange(
        entry_range(key).1,
        bytes.len() as int,
    )
}

/// A key-to-offset table in a memory-mapped buffer: entry `key` is the
/// little-endian [`Index`] stored at bytes `key * INDEX_SIZE ..`.
pub struct IndexBuffer {
    mmap: MmapMut,
    size: u64,
}

impl View for IndexBuffer {
    type V = Seq<u8>;

    /// The bytes of the buffer.
    closed spec fn view(&self) -> Seq<u8> {
        mapped_bytes(self.mmap)
    }
}

impl IndexBuffer {
    #[verifier::type_invariant]
    spec fn inv(self) -> bool {
        &&& self.size as int == mapped_bytes(self.mmap).len()
        &&& mapped_bytes(self.mmap).len() <= isize::MAX
    }

    /// The entry for `key`, if it lies within the buffer.
    pub open spec fn entry(self, key: u32) -> Option<nat> {
        entry_of(self@, key)
    }
}

proof fn lemma_index_size()
    ensures
        index_size() == 4 || index_size() == 8,
        pow256(index_size()) == usize::MAX + 1,
{
    broadcast use vstd::layout::layout_of_primitives;

    assert(vstd::layout::size_of::<usize>() * 8 == usize::BITS);
    reveal_with_fuel(pow256, 9);
    if usize::BITS == 32 {
        assert(usize::MAX == 0xffff_ffff);
    } else {
        assert(usize::BITS == 64);
        assert(usize::MAX == 0xffff_ffff_ffff_ffff);
    }
}

proof fn lemma_le_value_bound(bytes: Seq<u8>)
    ensures
        le_value(bytes) < pow256(bytes.len()),
    decreases bytes.len(),
{
    if bytes.len() > 0 {
        lemma_le_value_bound(bytes.drop_first());
        let r = le_value(bytes.drop_first());
        let p = pow256((bytes.len() - 1) as nat);
        assert(bytes[0] as nat + 256 * r < 256 * p) by (nonlinear_arith)
            requires
                r < p,
                bytes[0] < 256,
        ;
    }
}

proof fn lemma_le_round_trip(v: nat, n: nat)
    requires
        v < pow256(n),
    ensures
        le_bytes(v, n).len() == n,
        le_value(le_bytes(v, n)) == v,
    decreases n,
{
    if n > 0 {
        let p = pow256((n - 1) as nat);
        assert(v / 256 < p) by (nonlinear_arith)
            requires
                v < 256 * p,
        ;
        lemma_le_round_trip(v / 256, (n - 1) as nat);
        assert(le_bytes(v, n).drop_first() =~= le_bytes(v / 256, (n - 1) as nat));
    }
}

/// Appending the next byte of `v`.
proof fn lemma_le_bytes_extend(v: nat, k: nat)
    ensures
        le_bytes(v, k + 1) == le_bytes(v, k).push(((v / pow256(k)) % 256) as u8),
    decreases k,
{
    if k == 0 {
        assert(le_bytes(v / 256, 0) =~= Seq::<u8>::empty());
        assert(le_bytes(v, 1) =~= seq![(v % 256) as u8]);
        assert(pow256(0) == 1);
        assert(v / 1 == v);
        assert(le_bytes(v, 0) =~= Seq::<u8>::empty());
        assert(le_bytes(v, 1) =~= le_bytes(v, 0).push(((v / pow256(0)) % 256) as u8));
    } else {
        lemma_le_bytes_extend(v / 256, (k - 1) as nat);
        lemma_pow256_positive((k - 1) as nat);
        vstd::arithmetic::div_mod::lemma_div_denominator(v as int, 256, pow256((k - 1) as nat) as int);
        assert(pow256(k) == 256 * pow256((k - 1) as nat));
        assert((v / 256) / pow256((k - 1) as nat) == v / pow256(k));
        let x = ((v / pow256(k)) % 256) as u8;
        assert(le_bytes(v / 256, k) == le_bytes(v / 256, (k - 1) as nat).push(x));
        assert(le_bytes(v, k + 1) == seq![(v % 256) as u8] + le_bytes(v / 256, k));
        assert(le_bytes(v, k) == seq![(v % 256) as u8] + le_bytes(v / 256, (k - 1) as nat));
        assert(le_bytes(v, k + 1) =~= le_bytes(v, k).push(x));
    }
}

proof fn lemma_pow256_positive(n: nat)
    ensures
        pow256(n) > 0,
    decreases n,
{
    if n > 0 {
        lemma_pow256_positive((n - 1) as nat);
    }
}

impl IndexBuffer {
    /// Wraps a mapped buffer (zero-filled when freshly created) as an index.
    pub fn new(mmap: MmapMut) -> (r: IndexBuffer)
        ensures
            r@ == mapped_bytes(mmap),
    {
        let len = mapping_len(&mmap);
        IndexBuffer { mmap, size: len as u64 }
    }

    /// Decodes the little-endian `Index` value stored for `key`, or `None`
    /// if `key` falls outside the buffer.
    pub fn get(&self, key: u32) -> (r: Option<Index>)
        ensures
            match self.entry(key) {
                Some(v) => r matches Some(x) && x as nat == v,
                None => r is None,
            },
    {
        proof {
            use_type_invariant(self);
            lemma_index_size();
        }
        let width = core::mem::size_of::<usize>();
        assert(width as nat == index_size());
        assert((key as u64) * (width as u64) <= 8 * 0xffff_ffffu64) by (nonlinear_arith)
            requires
                width <= 8,
        ;
        let offset = key as u64 * width as u64;
        if offset + width as u64 > self.size {
            return None;
        }
        let start = offset as usize;
        assert(start as int == entry_range(key).0);
        let ghost bytes = self@.subrange(start as int, start + width);
        let mut acc: usize = 0;
        let mut k: usize = width;
        while k > 0
            invariant
                0 <= k <= width == index_size(),
                pow256(index_size()) == usize::MAX + 1,
                start + width <= mapped_bytes(self.mmap).len(),
                mapped_bytes(self.mmap).len() <= isize::MAX,
                bytes == mapped_bytes(self.mmap).subrange(start as int, start + width),
                acc as nat == le_value(bytes.subrange(k as int, width as int)),
            decreases k,
        {
            let b = mapping_byte(&self.mmap, start + k - 1);
            proof {
                let tail = bytes.subrange(k as int, width as int);
                let longer = bytes.subrange(k - 1, width as int);
                assert(longer.drop_first() =~= tail);
                assert(longer[0] == b);
                lemma_le_value_bound(longer);
                lemma_pow256_le(longer.len(), width as nat);
            }
            acc = b as usize + 256 * acc;
            k = k - 1;
        }
        assert(bytes.subrange(0, width as int) =~= bytes);
        Some(acc)
    }

    /// Encodes `value` as little-endian bytes at `key`'s position. Returns
    /// `false` without writing anything if `key` falls outside the buffer.
    pub fn set(&mut self, key: u32, value: Index) -> (r: bool)
        ensures
            r == (old(self).entry(key) is Some),
            r ==> final(self)@ == with_entry(old(self)@, key, value as nat),
            !r ==> final(self)@ == old(self)@,
    {
        proof {
            use_type_invariant(&*self);
            lemma_index_size();
        }
        let width = core::mem::size_of::<usize>();
        assert(width as nat == index_size());
        assert((key as u64) * (width as u64) <= 8 * 0xffff_ffffu64) by (nonlinear_arith)
            requires
                width <= 8,
        ;
        let offset = key as u64 * width as u64;
        if offset + width as u64 > self.size {
            return false;
        }
        let start = offset as usize;
        assert(start as int == entry_range(key).0);
        let ghost before = self@;
        let mut v: usize = value;
        let mut k: usize = 0;
        assert(pow256(0) == 1);
        assert(value as nat / 1 == value as nat);
        assert(le_bytes(value as nat, 0) =~= Seq::<u8>::empty());
        assert(before =~= before.subrange(0, start as int) + le_bytes(value as nat, 0) + before.subrange(
            start as int,
            before.len() as int,
        ));
        while k < width
            invariant
                0 <= k <= width == index_size(),
                start + width <= before.len(),
                before.len() <= isize::MAX,
                mapped_bytes(self.mmap).len() == before.len(),
                self.size as int == before.len(),
                v as nat == value as nat / pow256(k as nat),
                mapped_bytes(self.mmap) == before.subrange(0, start as int) + le_bytes(
                    value as nat,
                    k as nat,
                ) + before.subrange(start + k, before.len() as int),
            decreases width - k,
        {
            let b = (v % 256) as u8;
            proof {
                lemma_le_bytes_extend(value as nat, k as nat);
                lemma_pow256_positive(k as nat);
                vstd::arithmetic::div_mod::lemma_div_denominator(value as int, pow256(k as nat) as int, 256);
                assert(pow256(k as nat) * 256 == pow256((k + 1) as nat)) by (nonlinear_arith)
                    requires
                        pow256((k + 1) as nat) == 256 * pow256(k as nat),
                ;
            }
            mapping_set_byte(&mut self.mmap, start + k, b);
            proof {
                lemma_le_round_trip_len(value as nat, (k + 1) as nat);
                assert(mapped_bytes(self.mmap) =~= before.subrange(0, start as int) + le_bytes(
                    value as nat,
                    (k + 1) as nat,
                ) + before.subrange(start + k + 1, before.len() as int));
            }
            v = v / 256;
            k = k + 1;
        }
        true
    }
}

proof fn lemma_le_round_trip_len(v: nat, n: nat)
    ensures
        le_bytes(v, n).len() == n,
    decreases n,
{
    if n > 0 {
        lemma_le_round_trip_len(v / 256, (n - 1) as nat);
    }
}

proof fn lemma_pow256_le(a: nat, b: nat)
    requires
        a <= b,
    ensures
        pow256(a) <= pow256(b),
    decreases b,
{
    if a < b {
        lemma_pow256_le(a, (b - 1) as nat);
        lemma_pow256_positive((b - 1) as nat);
    }
}

/// A read gives back what a write wrote: after writing `value` for `key`,
/// the entry for `key` is `value`, and every other key's entry is unchanged.
pub proof fn law_index_read_after_write(bytes: Seq<u8>, key: u32, value: usize, other: u32)
    requires
        entry_of(bytes, key) is Some,
    ensures
        entry_of(with_entry(bytes, key, value as nat), key) == Some(value as nat),
        other != key ==> entry_of(with_entry(bytes, key, value as nat), other) == entry_of(bytes, other),
{
    lemma_index_size();
    let w = index_size() as int;
    lemma_le_round_trip(value as nat, index_size());
    let after = with_entry(bytes, key, value as nat);
    let (s, e) = entry_range(key);
    assert(after.len() == bytes.len());
    assert(after.subrange(s, e) =~= le_bytes(value as nat, index_size()));
    if other != key {
        let (s2, e2) = entry_range(other);
        if other < key {
            assert(e2 <= s) by (nonlinear_arith)
                requires
                    other < key,
                    s2 == other * w,
                    e2 == other * w + w,
                    s == key * w,
                    w > 0,
            ;
        } else {
            assert(e <= s2) by (nonlinear_arith)
                requires
                    key < other,
                    s2 == other * w,
                    s == key * w,
                    e == key * w + w,
                    w > 0,
            ;
        }
        if e2 <= bytes.len() {
            assert(after.subrange(s2, e2) =~= bytes.subrange(s2, e2));
        }
    }
}

/// The bytes after writing each `(key, value)` of `writes`, in order.
pub open spec fn with_entries(bytes: Seq<u8>, writes: Seq<(u32, usize)>) -> Seq<u8>
    decreases writes.len(),
{
    if writes.len() == 0 {
        bytes
    } else {
        let (key, value) = writes.last();
        with_entry(with_entries(bytes, writes.drop_last()), key, value as nat)
    }
}

/// The value of the last write to `key` in `writes`, if any.
pub open spec fn last_write(writes: Seq<(u32, usize)>, key: u32) -> Option<usize>
    decreases writes.len(),
{
    if writes.len() == 0 {
        None
    } else if writes.last().0 == key {
        Some(writes.last().1)
    } else {
        last_write(writes.drop_last(), key)
    }
}

/// After a series of writes to keys within the buffer, each entry holds
/// the value of its last write, and an entry never written is unchanged.
pub proof fn law_index_after_writes(bytes: Seq<u8>, writes: Seq<(u32, usize)>, key: u32)
    requires
        forall|i: int| 0 <= i < writes.len() ==> entry_of(bytes, #[trigger] writes[i].0) is Some,
    ensures
        with_entries(bytes, writes).len() == bytes.len(),
        match last_write(writes, key) {
            Some(v) => entry_of(with_entries(bytes, writes), key) == Some(v as nat),
            None => entry_of(with_entries(bytes, writes), key) == entry_of(bytes, key),
        },
    decreases writes.len(),
{
    if writes.len() > 0 {
        let init = writes.drop_last();
        assert forall|i: int| 0 <= i < init.len() implies entry_of(bytes, #[trigger] init[i].0) is Some by {
            assert(init[i] == writes[i]);
        }
        law_index_after_writes(bytes, init, key);
        let before = with_entries(bytes, init);
        let (k, v) = writes.last();
        assert(entry_of(bytes, writes[writes.len() - 1].0) is Some);
        lemma_index_size();
        law_index_read_after_write(before, k, v, key);
        assert(with_entry(before, k, v as nat).len() == before.len()) by {
            lemma_le_round_trip_len(v as nat, index_size());
        }
    }
}

} // verus!
