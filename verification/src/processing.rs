//! Applying a file's records to the accounts, in order.

use crate::client::{arithmetic_defined, Client, ClientError};
use crate::engine::{account_of, engine_processed, TransactionEngine};
use crate::mmap_record_parser::{
    law_line_span, lemma_parser_offset, line_span, next_line_start, MmapRecordParser, ParserView,
};
use crate::record::{decode_line, Record, RecordError, RecordView};
use crate::laws::{blank_byte, law_only_blank_lines_are_skipped};
use crate::transaction::{parsed_as, ParseTransactionError, Transaction};
use vstd::prelude::*;

verus! {

/// What became of one record of the file.
#[derive(Debug)]
pub enum RecordOutcome {
    /// The line did not decode into a record; it was skipped.
    Undecodable(RecordError),
    /// The record is not a valid transaction; it was skipped.
    Unparsable(Record, ParseTransactionError),
    /// The transaction was processed by its client's account, with this result
    /// (an `Err` means it was rejected and changed nothing).
    Processed(Transaction, Result<(), ClientError>),
}

/// Processing stopped at a record whose arithmetic would overflow.
#[derive(Debug)]
pub struct Overflow {
    /// Where that record starts in the file.
    pub offset: usize,
    /// What became of the records before it, in order.
    pub outcomes: Vec<RecordOutcome>,
}

/// The records `next_record` yields from `offset` on: the offset of each
/// non-blank line, with what its content decodes to.
pub open spec fn records_from(bytes: Seq<u8>, headers: Seq<Seq<u8>>, offset: int) -> Seq<
    (int, Result<RecordView, RecordError>),
>
    decreases bytes.len() + 1 - offset,
{
    match next_line_start(bytes, offset) {
        None => Seq::empty(),
        Some(o) => match line_span(bytes, o) {
            Some((end, next)) => if offset < next <= bytes.len() + 1 {
                seq![(o, decode_line(bytes.subrange(o, end), headers))] + records_from(
                    bytes,
                    headers,
                    next,
                )
            } else {
                Seq::empty()
            },
            None => Seq::empty(),
        },
    }
}

/// The records a parser has still to yield.
pub open spec fn records_of(p: ParserView) -> Seq<(int, Result<RecordView, RecordError>)> {
    records_from(p.bytes, p.headers, p.next_offset)
}

/// One record applied to the accounts `before`, giving `after`: a line that
/// does not decode, or a record that is not a transaction, is skipped; a
/// transaction is processed by the engine.
pub open spec fn record_step(
    rec: Result<RecordView, RecordError>,
    before: Map<u16, Client>,
    o: RecordOutcome,
    after: Map<u16, Client>,
) -> bool {
    match rec {
        Err(e) => o == RecordOutcome::Undecodable(e) && after == before,
        Ok(v) => match o {
            RecordOutcome::Undecodable(_) => false,
            RecordOutcome::Unparsable(r, pe) => r@ == v && parsed_as(v, Err(pe)) && after == before,
            RecordOutcome::Processed(t, res) => parsed_as(v, Ok(t)) && engine_processed(
                before,
                t,
                after,
                res,
            ),
        },
    }
}

/// The records were applied in order, one outcome each, through the account
/// states `states` (one more than the records).
pub open spec fn applied_in_order(
    recs: Seq<(int, Result<RecordView, RecordError>)>,
    outs: Seq<RecordOutcome>,
    states: Seq<Map<u16, Client>>,
) -> bool {
    &&& outs.len() == recs.len()
    &&& states.len() == recs.len() + 1
    &&& forall|i: int|
        0 <= i < recs.len() ==> record_step(recs[i].1, states[i], #[trigger] outs[i], states[i + 1])
}

/// The line `next_line_start` finds lies at or after `offset`, and the next
/// one starts after it.
proof fn lemma_next_line(bytes: Seq<u8>, offset: int)
    requires
        0 <= offset,
    ensures
        next_line_start(bytes, offset) matches Some(o) ==> offset <= o <= bytes.len() && (
        line_span(bytes, o) matches Some((end, next)) && o < next <= bytes.len() + 1),
    decreases bytes.len() + 1 - offset,
{
    law_line_span(bytes, offset);
    if let Some((end, next)) = line_span(bytes, offset) {
        if end == offset {
            lemma_next_line(bytes, next);
        }
    }
}

/// The records read from `o` on: none exactly when every byte from `o` on
/// belongs to a blank line; otherwise the first is the first line from `o`
/// that holds something, read whether or not a line feed ends it.
pub proof fn law_records_from_nonblank_lines(bytes: Seq<u8>, headers: Seq<Seq<u8>>, o: int)
    requires
        0 <= o,
    ensures
        records_from(bytes, headers, o).len() == 0 <==> forall|j: int|
            o <= j < bytes.len() ==> #[trigger] blank_byte(bytes, j),
        records_from(bytes, headers, o).len() > 0 ==> {
            let p = records_from(bytes, headers, o)[0].0;
            &&& o <= p < bytes.len()
            &&& !blank_byte(bytes, p)
            &&& forall|j: int| o <= j < p ==> #[trigger] blank_byte(bytes, j)
        },
{
    lemma_next_line(bytes, o);
    law_only_blank_lines_are_skipped(bytes, o);
    if let Some(p) = next_line_start(bytes, o) {
        assert(!blank_byte(bytes, p));
    }
}

/// Applies the file's records to `engine` in order: a line that does not
/// decode, or a record that is not a valid transaction, is skipped; every
/// transaction is processed by its client's account, rejected ones changing
/// nothing. Returns what became of each record, or stops with `Overflow` at
/// the first transaction whose arithmetic would overflow.
pub fn process_records(parser: &mut MmapRecordParser, engine: &mut TransactionEngine) -> (r: Result<
    Vec<RecordOutcome>,
    Overflow,
>)
    ensures
        final(parser)@.bytes == old(parser)@.bytes,
        final(parser)@.headers == old(parser)@.headers,
        r matches Ok(outs) ==> outs@.len() == records_of(old(parser)@).len(),
        r matches Ok(outs) ==> exists|states: Seq<Map<u16, Client>>|
            #[trigger] applied_in_order(records_of(old(parser)@), outs@, states) && states[0]
                == old(engine).clients@ && states.last() == final(engine).clients@,
        r matches Err(ov) ==> {
            let recs = records_of(old(parser)@);
            let k = ov.outcomes@.len() as int;
            &&& k < recs.len()
            &&& ov.offset == recs[k].0
            &&& exists|states: Seq<Map<u16, Client>>|
                #[trigger] applied_in_order(recs.take(k), ov.outcomes@, states) && states[0]
                    == old(engine).clients@ && states.last() == final(engine).clients@
            &&& recs[k].1 matches Ok(v) && exists|t: Transaction|
                #[trigger] parsed_as(v, Ok(t)) && !arithmetic_defined(
                    account_of(final(engine).clients@, t.client_of()),
                    t,
                )
        },
{
    proof {
        lemma_parser_offset(parser);
    }
    let ghost recs = records_of(parser@);
    let ghost mut states: Seq<Map<u16, Client>> = seq![engine.clients@];
    let mut outs: Vec<RecordOutcome> = Vec::new();
    proof {
        assert(recs.take(0) =~= Seq::<(int, Result<RecordView, RecordError>)>::empty());
        assert(recs.skip(0) =~= recs);
    }
    loop
        invariant
            parser@.bytes == old(parser)@.bytes,
            parser@.headers == old(parser)@.headers,
            recs == records_of(old(parser)@),
            0 <= parser@.next_offset,
            outs@.len() <= recs.len(),
            recs.skip(outs@.len() as int) == records_of(parser@),
            applied_in_order(recs.take(outs@.len() as int), outs@, states),
            states[0] == old(engine).clients@,
            states.last() == engine.clients@,
        decreases recs.len() - outs@.len(),
    {
        proof {
            lemma_parser_offset(parser);
        }
        let ghost cur = parser@;
        let ghost k = outs@.len() as int;
        proof {
            lemma_next_line(cur.bytes, cur.next_offset);
        }
        match parser.next_record() {
            None => {
                proof {
                    assert(records_of(cur).len() == 0);
                    assert(recs.skip(k).len() == recs.len() - k);
                    assert(recs.take(k) =~= recs);
                }
                let result: Result<Vec<RecordOutcome>, Overflow> = Ok(outs);
                proof {
                    let done = result->Ok_0;
                    assert(applied_in_order(records_of(old(parser)@), done@, states));
                }
                return result;
            },
            Some((offset, res)) => {
                let ghost o = offset as int;
                let ghost (end, next) = line_span(cur.bytes, o)->0;
                let ghost d = decode_line(cur.bytes.subrange(o, end), cur.headers);
                proof {
                    assert(records_of(cur) == seq![(o, d)] + records_of(parser@));
                    assert(recs.skip(k).len() == recs.len() - k);
                    assert(recs[k] == recs.skip(k)[0]);
                    assert(recs[k] == (o, d));
                    assert(recs.skip(k + 1) =~= recs.skip(k).skip(1));
                    assert((seq![(o, d)] + records_of(parser@)).skip(1) =~= records_of(parser@));
                }
                let ghost before = engine.clients@;
                let outcome = match res {
                    Err(e) => RecordOutcome::Undecodable(e),
                    Ok(rec) => match Transaction::try_from(&rec) {
                        Err(pe) => RecordOutcome::Unparsable(rec, pe),
                        Ok(t) => match engine.try_process_transaction(t) {
                            None => {
                                proof {
                                    assert(recs.take(k) == recs.take(outs@.len() as int));
                                }
                                return Err(Overflow { offset, outcomes: outs });
                            },
                            Some(result) => RecordOutcome::Processed(t, result),
                        },
                    },
                };
                proof {
                    assert(record_step(recs[k].1, before, outcome, engine.clients@));
                }
                outs.push(outcome);
                proof {
                    states = states.push(engine.clients@);
                    let rt = recs.take(k + 1);
                    assert forall|i: int| 0 <= i < rt.len() implies record_step(
                        rt[i].1,
                        states[i],
                        #[trigger] outs@[i],
                        states[i + 1],
                    ) by {
                        if i < k {
                            assert(rt[i] == recs.take(k)[i]);
                            assert(record_step(recs.take(k)[i].1, states[i], outs@[i], states[i + 1]));
                        }
                    }
                }
            },
        }
    }
}

} // verus!
