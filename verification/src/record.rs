//! A CSV record of the input file, and its decoding from one line of bytes.
//!
//! The `csv` crate splits a line into trimmed fields; the fields are then
//! mapped onto the record's fields by the names in the header, in any
//! column order, as a by-name deserializer does: every header consumes one
//! field, unknown names are skipped, a repeated name or a missing one is an
//! error, text must be UTF-8 and numbers must parse and fit.

use vstd::prelude::*;
use crate::text::{decimal_digits, integer_text};
use vstd::string::StringExecFns;
use vstd::utf8::{decode_utf8, valid_utf8};

verus! {

/// One row of the input: the transaction type, client, transaction id and
/// the (still unparsed) amount text.
#[derive(Debug)]
pub struct Record {
    pub transaction_type: String,
    pub client: u16,
    pub tx: u32,
    pub amount: String,
}

/// Why a line could not be decoded into a [`Record`].
#[derive(Debug, Clone, Copy, PartialEq, Eq)]
pub enum RecordError {
    /// The CSV reader could not read a record from the line.
    Unreadable,
    /// The row ran out of fields before the header did.
    UnexpectedEndOfRow,
    /// A text field, or a number field, is not valid UTF-8.
    InvalidUtf8,
    /// A number field is not a number, or does not fit its type.
    InvalidInteger,
    /// A column name occurs twice in the header.
    DuplicateField,
    /// One of the four columns is missing from the header.
    MissingField,
}

/// The role of a header column.
pub enum Column {
    TransactionType,
    Client,
    Tx,
    Amount,
    Other,
}

pub open spec fn type_column_name() -> Seq<u8> {
    seq![116u8, 121u8, 112u8, 101u8]
}

pub open spec fn client_column_name() -> Seq<u8> {
    seq![99u8, 108u8, 105u8, 101u8, 110u8, 116u8]
}

pub open spec fn tx_column_name() -> Seq<u8> {
    seq![116u8, 120u8]
}

pub open spec fn amount_column_name() -> Seq<u8> {
    seq![97u8, 109u8, 111u8, 117u8, 110u8, 116u8]
}

/// The column a header name stands for (`type`, `client`, `tx`, `amount`).
pub open spec fn column_of(name: Seq<u8>) -> Column {
    if name == type_column_name() {
        Column::TransactionType
    } else if name == client_column_name() {
        Column::Client
    } else if name == tx_column_name() {
        Column::Tx
    } else if name == amount_column_name() {
        Column::Amount
    } else {
        Column::Other
    }
}

/// The value of one digit in the given radix (10 or 16).
pub open spec fn digit_value(b: u8, radix: nat) -> Option<nat> {
    if 48 <= b <= 57 && (b - 48) < radix {
        Some((b - 48) as nat)
    } else if radix == 16 && 97 <= b <= 102 {
        Some((b - 87) as nat)
    } else if radix == 16 && 65 <= b <= 70 {
        Some((b - 55) as nat)
    } else {
        None
    }
}

/// The value of a (possibly empty) string of digits, if every byte is a digit.
pub open spec fn digits_value(s: Seq<u8>, radix: nat) -> Option<nat>
    decreases s.len(),
{
    if s.len() == 0 {
        Some(0)
    } else {
        match (digits_value(s.drop_last(), radix), digit_value(s.last(), radix)) {
            (Some(v), Some(d)) => Some(v * radix + d),
            _ => None,
        }
    }
}

/// What `from_str_radix` gives for an unsigned type whose largest value is `max`:
/// an optional `+`, then at least one digit, and a value not above `max`.
pub open spec fn unsigned_from_text(s: Seq<u8>, radix: nat, max: nat) -> Option<nat> {
    let digits = if s.len() > 1 && s[0] == 43u8 {
        s.skip(1)
    } else {
        s
    };
    if digits.len() == 0 {
        None
    } else {
        match digits_value(digits, radix) {
            Some(v) => if v <= max {
                Some(v)
            } else {
                None
            },
            None => None,
        }
    }
}

/// An unsigned number field: hexadecimal after a `0x` prefix, decimal otherwise.
pub open spec fn number_field(s: Seq<u8>, max: nat) -> Option<nat> {
    if s.len() >= 2 && s[0] == 48u8 && s[1] == 120u8 {
        unsigned_from_text(s.skip(2), 16, max)
    } else {
        unsigned_from_text(s, 10, max)
    }
}

/// The fields found so far while walking the header.
pub struct Partial {
    pub transaction_type: Option<Seq<char>>,
    pub client: Option<u16>,
    pub tx: Option<u32>,
    pub amount: Option<Seq<char>>,
}

pub open spec fn empty_partial() -> Partial {
    Partial { transaction_type: None, client: None, tx: None, amount: None }
}

/// Walks headers `i..` against the fields, each header taking the field at its
/// own position, and returns what was found or the first error.
pub open spec fn decode_from(fields: Seq<Seq<u8>>, headers: Seq<Seq<u8>>, i: nat, p: Partial) -> Result<
    Partial,
    RecordError,
>
    decreases headers.len() - i,
{
    if i >= headers.len() {
        Ok(p)
    } else {
        match column_of(headers[i as int]) {
            Column::TransactionType => if p.transaction_type is Some {
                Err(RecordError::DuplicateField)
            } else if i >= fields.len() {
                Err(RecordError::UnexpectedEndOfRow)
            } else if !valid_utf8(fields[i as int]) {
                Err(RecordError::InvalidUtf8)
            } else {
                decode_from(fields, headers, i + 1, Partial { transaction_type: Some(decode_utf8(fields[i as int])), ..p })
            },
            Column::Client => if p.client is Some {
                Err(RecordError::DuplicateField)
            } else if i >= fields.len() {
                Err(RecordError::UnexpectedEndOfRow)
            } else if !valid_utf8(fields[i as int]) {
                Err(RecordError::InvalidUtf8)
            } else {
                match number_field(fields[i as int], u16::MAX as nat) {
                    Some(v) => decode_from(fields, headers, i + 1, Partial { client: Some(v as u16), ..p }),
                    None => Err(RecordError::InvalidInteger),
                }
            },
            Column::Tx => if p.tx is Some {
                Err(RecordError::DuplicateField)
            } else if i >= fields.len() {
                Err(RecordError::UnexpectedEndOfRow)
            } else if !valid_utf8(fields[i as int]) {
                Err(RecordError::InvalidUtf8)
            } else {
                match number_field(fields[i as int], u32::MAX as nat) {
                    Some(v) => decode_from(fields, headers, i + 1, Partial { tx: Some(v as u32), ..p }),
                    None => Err(RecordError::InvalidInteger),
                }
            },
            Column::Amount => if p.amount is Some {
                Err(RecordError::DuplicateField)
            } else if i >= fields.len() {
                Err(RecordError::UnexpectedEndOfRow)
            } else if !valid_utf8(fields[i as int]) {
                Err(RecordError::InvalidUtf8)
            } else {
                decode_from(fields, headers, i + 1, Partial { amount: Some(decode_utf8(fields[i as int])), ..p })
            },
            Column::Other => if i >= fields.len() {
                Err(RecordError::UnexpectedEndOfRow)
            } else {
                decode_from(fields, headers, i + 1, p)
            },
        }
    }
}

/// The abstract value of a record.
pub struct RecordView {
    pub transaction_type: Seq<char>,
    pub client: u16,
    pub tx: u32,
    pub amount: Seq<char>,
}

/// Decodes a row of trimmed fields against the header names.
pub open spec fn decode_fields(fields: Seq<Seq<u8>>, headers: Seq<Seq<u8>>) -> Result<RecordView, RecordError> {
    match decode_from(fields, headers, 0, empty_partial()) {
        Err(e) => Err(e),
        Ok(p) => if p.transaction_type is None || p.client is None || p.tx is None || p.amount is None {
            Err(RecordError::MissingField)
        } else {
            Ok(RecordView {
                transaction_type: p.transaction_type->0,
                client: p.client->0,
                tx: p.tx->0,
                amount: p.amount->0,
            })
        },
    }
}

/// The fields (trimmed of ASCII whitespace) that the `csv` crate reads from a
/// line as the first record, or `None` when it reports an error.
pub uninterp spec fn csv_record_fields(line: Seq<u8>) -> Option<Seq<Seq<u8>>>;

/// The ASCII whitespace of `u8::is_ascii_whitespace`: space, tab, line
/// feed, form feed and carriage return.
pub open spec fn is_ascii_white(b: u8) -> bool {
    b == 32u8 || b == 9u8 || b == 10u8 || b == 12u8 || b == 13u8
}

pub open spec fn trim_ascii_start(s: Seq<u8>) -> Seq<u8>
    decreases s.len(),
{
    if s.len() > 0 && is_ascii_white(s[0]) {
        trim_ascii_start(s.drop_first())
    } else {
        s
    }
}

pub open spec fn trim_ascii_end(s: Seq<u8>) -> Seq<u8>
    decreases s.len(),
{
    if s.len() > 0 && is_ascii_white(s.last()) {
        trim_ascii_end(s.drop_last())
    } else {
        s
    }
}

/// `s` without leading and trailing ASCII whitespace.
pub open spec fn trim_ascii(s: Seq<u8>) -> Seq<u8> {
    trim_ascii_start(trim_ascii_end(s))
}

/// The comma-separated pieces of a line of bytes.
pub open spec fn split_comma_bytes(s: Seq<u8>) -> Seq<Seq<u8>>
    decreases s.len(),
{
    if s.len() == 0 {
        seq![Seq::<u8>::empty()]
    } else {
        let f = split_comma_bytes(s.drop_last());
        if s.last() == 44u8 {
            f.push(Seq::<u8>::empty())
        } else {
            f.update(f.len() - 1, f.last().push(s.last()))
        }
    }
}

/// A line in which the `csv` reader finds nothing but fields separated by
/// commas: not empty, not starting with a UTF-8 byte-order mark, and
/// without quotes or line breaks.
pub open spec fn plain_line(s: Seq<u8>) -> bool {
    &&& s.len() > 0
    &&& !(s.len() >= 3 && s[0] == 0xEFu8 && s[1] == 0xBBu8 && s[2] == 0xBFu8)
    &&& forall|i: int| 0 <= i < s.len() ==> s[i] != 34u8 && s[i] != 13u8 && s[i] != 10u8
}

/// The fields of a plain line: its comma-separated pieces, trimmed.
pub open spec fn plain_fields(s: Seq<u8>) -> Seq<Seq<u8>> {
    split_comma_bytes(s).map_values(|f: Seq<u8>| trim_ascii(f))
}

/// Decodes one line against the header names.
pub open spec fn decode_line(line: Seq<u8>, headers: Seq<Seq<u8>>) -> Result<RecordView, RecordError> {
    match csv_record_fields(line) {
        None => Err(RecordError::Unreadable),
        Some(fields) => decode_fields(fields, headers),
    }
}

/// `r` is what decoding gave: the same record, or the same error.
pub open spec fn decoded_as(r: Result<Record, RecordError>, d: Result<RecordView, RecordError>) -> bool {
    match d {
        Ok(v) => r matches Ok(rec) && rec@ == v,
        Err(e) => r == Err::<Record, RecordError>(e),
    }
}

impl View for Record {
    type V = RecordView;

    open spec fn view(&self) -> RecordView {
        RecordView {
            transaction_type: self.transaction_type@,
            client: self.client,
            tx: self.tx,
            amount: self.amount@,
        }
    }
}


/// Calls the `csv` crate on one line: a reader without headers that trims
/// every field of ASCII whitespace, reading one byte record.
///
/// Claims that the fields are those the `csv` crate reads (named), or `None`
/// when it reports an error; and that a plain line (see `plain_line`) is
/// read as its comma-separated pieces, each trimmed of ASCII whitespace.
#[verifier::external_body]
fn read_csv_fields(line: &[u8]) -> (r: Option<Vec<Vec<u8>>>)
    ensures
        r is Some == csv_record_fields(line@) is Some,
        r matches Some(v) ==> v@.map_values(|f: Vec<u8>| f@) == csv_record_fields(line@)->0,
        plain_line(line@) ==> r is Some,
        r matches Some(v) ==> (plain_line(line@) ==> v@.map_values(|f: Vec<u8>| f@) == plain_fields(line@)),
{
    let mut reader = csv::ReaderBuilder::new().has_headers(false).trim(csv::Trim::All).from_reader(line);
    let mut record = csv::ByteRecord::new();
    match reader.read_byte_record(&mut record) {
        Ok(_) => Some(record.iter().map(|field| field.to_vec()).collect()),
        Err(_) => None,
    }
}

/// Calls `std::str::from_utf8` and copies the text into a `String`.
///
/// Claims what the standard library documents: the bytes are accepted exactly
/// when they are valid UTF-8, and the text is what they encode.
#[verifier::external_body]
pub(crate) fn text_from_utf8(bytes: &[u8]) -> (r: Option<String>)
    ensures
        r is Some == valid_utf8(bytes@),
        r matches Some(s) ==> s@ == decode_utf8(bytes@),
{
    match std::str::from_utf8(bytes) {
        Ok(s) => Some(s.to_string()),
        Err(_) => None,
    }
}

/// Whether `a` holds exactly the bytes of `b`.
pub fn bytes_equal(a: &[u8], b: &[u8]) -> (r: bool)
    ensures
        r == (a@ == b@),
{
    if a.len() != b.len() {
        return false;
    }
    let mut i: usize = 0;
    while i < a.len()
        invariant
            a@.len() == b@.len(),
            i <= a@.len(),
            forall|j: int| 0 <= j < i ==> a@[j] == b@[j],
        decreases a@.len() - i,
    {
        if a[i] != b[i] {
            return false;
        }
        i = i + 1;
    }
    assert(a@ =~= b@);
    true
}

fn column_of_name(name: &[u8]) -> (r: Column)
    ensures
        r == column_of(name@),
{
    let type_bytes: [u8; 4] = [116u8, 121u8, 112u8, 101u8];
    let client_bytes: [u8; 6] = [99u8, 108u8, 105u8, 101u8, 110u8, 116u8];
    let tx_bytes: [u8; 2] = [116u8, 120u8];
    let amount_bytes: [u8; 6] = [97u8, 109u8, 111u8, 117u8, 110u8, 116u8];
    assert(type_bytes@ =~= type_column_name());
    assert(client_bytes@ =~= client_column_name());
    assert(tx_bytes@ =~= tx_column_name());
    assert(amount_bytes@ =~= amount_column_name());
    if bytes_equal(name, type_bytes.as_slice()) {
        Column::TransactionType
    } else if bytes_equal(name, client_bytes.as_slice()) {
        Column::Client
    } else if bytes_equal(name, tx_bytes.as_slice()) {
        Column::Tx
    } else if bytes_equal(name, amount_bytes.as_slice()) {
        Column::Amount
    } else {
        Column::Other
    }
}

fn digit_of(b: u8, radix: u64) -> (r: Option<u64>)
    requires
        radix == 10 || radix == 16,
    ensures
        r matches Some(v) ==> digit_value(b, radix as nat) == Some(v as nat) && v < radix,
        r is None ==> digit_value(b, radix as nat) is None,
{
    if 48 <= b && b <= 57 {
        Some((b - 48) as u64)
    } else if radix == 16 && 97 <= b && b <= 102 {
        Some((b - 87) as u64)
    } else if radix == 16 && 65 <= b && b <= 70 {
        Some((b - 55) as u64)
    } else {
        None
    }
}

/// A string of digits with a value is at least as large as any of its prefixes.
proof fn lemma_prefix_value(s: Seq<u8>, radix: nat, k: int)
    requires
        radix >= 1,
        0 <= k <= s.len(),
        digits_value(s, radix) is Some,
    ensures
        digits_value(s.take(k), radix) is Some,
        digits_value(s.take(k), radix)->0 <= digits_value(s, radix)->0,
    decreases s.len(),
{
    if k == s.len() {
        assert(s.take(k) =~= s);
    } else {
        let t = s.drop_last();
        assert(s.take(k) =~= t.take(k));
        lemma_prefix_value(t, radix, k);
        let v = digits_value(t, radix)->0;
        let d = digit_value(s.last(), radix)->0;
        assert(v * radix + d >= v) by (nonlinear_arith)
            requires
                radix >= 1,
                v >= 0,
                d >= 0,
        ;
    }
}

/// Parses `s[start..]` as `from_str_radix` does for an unsigned type with
/// largest value `max`.
fn unsigned_at(s: &Vec<u8>, start: usize, radix: u64, max: u64) -> (r: Option<u64>)
    requires
        start <= s@.len(),
        radix == 10 || radix == 16,
        max <= u32::MAX,
    ensures
        r matches Some(v) ==> unsigned_from_text(s@.skip(start as int), radix as nat, max as nat)
            == Some(v as nat),
        r is None ==> unsigned_from_text(s@.skip(start as int), radix as nat, max as nat) is None,
{
    let ghost text = s@.skip(start as int);
    let len = s.len();
    let first: usize = if len - start > 1 && s[start] == 43u8 {
        start + 1
    } else {
        start
    };
    let ghost digits = s@.subrange(first as int, len as int);
    proof {
        if len - start > 1 && s@[start as int] == 43u8 {
            assert(text.skip(1) =~= digits);
        } else {
            assert(text =~= digits);
        }
    }
    if first == len {
        return None;
    }
    let mut acc: u64 = 0;
    let mut i: usize = first;
    while i < len
        invariant
            first <= i <= len == s@.len(),
            digits == s@.subrange(first as int, len as int),
            text == s@.skip(start as int),
            unsigned_from_text(text, radix as nat, max as nat) == (match digits_value(digits, radix as nat) {
                Some(v) => if v <= max {
                    Some(v)
                } else {
                    None
                },
                None => None,
            }),
            radix == 10 || radix == 16,
            max <= u32::MAX,
            acc <= max,
            digits_value(s@.subrange(first as int, i as int), radix as nat) == Some(acc as nat),
        decreases len - i,
    {
        let ghost before = s@.subrange(first as int, i as int);
        let ghost after = s@.subrange(first as int, i + 1);
        assert(after.drop_last() =~= before);
        match digit_of(s[i], radix) {
            None => {
                proof {
                    assert(digits_value(after, radix as nat) is None);
                    assert(digits.take(i + 1 - first) =~= after);
                    if digits_value(digits, radix as nat) is Some {
                        lemma_prefix_value(digits, radix as nat, i + 1 - first);
                    }
                }
                return None;
            },
            Some(d) => {
                let next = acc * radix + d;
                assert(digits_value(after, radix as nat) == Some(next as nat));
                if next > max {
                    proof {
                        assert(digits.take(i + 1 - first) =~= after);
                        if digits_value(digits, radix as nat) is Some {
                            lemma_prefix_value(digits, radix as nat, i + 1 - first);
                        }
                    }
                    return None;
                }
                acc = next;
            },
        }
        i = i + 1;
    }
    assert(s@.subrange(first as int, len as int) =~= digits);
    Some(acc)
}

/// Parses an unsigned number field (`0x` prefix for hexadecimal) whose largest value is `max`.
fn number_at(s: &Vec<u8>, max: u64) -> (r: Option<u64>)
    requires
        max <= u32::MAX,
    ensures
        r matches Some(v) ==> number_field(s@, max as nat) == Some(v as nat),
        r is None ==> number_field(s@, max as nat) is None,
{
    if s.len() >= 2 && s[0] == 48u8 && s[1] == 120u8 {
        unsigned_at(s, 2, 16, max)
    } else {
        assert(s@.skip(0) =~= s@);
        unsigned_at(s, 0, 10, max)
    }
}

pub open spec fn partial_of(
    t: Option<String>,
    c: Option<u16>,
    x: Option<u32>,
    a: Option<String>,
) -> Partial {
    Partial {
        transaction_type: match t {
            Some(s) => Some(s@),
            None => None,
        },
        client: c,
        tx: x,
        amount: match a {
            Some(s) => Some(s@),
            None => None,
        },
    }
}

impl Record {
    /// Decodes a row of trimmed fields, mapping them onto the record's fields
    /// by the header names.
    pub fn from_fields(fields: &Vec<Vec<u8>>, headers: &Vec<Vec<u8>>) -> (r: Result<Record, RecordError>)
        ensures
            decoded_as(
                r,
                decode_fields(fields@.map_values(|f: Vec<u8>| f@), headers@.map_values(|h: Vec<u8>| h@)),
            ),
    {
        let ghost fs = fields@.map_values(|f: Vec<u8>| f@);
        let ghost hs = headers@.map_values(|h: Vec<u8>| h@);
        let mut transaction_type: Option<String> = None;
        let mut client: Option<u16> = None;
        let mut tx: Option<u32> = None;
        let mut amount: Option<String> = None;
        let mut i: usize = 0;
        while i < headers.len()
            invariant
                i <= headers@.len(),
                fs == fields@.map_values(|f: Vec<u8>| f@),
                hs == headers@.map_values(|h: Vec<u8>| h@),
                decode_from(fs, hs, 0, empty_partial()) == decode_from(
                    fs,
                    hs,
                    i as nat,
                    partial_of(transaction_type, client, tx, amount),
                ),
            decreases headers@.len() - i,
        {
            let column = column_of_name(headers[i].as_slice());
            assert(hs[i as int] == headers@[i as int]@);
            match column {
                Column::TransactionType => {
                    if transaction_type.is_some() {
                        return Err(RecordError::DuplicateField);
                    }
                    if i >= fields.len() {
                        return Err(RecordError::UnexpectedEndOfRow);
                    }
                    assert(fs[i as int] == fields@[i as int]@);
                    match text_from_utf8(fields[i].as_slice()) {
                        None => {
                            return Err(RecordError::InvalidUtf8);
                        },
                        Some(text) => {
                            transaction_type = Some(text);
                        },
                    }
                },
                Column::Client => {
                    if client.is_some() {
                        return Err(RecordError::DuplicateField);
                    }
                    if i >= fields.len() {
                        return Err(RecordError::UnexpectedEndOfRow);
                    }
                    assert(fs[i as int] == fields@[i as int]@);
                    if text_from_utf8(fields[i].as_slice()).is_none() {
                        return Err(RecordError::InvalidUtf8);
                    }
                    match number_at(&fields[i], 65535) {
                        None => {
                            return Err(RecordError::InvalidInteger);
                        },
                        Some(v) => {
                            client = Some(v as u16);
                        },
                    }
                },
                Column::Tx => {
                    if tx.is_some() {
                        return Err(RecordError::DuplicateField);
                    }
                    if i >= fields.len() {
                        return Err(RecordError::UnexpectedEndOfRow);
                    }
                    assert(fs[i as int] == fields@[i as int]@);
                    if text_from_utf8(fields[i].as_slice()).is_none() {
                        return Err(RecordError::InvalidUtf8);
                    }
                    match number_at(&fields[i], 4294967295) {
                        None => {
                            return Err(RecordError::InvalidInteger);
                        },
                        Some(v) => {
                            tx = Some(v as u32);
                        },
                    }
                },
                Column::Amount => {
                    if amount.is_some() {
                        return Err(RecordError::DuplicateField);
                    }
                    if i >= fields.len() {
                        return Err(RecordError::UnexpectedEndOfRow);
                    }
                    assert(fs[i as int] == fields@[i as int]@);
                    match text_from_utf8(fields[i].as_slice()) {
                        None => {
                            return Err(RecordError::InvalidUtf8);
                        },
                        Some(text) => {
                            amount = Some(text);
                        },
                    }
                },
                Column::Other => {
                    if i >= fields.len() {
                        return Err(RecordError::UnexpectedEndOfRow);
                    }
                },
            }
            i = i + 1;
        }
        match (transaction_type, client, tx, amount) {
            (Some(transaction_type), Some(client), Some(tx), Some(amount)) => Ok(
                Record { transaction_type, client, tx, amount },
            ),
            _ => Err(RecordError::MissingField),
        }
    }

    /// Decodes the CSV record on `bytes` (one line, no header of its own),
    /// mapping its columns onto the record's fields by the names in `headers`,
    /// so that the columns may stand in any order.
    pub fn from_bytes(bytes: &[u8], headers: &Vec<Vec<u8>>) -> (r: Result<Record, RecordError>)
        ensures
            decoded_as(r, decode_line(bytes@, headers@.map_values(|h: Vec<u8>| h@))),
            plain_line(bytes@) ==> decoded_as(
                r,
                decode_fields(plain_fields(bytes@), headers@.map_values(|h: Vec<u8>| h@)),
            ),
    {
        match read_csv_fields(bytes) {
            None => Err(RecordError::Unreadable),
            Some(fields) => Record::from_fields(&fields, headers),
        }
    }
}

impl Record {
    /// The record as one comma-separated line: type, client, tx, amount.
    pub fn to_line(&self) -> (r: String)
        ensures
            r@ == self.transaction_type@ + ","@ + decimal_digits(self.client as nat) + ","@
                + decimal_digits(self.tx as nat) + ","@ + self.amount@,
    {
        let mut line = self.transaction_type.clone();
        line.append(",");
        let client = integer_text(self.client as u64);
        line.append(client.as_str());
        line.append(",");
        let tx = integer_text(self.tx as u64);
        line.append(tx.as_str());
        line.append(",");
        line.append(self.amount.as_str());
        line
    }
}

} // verus!
