//! Reading records straight out of a memory-mapped CSV file.
//!
//! The file is mapped read-write (by the caller, with `memmap2`), so that a
//! record can be marked in place; records are read, one line at a time, by
//! their byte offset, without re-parsing the whole file.

use crate::record::{decode_line, decoded_as, Record, RecordError};
use memmap2::MmapMut;
use vstd::prelude::*;
use vstd::string::{StrSliceExecFns, StringExecFns};
use vstd::utf8::{decode_utf8, valid_utf8};

verus! {

/// A mutable memory map of a file.
#[verifier::external_type_specification]
#[verifier::external_body]
pub struct ExMmapMut(MmapMut);

/// The bytes of a mapping, as the mapping shows them.
pub uninterp spec fn mapped_bytes(m: MmapMut) -> Seq<u8>;

/// Calls `len` on the mapping (through its `Deref` to `[u8]`).
///
/// Claims the length of its bytes, which as for any slice is at most `isize::MAX`.
#[verifier::external_body]
pub(crate) fn mapping_len(m: &MmapMut) -> (r: usize)
    ensures
        r == mapped_bytes(*m).len(),
        r <= isize::MAX,
{
    m.len()
}

/// Indexes the mapping (through its `Deref` to `[u8]`).
///
/// Claims the byte at that position.
#[verifier::external_body]
pub(crate) fn mapping_byte(m: &MmapMut, i: usize) -> (r: u8)
    requires
        i < mapped_bytes(*m).len(),
    ensures
        r == mapped_bytes(*m)[i as int],
{
    m[i]
}

/// Copies `m[start..end]` (through the mapping's `Deref` to `[u8]`).
///
/// Claims the bytes of that range.
#[verifier::external_body]
fn mapping_copy(m: &MmapMut, start: usize, end: usize) -> (r: Vec<u8>)
    requires
        start <= end <= mapped_bytes(*m).len(),
    ensures
        r@ == mapped_bytes(*m).subrange(start as int, end as int),
{
    m[start..end].to_vec()
}

/// Writes one byte into the mapping (through its `DerefMut` to `[u8]`).
///
/// Claims that exactly that byte changes.
#[verifier::external_body]
pub(crate) fn mapping_set_byte(m: &mut MmapMut, i: usize, value: u8)
    requires
        i < mapped_bytes(*old(m)).len(),
    ensures
        mapped_bytes(*final(m)) == mapped_bytes(*old(m)).update(i as int, value),
    no_unwind
{
    m[i] = value;
}

/// The text that `String::from_utf8_lossy` makes of the bytes.
pub uninterp spec fn utf8_lossy(bytes: Seq<u8>) -> Seq<char>;

/// Calls `String::from_utf8_lossy` and takes the text as an owned string.
///
/// Claims the text `from_utf8_lossy` makes (named), and, as documented, that
/// valid UTF-8 is decoded unchanged.
#[verifier::external_body]
fn lossy_text(bytes: &[u8]) -> (r: String)
    ensures
        r@ == utf8_lossy(bytes@),
        valid_utf8(bytes@) ==> r@ == decode_utf8(bytes@),
{
    String::from_utf8_lossy(bytes).into_owned()
}

/// The characters of `s`, in order.
fn chars_of(s: &str) -> (r: Vec<char>)
    ensures
        r@ == s@,
{
    broadcast use vstd::string::group_string_axioms;

    let mut out: Vec<char> = Vec::new();
    for c in it: s.chars()
        invariant
            out@.len() == it.index(),
            forall|i: int| 0 <= i < it.index() ==> out@[i] == it.seq()[i],
            it.seq() == s@,
    {
        out.push(c);
    }
    assert(out@ =~= s@);
    out
}

/// The position of the first `\n` at or after `offset`, or the length.
pub open spec fn line_end(bytes: Seq<u8>, offset: int) -> int
    decreases bytes.len() - offset,
{
    if offset >= bytes.len() || offset < 0 {
        bytes.len() as int
    } else if bytes[offset] == 10u8 {
        offset
    } else {
        line_end(bytes, offset + 1)
    }
}

/// The end of a line's content: before a `\r` that ends it, if any.
pub open spec fn content_end(bytes: Seq<u8>, offset: int, eol: int) -> int {
    if eol > offset && bytes[eol - 1] == 13u8 {
        eol - 1
    } else {
        eol
    }
}

/// For a line starting at `offset`: the end of its content and the offset
/// just past its `\n`; `None` when `offset` lies past the end.
pub open spec fn line_span(bytes: Seq<u8>, offset: int) -> Option<(int, int)> {
    if offset > bytes.len() || offset < 0 {
        None
    } else {
        let e = line_end(bytes, offset);
        Some((content_end(bytes, offset, e), e + 1))
    }
}

/// What `line_span` gives, stated directly: nothing past the end; otherwise,
/// with `e` the first line feed at or after `offset` (the length if none),
/// the line's content ends at `e`, or just before a carriage return at
/// `e - 1`, and the next line starts at `e + 1`.
pub proof fn law_line_span(bytes: Seq<u8>, offset: int)
    ensures
        line_span(bytes, offset) is None <==> (offset < 0 || offset > bytes.len()),
        line_span(bytes, offset) matches Some((end, next)) ==> {
            let e = next - 1;
            &&& offset <= e <= bytes.len()
            &&& (e == bytes.len() || bytes[e] == 10u8)
            &&& forall|j: int| offset <= j < e ==> bytes[j] != 10u8
            &&& if e > offset && bytes[e - 1] == 13u8 {
                end == e - 1
            } else {
                end == e
            }
        },
{
    if 0 <= offset <= bytes.len() {
        lemma_line_end(bytes, offset);
    }
}

proof fn lemma_line_end(bytes: Seq<u8>, offset: int)
    requires
        0 <= offset <= bytes.len(),
    ensures
        offset <= line_end(bytes, offset) <= bytes.len(),
        line_end(bytes, offset) == bytes.len() || bytes[line_end(bytes, offset)] == 10u8,
        forall|j: int| offset <= j < line_end(bytes, offset) ==> bytes[j] != 10u8,
    decreases bytes.len() - offset,
{
    if offset < bytes.len() && bytes[offset] != 10u8 {
        lemma_line_end(bytes, offset + 1);
    }
}

/// The offset of the first non-blank line at or after `offset`, if any.
pub open spec fn next_line_start(bytes: Seq<u8>, offset: int) -> Option<int>
    decreases bytes.len() + 1 - offset,
{
    match line_span(bytes, offset) {
        None => None,
        Some((end, next)) => if end == offset {
            next_line_start(bytes, next)
        } else {
            Some(offset)
        },
    }
}

/// The whitespace that `str::trim` removes: the Unicode White_Space property.
pub open spec fn is_white_space(c: char) -> bool {
    let u = c as u32;
    ||| 9 <= u <= 13
    ||| u == 32
    ||| u == 0x85
    ||| u == 0xA0
    ||| u == 0x1680
    ||| 0x2000 <= u <= 0x200A
    ||| u == 0x2028
    ||| u == 0x2029
    ||| u == 0x202F
    ||| u == 0x205F
    ||| u == 0x3000
}

pub open spec fn trim_start(s: Seq<char>) -> Seq<char>
    decreases s.len(),
{
    if s.len() > 0 && is_white_space(s[0]) {
        trim_start(s.drop_first())
    } else {
        s
    }
}

pub open spec fn trim_end(s: Seq<char>) -> Seq<char>
    decreases s.len(),
{
    if s.len() > 0 && is_white_space(s.last()) {
        trim_end(s.drop_last())
    } else {
        s
    }
}

/// `s` without leading and trailing whitespace, as `str::trim` gives it.
pub open spec fn trim(s: Seq<char>) -> Seq<char> {
    trim_end(trim_start(s))
}

/// The comma-separated pieces of `s`, as `str::split(',')` gives them.
pub open spec fn split_commas(s: Seq<char>) -> Seq<Seq<char>>
    decreases s.len(),
{
    if s.len() == 0 {
        seq![Seq::<char>::empty()]
    } else {
        let f = split_commas(s.drop_last());
        if s.last() == ',' {
            f.push(Seq::<char>::empty())
        } else {
            f.update(f.len() - 1, f.last().push(s.last()))
        }
    }
}

/// The header's column names: the line decoded (lossily), split on commas, trimmed.
pub open spec fn header_columns(line: Seq<u8>) -> Seq<Seq<char>> {
    split_commas(utf8_lossy(line)).map_values(|c: Seq<char>| trim(c))
}

/// The four column names.
pub open spec fn column_names() -> Seq<Seq<char>> {
    seq!["type"@, "client"@, "tx"@, "amount"@]
}

/// The columns are the four names, each exactly once, in any order.
pub open spec fn is_expected_header(columns: Seq<Seq<char>>) -> bool {
    &&& columns.len() == 4
    &&& forall|i: int| 0 <= i < 4 ==> column_names().contains(#[trigger] columns[i])
    &&& forall|i: int, j: int| 0 <= i < j < 4 ==> columns[i] != columns[j]
}

/// The bytes of an ASCII text.
pub open spec fn ascii_bytes(s: Seq<char>) -> Seq<u8> {
    s.map_values(|c: char| c as u8)
}

/// Counting commas from index `i`: the position just after the `n`-th one (`n >= 1`).
pub open spec fn after_nth_comma(line: Seq<u8>, n: nat, i: int) -> Option<int>
    decreases line.len() - i,
{
    if i >= line.len() || i < 0 {
        None
    } else if line[i] == 44u8 {
        if n <= 1 {
            Some(i + 1)
        } else {
            after_nth_comma(line, (n - 1) as nat, i + 1)
        }
    } else {
        after_nth_comma(line, n, i + 1)
    }
}

/// Where the `n`-th comma-separated field of `line` begins, if it has that many fields.
pub open spec fn field_start(line: Seq<u8>, n: nat) -> Option<int> {
    if n == 0 {
        Some(0)
    } else {
        after_nth_comma(line, n, 0)
    }
}

proof fn lemma_after_nth_comma_bounds(line: Seq<u8>, n: nat, i: int)
    requires
        0 <= i,
    ensures
        after_nth_comma(line, n, i) matches Some(a) ==> i < a <= line.len(),
    decreases line.len() - i,
{
    if i < line.len() {
        lemma_after_nth_comma_bounds(line, (n - 1) as nat, i + 1);
        lemma_after_nth_comma_bounds(line, n, i + 1);
    }
}

/// One more comma lies further on, if at all.
proof fn lemma_after_nth_comma_next(line: Seq<u8>, n: nat, i: int)
    requires
        0 <= i,
        n >= 1,
    ensures
        after_nth_comma(line, n, i) is None ==> after_nth_comma(line, n + 1, i) is None,
        after_nth_comma(line, n + 1, i) matches Some(b) ==> (after_nth_comma(line, n, i) matches Some(
            a,
        ) && a < b),
    decreases line.len() - i,
{
    if i < line.len() {
        if line[i] == 44u8 {
            if n == 1 {
                lemma_after_nth_comma_bounds(line, 1, i + 1);
            } else {
                lemma_after_nth_comma_next(line, (n - 1) as nat, i + 1);
            }
        } else {
            lemma_after_nth_comma_next(line, n, i + 1);
        }
    }
}

/// Fields start further on the later they come: a line without field `i`
/// has no later field, and field `i` starts before field `j > i`.
pub proof fn law_field_start_monotone(line: Seq<u8>, i: nat, j: nat)
    requires
        i < j,
    ensures
        field_start(line, i) is None ==> field_start(line, j) is None,
        field_start(line, j) matches Some(b) ==> (field_start(line, i) matches Some(a) && a < b),
    decreases j - i,
{
    if j == i + 1 {
        if i == 0 {
            lemma_after_nth_comma_bounds(line, 1, 0);
        } else {
            lemma_after_nth_comma_next(line, i, 0);
        }
    } else {
        law_field_start_monotone(line, i, (j - 1) as nat);
        law_field_start_monotone(line, (j - 1) as nat, j);
    }
}

proof fn lemma_after_nth_comma_extend(line: Seq<u8>, suffix: Seq<u8>, n: nat, i: int)
    requires
        0 <= i,
    ensures
        after_nth_comma(line, n, i) matches Some(a) ==> after_nth_comma(line + suffix, n, i) == Some(
            a,
        ),
    decreases line.len() - i,
{
    if i < line.len() {
        assert((line + suffix)[i] == line[i]);
        lemma_after_nth_comma_extend(line, suffix, (n - 1) as nat, i + 1);
        lemma_after_nth_comma_extend(line, suffix, n, i + 1);
    }
}

/// A field found in a line starts at the same place when more bytes follow.
pub proof fn law_field_start_prefix(line: Seq<u8>, suffix: Seq<u8>, n: nat)
    ensures
        field_start(line, n) matches Some(a) ==> field_start(line + suffix, n) == Some(a),
{
    lemma_after_nth_comma_extend(line, suffix, n, 0);
}

/// The position of the first `type` name among `headers[i..]`.
pub open spec fn type_column_from(headers: Seq<Seq<u8>>, i: int) -> Option<int>
    decreases headers.len() - i,
{
    if i >= headers.len() || i < 0 {
        None
    } else if headers[i] == crate::record::type_column_name() {
        Some(i)
    } else {
        type_column_from(headers, i + 1)
    }
}

pub proof fn lemma_type_column_from_bounds(headers: Seq<Seq<u8>>, i: int)
    requires
        0 <= i,
    ensures
        type_column_from(headers, i) matches Some(k) ==> i <= k < headers.len(),
    decreases headers.len() - i,
{
    if i < headers.len() && headers[i] != crate::record::type_column_name() {
        lemma_type_column_from_bounds(headers, i + 1);
    }
}

/// The position of the first `type` column among the header names.
pub open spec fn type_column(headers: Seq<Seq<u8>>) -> Option<int> {
    type_column_from(headers, 0)
}

/// Why a mapped file is not a transaction file.
#[derive(Debug)]
pub enum HeaderError {
    /// The file has no line break, so no header row.
    MissingHeaderRow,
    /// The header row is not the four columns `type`, `client`, `tx`, `amount`; holds the row's text.
    UnexpectedColumns(String),
}

impl HeaderError {
    /// The error's message.
    pub fn message(&self) -> (r: String)
        ensures
            match self {
                HeaderError::MissingHeaderRow => r@ == "missing header row"@,
                HeaderError::UnexpectedColumns(h) => r@ == "unexpected header columns: '"@ + h@
                    + "'"@,
            },
    {
        match self {
            HeaderError::MissingHeaderRow => String::from_str("missing header row"),
            HeaderError::UnexpectedColumns(h) => {
                let mut m = String::from_str("unexpected header columns: '");
                m.append(h.as_str());
                m.append("'");
                m
            },
        }
    }
}

/// A memory-mapped CSV transaction file, read record by record.
pub struct MmapRecordParser {
    mmap: MmapMut,
    headers: Vec<Vec<u8>>,
    first_record_offset: usize,
    next_offset: usize,
}

/// The abstract state of a parser.
pub struct ParserView {
    /// The bytes of the mapped file.
    pub bytes: Seq<u8>,
    /// The header's column names, in the file's own order.
    pub headers: Seq<Seq<u8>>,
    /// Where the first data record starts, just past the header line.
    pub first_record_offset: int,
    /// Where the next call of `next_record` starts looking.
    pub next_offset: int,
}

impl View for MmapRecordParser {
    type V = ParserView;

    closed spec fn view(&self) -> ParserView {
        ParserView {
            bytes: mapped_bytes(self.mmap),
            headers: self.headers@.map_values(|h: Vec<u8>| h@),
            first_record_offset: self.first_record_offset as int,
            next_offset: self.next_offset as int,
        }
    }
}

/// A parser's offsets are offsets: not negative.
pub proof fn lemma_parser_offset(p: &MmapRecordParser)
    ensures
        0 <= p@.next_offset,
        0 <= p@.first_record_offset,
{
}

impl MmapRecordParser {
    #[verifier::type_invariant]
    spec fn inv(self) -> bool {
        &&& mapped_bytes(self.mmap).len() <= isize::MAX
        &&& self.next_offset <= mapped_bytes(self.mmap).len() + 1
    }
}

/// Finds the end of the line that starts at `offset`.
fn find_line_end(m: &MmapMut, offset: usize) -> (r: usize)
    requires
        offset <= mapped_bytes(*m).len(),
    ensures
        r == line_end(mapped_bytes(*m), offset as int),
        offset <= r <= mapped_bytes(*m).len(),
{
    let len = mapping_len(m);
    let mut i = offset;
    while i < len
        invariant
            offset <= i <= len == mapped_bytes(*m).len(),
            line_end(mapped_bytes(*m), offset as int) == line_end(mapped_bytes(*m), i as int),
        decreases len - i,
    {
        if mapping_byte(m, i) == 10u8 {
            return i;
        }
        i = i + 1;
    }
    i
}

/// The line at `offset`: the end of its content and the offset past it.
fn line_at(m: &MmapMut, offset: usize) -> (r: Option<(usize, usize)>)
    requires
        mapped_bytes(*m).len() <= isize::MAX,
    ensures
        match line_span(mapped_bytes(*m), offset as int) {
            None => r is None,
            Some((end, next)) => r matches Some((e, n)) && e == end && n == next,
        },
        r matches Some((e, n)) ==> offset <= e < n <= mapped_bytes(*m).len() + 1,
{
    let len = mapping_len(m);
    if offset > len {
        return None;
    }
    let eol = find_line_end(m, offset);
    let end = if eol > offset && mapping_byte(m, eol - 1) == 13u8 {
        eol - 1
    } else {
        eol
    };
    Some((end, eol + 1))
}

fn white_space(c: char) -> (r: bool)
    ensures
        r == is_white_space(c),
{
    let u = c as u32;
    (9 <= u && u <= 13) || u == 32 || u == 0x85 || u == 0xA0 || u == 0x1680 || (0x2000 <= u && u
        <= 0x200A) || u == 0x2028 || u == 0x2029 || u == 0x202F || u == 0x205F || u == 0x3000
}

/// `s` without leading and trailing whitespace.
fn trim_chars(s: &Vec<char>) -> (r: Vec<char>)
    ensures
        r@ == trim(s@),
{
    let len = s.len();
    let mut i: usize = 0;
    assert(s@.subrange(0, len as int) =~= s@);
    while i < len && white_space(s[i])
        invariant
            i <= len == s@.len(),
            trim_start(s@) == trim_start(s@.subrange(i as int, len as int)),
        decreases len - i,
    {
        assert(s@.subrange(i as int, len as int).drop_first() =~= s@.subrange(i + 1, len as int));
        i = i + 1;
    }
    assert(trim_start(s@.subrange(i as int, len as int)) == s@.subrange(i as int, len as int));
    let mut j: usize = len;
    while j > i && white_space(s[j - 1])
        invariant
            i <= j <= len == s@.len(),
            trim_start(s@) == s@.subrange(i as int, len as int),
            trim_end(s@.subrange(i as int, len as int)) == trim_end(s@.subrange(i as int, j as int)),
        decreases j - i,
    {
        assert(s@.subrange(i as int, j as int).drop_last() =~= s@.subrange(i as int, j - 1));
        j = j - 1;
    }
    assert(trim_end(s@.subrange(i as int, j as int)) == s@.subrange(i as int, j as int));
    let mut out: Vec<char> = Vec::new();
    let mut k: usize = i;
    while k < j
        invariant
            i <= k <= j <= len == s@.len(),
            out@ == s@.subrange(i as int, k as int),
        decreases j - k,
    {
        out.push(s[k]);
        assert(out@ =~= s@.subrange(i as int, k + 1));
        k = k + 1;
    }
    out
}

/// The comma-separated pieces of `s`.
fn split_on_commas(s: &Vec<char>) -> (r: Vec<Vec<char>>)
    ensures
        r@.map_values(|p: Vec<char>| p@) == split_commas(s@),
{
    let mut done: Vec<Vec<char>> = Vec::new();
    let mut current: Vec<char> = Vec::new();
    let mut i: usize = 0;
    assert(s@.take(0) =~= Seq::<char>::empty());
    assert(done@.map_values(|p: Vec<char>| p@).push(current@) =~= split_commas(s@.take(0)));
    while i < s.len()
        invariant
            i <= s@.len(),
            done@.map_values(|p: Vec<char>| p@).push(current@) == split_commas(s@.take(i as int)),
        decreases s@.len() - i,
    {
        let c = s[i];
        let ghost before = s@.take(i as int);
        assert(s@.take(i + 1).drop_last() =~= before);
        assert(s@.take(i + 1).last() == c);
        if c == ',' {
            let finished = current;
            done.push(finished);
            current = Vec::new();
            assert(done@.map_values(|p: Vec<char>| p@).push(current@) =~= split_commas(before).push(
                Seq::<char>::empty(),
            ));
        } else {
            current.push(c);
            let ghost f = split_commas(before);
            assert(done@.map_values(|p: Vec<char>| p@).push(current@) =~= f.update(
                f.len() - 1,
                f.last().push(c),
            ));
        }
        i = i + 1;
    }
    assert(s@.take(s@.len() as int) =~= s@);
    done.push(current);
    done
}

/// Which of the four column names `column` is, by position in `column_names()`.
fn name_index(column: &Vec<char>) -> (r: Option<usize>)
    ensures
        r matches Some(k) ==> k < 4 && column@ == column_names()[k as int],
        r is None ==> !column_names().contains(column@),
{
    let names: [&str; 4] = ["type", "client", "tx", "amount"];
    proof {
        reveal_strlit("type");
        reveal_strlit("client");
        reveal_strlit("tx");
        reveal_strlit("amount");
    }
    let mut k: usize = 0;
    while k < 4
        invariant
            k <= 4,
            forall|m: int| 0 <= m < 4 ==> names@[m]@ == #[trigger] column_names()[m],
            forall|m: int| 0 <= m < k ==> column@ != #[trigger] column_names()[m],
        decreases 4 - k,
    {
        if chars_equal_text(column, names[k]) {
            return Some(k);
        }
        k = k + 1;
    }
    proof {
        if column_names().contains(column@) {
            let m = choose|m: int| 0 <= m < 4 && column_names()[m] == column@;
            assert(column@ != column_names()[m]);
        }
    }
    None
}

/// Whether the characters of `v` are those of `t`.
fn chars_equal_text(v: &Vec<char>, t: &str) -> (r: bool)
    ensures
        r == (v@ == t@),
{
    let n = t.unicode_len();
    if v.len() != n {
        return false;
    }
    let mut i: usize = 0;
    while i < n
        invariant
            n == t@.len() == v@.len(),
            i <= n,
            forall|j: int| 0 <= j < i ==> v@[j] == t@[j],
        decreases n - i,
    {
        if v[i] != t.get_char(i) {
            return false;
        }
        i = i + 1;
    }
    assert(v@ =~= t@);
    true
}

/// The bytes of an ASCII text.
fn ascii_of(s: &Vec<char>) -> (r: Vec<u8>)
    ensures
        r@ == ascii_bytes(s@),
{
    let mut out: Vec<u8> = Vec::new();
    let mut i: usize = 0;
    while i < s.len()
        invariant
            i <= s@.len(),
            out@ == ascii_bytes(s@.take(i as int)),
        decreases s@.len() - i,
    {
        out.push(s[i] as u8);
        assert(out@ =~= ascii_bytes(s@.take(i + 1)));
        i = i + 1;
    }
    assert(s@.take(s@.len() as int) =~= s@);
    out
}

/// Whether the columns are the four names, each exactly once.
fn expected_header(columns: &Vec<Vec<char>>) -> (r: bool)
    ensures
        r == is_expected_header(columns@.map_values(|c: Vec<char>| c@)),
{
    let ghost cs = columns@.map_values(|c: Vec<char>| c@);
    if columns.len() != 4 {
        return false;
    }
    let mut indices: Vec<usize> = Vec::new();
    let mut i: usize = 0;
    while i < 4
        invariant
            i <= 4,
            columns@.len() == 4,
            cs == columns@.map_values(|c: Vec<char>| c@),
            indices@.len() == i,
            forall|m: int| 0 <= m < i ==> indices@[m] < 4 && cs[m] == column_names()[#[trigger] indices@[m] as int],
        decreases 4 - i,
    {
        match name_index(&columns[i]) {
            None => {
                assert(cs[i as int] == columns@[i as int]@);
                assert(!column_names().contains(cs[i as int]));
                return false;
            },
            Some(k) => {
                indices.push(k);
            },
        }
        i = i + 1;
    }
    proof {
        reveal_strlit("type");
        reveal_strlit("client");
        reveal_strlit("tx");
        reveal_strlit("amount");
        assert(forall|a: int, b: int| 0 <= a < b < 4 ==> column_names()[a] != column_names()[b]) by {
            assert(column_names()[0].len() == 4);
            assert(column_names()[1].len() == 6);
            assert(column_names()[2].len() == 2);
            assert(column_names()[3].len() == 6);
            assert(column_names()[1][0] != column_names()[3][0]);
        }
        assert forall|m: int| 0 <= m < 4 implies column_names().contains(#[trigger] cs[m]) by {
            assert(cs[m] == column_names()[indices@[m] as int]);
        }
    }
    let distinct = indices[0] != indices[1] && indices[0] != indices[2] && indices[0] != indices[3]
        && indices[1] != indices[2] && indices[1] != indices[3] && indices[2] != indices[3];
    proof {
        assert(cs[0] == column_names()[indices@[0] as int]);
        assert(cs[1] == column_names()[indices@[1] as int]);
        assert(cs[2] == column_names()[indices@[2] as int]);
        assert(cs[3] == column_names()[indices@[3] as int]);
    }
    distinct
}

/// The number of commas in `s`.
pub open spec fn comma_count(s: Seq<u8>) -> nat
    decreases s.len(),
{
    if s.len() == 0 {
        0
    } else if s.last() == 44u8 {
        comma_count(s.drop_last()) + 1
    } else {
        comma_count(s.drop_last())
    }
}

/// A prefix holds no more commas than the whole.
proof fn lemma_comma_count_prefix(s: Seq<u8>, k: int)
    requires
        0 <= k <= s.len(),
    ensures
        comma_count(s.take(k)) <= comma_count(s),
    decreases s.len(),
{
    if k < s.len() {
        assert(s.drop_last().take(k) =~= s.take(k));
        lemma_comma_count_prefix(s.drop_last(), k);
    } else {
        assert(s.take(k) =~= s);
    }
}

/// Returns the offset (relative to `line`) where the `field_index`-th
/// comma-separated field begins, or `None` if `line` has fewer fields: field
/// 0 begins at 0, and field `n > 0` just after the `n`-th comma.
pub fn field_start_offset(line: &[u8], field_index: usize) -> (r: Option<usize>)
    ensures
        match field_start(line@, field_index as nat) {
            Some(f) => r matches Some(v) && v as int == f,
            None => r is None,
        },
        field_index == 0 ==> r == Some(0usize),
        field_index > 0 ==> (r is None <==> comma_count(line@) < field_index),
        field_index > 0 ==> (r matches Some(v) ==> 0 < v <= line@.len() && line@[v - 1] == 44u8
            && comma_count(line@.take(v - 1)) == field_index - 1),
{
    if field_index == 0 {
        return Some(0);
    }
    let mut fields_seen: usize = 0;
    let mut i: usize = 0;
    assert(line@.take(0) =~= Seq::<u8>::empty());
    while i < line.len()
        invariant
            0 < field_index,
            fields_seen < field_index,
            i <= line@.len(),
            fields_seen == comma_count(line@.take(i as int)),
            after_nth_comma(line@, field_index as nat, 0) == after_nth_comma(
                line@,
                (field_index - fields_seen) as nat,
                i as int,
            ),
        decreases line@.len() - i,
    {
        assert(line@.take(i + 1).drop_last() =~= line@.take(i as int));
        if line[i] == 44u8 {
            fields_seen = fields_seen + 1;
            if fields_seen == field_index {
                proof {
                    lemma_comma_count_prefix(line@, i + 1);
                }
                return Some(i + 1);
            }
        }
        i = i + 1;
    }
    assert(line@.take(line@.len() as int) =~= line@);
    None
}

/// The header's line, for a file whose first line ends at `eol`.
pub open spec fn header_line(bytes: Seq<u8>) -> Seq<u8> {
    bytes.subrange(0, content_end(bytes, 0, line_end(bytes, 0)))
}

impl MmapRecordParser {
    /// Takes a read-write mapping of a file and validates that its first line
    /// is a header row holding exactly the columns `type`, `client`, `tx` and
    /// `amount`, in any order (each name trimmed of whitespace).
    pub fn new(mmap: MmapMut) -> (r: Result<MmapRecordParser, HeaderError>)
        ensures
            line_end(mapped_bytes(mmap), 0) == mapped_bytes(mmap).len() ==> r matches Err(
                HeaderError::MissingHeaderRow,
            ),
            line_end(mapped_bytes(mmap), 0) < mapped_bytes(mmap).len() ==> {
                let columns = header_columns(header_line(mapped_bytes(mmap)));
                if is_expected_header(columns) {
                    r matches Ok(p) && p@.bytes == mapped_bytes(mmap) && p@.headers
                        == columns.map_values(|c: Seq<char>| ascii_bytes(c))
                        && p@.first_record_offset == line_end(mapped_bytes(mmap), 0) + 1
                        && p@.next_offset == p@.first_record_offset
                } else {
                    r matches Err(HeaderError::UnexpectedColumns(h)) && h@ == utf8_lossy(
                        header_line(mapped_bytes(mmap)),
                    )
                }
            },
            line_end(mapped_bytes(mmap), 0) < mapped_bytes(mmap).len() && valid_utf8(
                header_line(mapped_bytes(mmap)),
            ) ==> utf8_lossy(header_line(mapped_bytes(mmap))) == decode_utf8(
                header_line(mapped_bytes(mmap)),
            ),
    {
        let ghost bytes = mapped_bytes(mmap);
        let len = mapping_len(&mmap);
        let eol = find_line_end(&mmap, 0);
        if eol == len {
            return Err(HeaderError::MissingHeaderRow);
        }
        let end = if eol > 0 && mapping_byte(&mmap, eol - 1) == 13u8 {
            eol - 1
        } else {
            eol
        };
        let line = mapping_copy(&mmap, 0, end);
        assert(line@ == header_line(bytes));
        let header = lossy_text(line.as_slice());
        let text = chars_of(header.as_str());
        let pieces = split_on_commas(&text);
        let mut columns: Vec<Vec<char>> = Vec::new();
        let mut i: usize = 0;
        while i < pieces.len()
            invariant
                i <= pieces@.len(),
                columns@.len() == i,
                forall|m: int| 0 <= m < i ==> #[trigger] columns@[m]@ == trim(pieces@[m]@),
            decreases pieces@.len() - i,
        {
            columns.push(trim_chars(&pieces[i]));
            i = i + 1;
        }
        let ghost cs = columns@.map_values(|c: Vec<char>| c@);
        assert(cs =~= header_columns(line@)) by {
            assert(pieces@.map_values(|p: Vec<char>| p@) == split_commas(text@));
            assert forall|m: int| 0 <= m < cs.len() implies cs[m] == header_columns(line@)[m] by {
                assert(pieces@.map_values(|p: Vec<char>| p@)[m] == pieces@[m]@);
            }
        }
        if !expected_header(&columns) {
            return Err(HeaderError::UnexpectedColumns(header));
        }
        let mut headers: Vec<Vec<u8>> = Vec::new();
        let mut k: usize = 0;
        while k < columns.len()
            invariant
                k <= columns@.len(),
                headers@.len() == k,
                forall|m: int| 0 <= m < k ==> #[trigger] headers@[m]@ == ascii_bytes(columns@[m]@),
            decreases columns@.len() - k,
        {
            headers.push(ascii_of(&columns[k]));
            k = k + 1;
        }
        assert(headers@.map_values(|h: Vec<u8>| h@) =~= cs.map_values(|c: Seq<char>| ascii_bytes(c)));
        Ok(MmapRecordParser { mmap, headers, first_record_offset: eol + 1, next_offset: eol + 1 })
    }

    /// Byte offset where the first data record starts.
    pub fn first_record_offset(&self) -> (r: usize)
        ensures
            r == self@.first_record_offset,
    {
        self.first_record_offset
    }

    /// Tries to read the CSV record starting at `offset`. Returns `None` if
    /// `offset` falls outside the mapped file; otherwise `Some` carries the
    /// decoding of the line found there.
    pub fn try_read_record(&self, offset: usize) -> (r: Option<Result<Record, RecordError>>)
        ensures
            match line_span(self@.bytes, offset as int) {
                None => r is None,
                Some((end, _)) => r matches Some(res) && decoded_as(
                    res,
                    decode_line(self@.bytes.subrange(offset as int, end), self@.headers),
                ),
            },
    {
        proof {
            use_type_invariant(self);
        }
        match line_at(&self.mmap, offset) {
            None => None,
            Some((end, _)) => {
                let line = mapping_copy(&self.mmap, offset, end);
                Some(Record::from_bytes(line.as_slice(), &self.headers))
            },
        }
    }

    /// The position of the first `type` column.
    fn type_index(&self) -> (r: Option<usize>)
        ensures
            match type_column(self@.headers) {
                Some(i) => r matches Some(j) && j as int == i,
                None => r is None,
            },
    {
        proof {
            lemma_type_column_from_bounds(self@.headers, 0);
        }
        let type_bytes: [u8; 4] = [116u8, 121u8, 112u8, 101u8];
        assert(type_bytes@ =~= crate::record::type_column_name());
        let mut i: usize = 0;
        while i < self.headers.len()
            invariant
                i <= self.headers@.len(),
                type_bytes@ == crate::record::type_column_name(),
                type_column(self@.headers) == type_column_from(self@.headers, i as int),
                self@.headers == self.headers@.map_values(|h: Vec<u8>| h@),
            decreases self.headers@.len() - i,
        {
            if crate::record::bytes_equal(self.headers[i].as_slice(), type_bytes.as_slice()) {
                return Some(i);
            }
            i = i + 1;
        }
        None
    }

    /// Overwrites the first byte of the `type` column's cell for the record
    /// starting at `offset` with `value`, changing the mapped file directly.
    /// Returns `false` without writing anything if `offset` is out of bounds
    /// or the `type` cell is empty.
    pub fn set_type_first_byte(&mut self, offset: usize, value: u8) -> (r: bool)
        ensures
            final(self)@.headers == old(self)@.headers,
            final(self)@.first_record_offset == old(self)@.first_record_offset,
            final(self)@.next_offset == old(self)@.next_offset,
            type_field_offset(old(self)@, offset as int) matches Some(f) ==> r && final(self)@.bytes
                == old(self)@.bytes.update(offset + f, value),
            type_field_offset(old(self)@, offset as int) is None ==> !r && final(self)@.bytes
                == old(self)@.bytes,
    {
        proof {
            use_type_invariant(&*self);
        }
        let type_index = match self.type_index() {
            Some(i) => i,
            None => {
                return false;
            },
        };
        let end = match line_at(&self.mmap, offset) {
            Some((end, _)) => end,
            None => {
                return false;
            },
        };
        let line = mapping_copy(&self.mmap, offset, end);
        let field_offset = match field_start_offset(line.as_slice(), type_index) {
            Some(f) => f,
            None => {
                return false;
            },
        };
        if field_offset >= line.len() || line[field_offset] == 44u8 {
            return false;
        }
        mapping_set_byte(&mut self.mmap, offset + field_offset, value);
        true
    }

    /// Returns the next record and the offset it was read from, advancing
    /// past it, or `None` once the end of the file is reached. Blank lines
    /// (including a trailing one left by a final newline) are skipped.
    pub fn next_record(&mut self) -> (r: Option<(usize, Result<Record, RecordError>)>)
        ensures
            final(self)@.bytes == old(self)@.bytes,
            final(self)@.headers == old(self)@.headers,
            final(self)@.first_record_offset == old(self)@.first_record_offset,
            match next_line_start(old(self)@.bytes, old(self)@.next_offset) {
                None => r is None && final(self)@.next_offset == old(self)@.bytes.len() + 1,
                Some(o) => r matches Some((off, res)) && off == o && decoded_as(
                    res,
                    decode_line(
                        old(self)@.bytes.subrange(o, (line_span(old(self)@.bytes, o)->0).0),
                        old(self)@.headers,
                    ),
                ) && final(self)@.next_offset == (line_span(old(self)@.bytes, o)->0).1,
            },
    {
        proof {
            use_type_invariant(&*self);
        }
        loop
            invariant
                mapped_bytes(self.mmap).len() <= isize::MAX,
                self.next_offset <= mapped_bytes(self.mmap).len() + 1,
                self@.bytes == old(self)@.bytes,
                self@.headers == old(self)@.headers,
                self@.first_record_offset == old(self)@.first_record_offset,
                next_line_start(self@.bytes, self@.next_offset) == next_line_start(
                    old(self)@.bytes,
                    old(self)@.next_offset,
                ),
                old(self)@.next_offset <= self@.next_offset,
            decreases mapped_bytes(self.mmap).len() + 1 - self.next_offset,
        {
            let offset = self.next_offset;
            let (end, next) = match line_at(&self.mmap, offset) {
                Some(span) => span,
                None => {
                    return None;
                },
            };
            if end == offset {
                self.next_offset = next;
                continue;
            }
            let line = mapping_copy(&self.mmap, offset, end);
            let result = Record::from_bytes(line.as_slice(), &self.headers);
            self.next_offset = next;
            return Some((offset, result));
        }
    }
}

/// Where, relative to the line at `offset`, the `type` cell starts, when the
/// header has a `type` column, the line exists and that cell is not empty
/// (it neither ends the line nor is followed at once by a comma).
pub open spec fn type_field_offset(p: ParserView, offset: int) -> Option<int> {
    match (type_column(p.headers), line_span(p.bytes, offset)) {
        (Some(k), Some((end, _))) => match field_start(p.bytes.subrange(offset, end), k as nat) {
            Some(f) => if f < end - offset && p.bytes[offset + f] != 44u8 {
                Some(f)
            } else {
                None
            },
            None => None,
        },
        _ => None,
    }
}

} // verus!
