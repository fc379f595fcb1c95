use vstd::prelude::*;

use crate::decimal::str_chars;
use crate::error::Error;

verus! {

/// The transaction kinds a record may carry, written in the input as the
/// lower-case words `deposit`, `withdrawal`, `dispute`, `resolve` and
/// `chargeback`.
#[derive(Debug, Copy, Clone)]
pub enum TransactionType {
    Deposit,
    Withdrawal,
    Dispute,
    Resolve,
    Chargeback,
}

/// One row of the input, read positionally: kind, client id, transaction id,
/// and an optional amount left as its characters.
#[derive(Debug)]
pub struct CsvInputRecord {
    pub tx_type: TransactionType,
    pub client: u16,
    pub tx: u32,
    pub amount: Option<Vec<char>>,
}

/// The mathematical content of a `CsvInputRecord`.
#[verifier::ext_equal]
pub ghost struct RecordView {
    pub tx_type: TransactionType,
    pub client: u16,
    pub tx: u32,
    pub amount: Option<Seq<char>>,
}

impl View for CsvInputRecord {
    type V = RecordView;

    open spec fn view(&self) -> RecordView {
        RecordView {
            tx_type: self.tx_type,
            client: self.client,
            tx: self.tx,
            amount: match self.amount {
                Some(a) => Some(a@),
                None => None,
            },
        }
    }
}

/// Whether a character counts as field padding: the space and the tab.
pub open spec fn is_lws(c: char) -> bool {
    c == ' ' || c == '\t'
}

/// Whether a character is a decimal digit.
pub open spec fn is_digit(c: char) -> bool {
    48 <= c as u32 <= 57
}

/// The first index at or after `from` holding `c`, or the length.
pub open spec fn find_from(s: Seq<char>, from: int, c: char) -> int
    decreases s.len() - from,
{
    if from >= s.len() {
        s.len() as int
    } else if s[from] == c {
        from
    } else {
        find_from(s, from + 1, c)
    }
}

/// `find_from` never answers before the place it started from.
pub proof fn lemma_find_from_ge(s: Seq<char>, from: int, c: char)
    requires
        from <= s.len(),
    ensures
        from <= find_from(s, from, c) <= s.len(),
    decreases s.len() - from,
{
    if from < s.len() && s[from] != c {
        lemma_find_from_ge(s, from + 1, c);
    }
}

/// The start of the next record: blank lines — empty, or a lone carriage
/// return before a line feed or the end — are passed over.
pub open spec fn blank_skip(s: Seq<char>, pos: int) -> int
    decreases s.len() - pos,
{
    if pos >= s.len() {
        s.len() as int
    } else if s[pos] == '\n' {
        blank_skip(s, pos + 1)
    } else if s[pos] == '\r' && (pos + 1 >= s.len() || s[pos + 1] == '\n') {
        blank_skip(s, pos + 1)
    } else {
        pos
    }
}

/// The content of the line starting at `pos`: up to the next line feed, with
/// a trailing carriage return stripped.
pub open spec fn line_content(s: Seq<char>, pos: int) -> Seq<char> {
    let e = find_from(s, pos, '\n');
    let raw = s.subrange(pos, e);
    if raw.len() > 0 && raw.last() == '\r' {
        raw.drop_last()
    } else {
        raw
    }
}

/// The position just past the line starting at `pos`.
pub open spec fn after_line(s: Seq<char>, pos: int) -> int {
    let e = find_from(s, pos, '\n');
    if e < s.len() {
        e + 1
    } else {
        e
    }
}

/// The comma-separated fields of `s` from `from` on, untrimmed.
pub open spec fn split_from(s: Seq<char>, from: int) -> Seq<Seq<char>>
    decreases s.len() - from,
        via split_from_decreases
{
    let c = find_from(s, from, ',');
    if c >= s.len() {
        seq![s.subrange(from, s.len() as int)]
    } else {
        seq![s.subrange(from, c)] + split_from(s, c + 1)
    }
}

#[via_fn]
proof fn split_from_decreases(s: Seq<char>, from: int) {
    if from <= s.len() {
        lemma_find_from_ge(s, from, ',');
    }
}

/// The comma-separated fields of a whole line.
pub open spec fn split_commas(s: Seq<char>) -> Seq<Seq<char>> {
    split_from(s, 0)
}

/// `s` without its leading padding.
pub open spec fn trim_front(s: Seq<char>) -> Seq<char>
    decreases s.len(),
{
    if s.len() > 0 && is_lws(s[0]) {
        trim_front(s.drop_first())
    } else {
        s
    }
}

/// `s` without its trailing padding.
pub open spec fn trim_back(s: Seq<char>) -> Seq<char>
    decreases s.len(),
{
    if s.len() > 0 && is_lws(s.last()) {
        trim_back(s.drop_last())
    } else {
        s
    }
}

/// `s` without padding on either side.
pub open spec fn trim_seq(s: Seq<char>) -> Seq<char> {
    trim_back(trim_front(s))
}

/// The value of a run of digits, most significant first.
pub open spec fn digits_val(s: Seq<char>) -> int
    decreases s.len(),
{
    if s.len() == 0 {
        0
    } else {
        digits_val(s.drop_last()) * 10 + (s.last() as u32 - 48)
    }
}

/// The number a field holds: defined only for a non-empty run of digits.
pub open spec fn parse_uint(s: Seq<char>) -> Option<int> {
    if s.len() > 0 && (forall|i: int| 0 <= i < s.len() ==> is_digit(#[trigger] s[i])) {
        Some(digits_val(s))
    } else {
        None
    }
}

/// A run of digits never has a negative value.
proof fn lemma_digits_val_nonneg(s: Seq<char>)
    requires
        forall|i: int| 0 <= i < s.len() ==> is_digit(#[trigger] s[i]),
    ensures
        digits_val(s) >= 0,
    decreases s.len(),
{
    if s.len() > 0 {
        lemma_digits_val_nonneg(s.drop_last());
    }
}

/// Reading more digits never shrinks the value.
proof fn lemma_digits_val_prefix_le(s: Seq<char>, i: int)
    requires
        0 <= i <= s.len(),
        forall|k: int| 0 <= k < s.len() ==> is_digit(#[trigger] s[k]),
    ensures
        digits_val(s.subrange(0, i)) <= digits_val(s),
    decreases s.len() - i,
{
    if i == s.len() {
        assert(s.subrange(0, i) =~= s);
    } else {
        lemma_digits_val_prefix_le(s, i + 1);
        let p = s.subrange(0, i + 1);
        assert(p.drop_last() =~= s.subrange(0, i));
        lemma_digits_val_nonneg(s.subrange(0, i));
    }
}

/// The transaction kind a field names, or `None` for any other word.
pub open spec fn tx_type_of(f: Seq<char>) -> Option<TransactionType> {
    if f == "deposit"@ {
        Some(TransactionType::Deposit)
    } else if f == "withdrawal"@ {
        Some(TransactionType::Withdrawal)
    } else if f == "dispute"@ {
        Some(TransactionType::Dispute)
    } else if f == "resolve"@ {
        Some(TransactionType::Resolve)
    } else if f == "chargeback"@ {
        Some(TransactionType::Chargeback)
    } else {
        None
    }
}

/// What a line with the header's field count means: three or four fields —
/// kind, client, transaction id, and perhaps an amount — with the kind a
/// known word and the ids in range; an empty amount field counts as absent.
pub open spec fn spec_parse_record(line: Seq<char>) -> Option<RecordView> {
    let fs = split_commas(line);
    if fs.len() != 3 && fs.len() != 4 {
        None
    } else {
        let ty = tx_type_of(trim_seq(fs[0]));
        let cl = parse_uint(trim_seq(fs[1]));
        let tx = parse_uint(trim_seq(fs[2]));
        let amount = if fs.len() == 4 {
            let a = trim_seq(fs[3]);
            if a.len() == 0 {
                None
            } else {
                Some(a)
            }
        } else {
            None
        };
        match (ty, cl, tx) {
            (Some(t), Some(c), Some(x)) => if c <= 65535 && x <= 4294967295 {
                Some(RecordView { tx_type: t, client: c as u16, tx: x as u32, amount })
            } else {
                None
            },
            _ => None,
        }
    }
}

/// Why a line of the input was refused.
pub ghost enum LineFault {
    /// Its field count differs from the header's.
    FieldCount,
    /// Its fields cannot be read as a record.
    Fields,
}

/// The mathematical content of a `CsvReader`.
#[verifier::ext_equal]
pub ghost struct CsvReaderView {
    pub text: Seq<char>,
    pub pos: int,
    pub started: bool,
    pub n_fields: int,
}

impl CsvReaderView {
    /// The reading position never leaves the text.
    pub open spec fn wf(self) -> bool {
        0 <= self.pos <= self.text.len()
    }
}

/// What reading one data record leaves behind and returns, once the header
/// is known: `Ok(None)` at the end of the input, otherwise the next line's
/// record or the fault it deserves; a faulty line is passed by.
pub open spec fn spec_read_data(v: CsvReaderView) -> (CsvReaderView, Result<
    Option<RecordView>,
    LineFault,
>) {
    let p0 = blank_skip(v.text, v.pos);
    if p0 >= v.text.len() {
        (CsvReaderView { pos: p0, ..v }, Ok(None))
    } else {
        let line = line_content(v.text, p0);
        let v2 = CsvReaderView { pos: after_line(v.text, p0), ..v };
        if split_commas(line).len() != v.n_fields {
            (v2, Err(LineFault::FieldCount))
        } else {
            match spec_parse_record(line) {
                Some(rec) => (v2, Ok(Some(rec))),
                None => (v2, Err(LineFault::Fields)),
            }
        }
    }
}

/// What one `read_next` call leaves behind and returns. The first call takes
/// the first non-blank line as the header, remembers its field count, and
/// reads on from there.
pub open spec fn spec_read_next(v: CsvReaderView) -> (CsvReaderView, Result<
    Option<RecordView>,
    LineFault,
>) {
    if v.started {
        spec_read_data(v)
    } else {
        let p0 = blank_skip(v.text, v.pos);
        if p0 >= v.text.len() {
            (CsvReaderView { pos: p0, ..v }, Ok(None))
        } else {
            let header = line_content(v.text, p0);
            let v1 = CsvReaderView {
                pos: after_line(v.text, p0),
                started: true,
                n_fields: split_commas(header).len() as int,
                ..v
            };
            spec_read_data(v1)
        }
    }
}

/// Reads transaction records out of a tabular text: one record per line,
/// fields separated by commas and trimmed of padding, the first non-blank
/// line a header that only fixes the field count.
pub struct CsvReader {
    chars: Vec<char>,
    pos: usize,
    started: bool,
    n_fields: usize,
}

impl View for CsvReader {
    type V = CsvReaderView;

    closed spec fn view(&self) -> CsvReaderView {
        CsvReaderView {
            text: self.chars@,
            pos: self.pos as int,
            started: self.started,
            n_fields: self.n_fields as int,
        }
    }
}

impl CsvReader {
    /// Takes the whole input text; reading starts at its beginning.
    pub fn from_reader(input: &str) -> (r: Result<Self, Error>)
        ensures
            r matches Ok(rd) && rd@ == (CsvReaderView {
                text: input@,
                pos: 0,
                started: false,
                n_fields: 0,
            }),
    {
        let chars = str_chars(input);
        let rd = CsvReader { chars, pos: 0, started: false, n_fields: 0 };
        proof {
            assert(rd@ =~= (CsvReaderView { text: input@, pos: 0, started: false, n_fields: 0 }));
        }
        Ok(rd)
    }

    /// Hands out the next record, `Ok(None)` at the end of the input, or the
    /// error the next line deserves.
    pub fn read_next(&mut self) -> (r: Result<Option<CsvInputRecord>, Error>)
        requires
            old(self)@.wf(),
        ensures
            final(self)@.wf(),
            ({
                let (v2, out) = spec_read_next(old(self)@);
                final(self)@ == v2 && match out {
                    Ok(None) => r matches Ok(o) && o is None,
                    Ok(Some(rec)) => r matches Ok(o) && o matches Some(c) && c@ == rec,
                    Err(LineFault::FieldCount) => r matches Err(e) && e matches Error::ReadCsvRecord(
                        _,
                    ),
                    Err(LineFault::Fields) => r matches Err(e) && e
                        matches Error::DeserializeCsvRecord(_),
                }
            }),
    {
        if !self.started {
            match self.take_line() {
                None => {
                    return Ok(None);
                },
                Some((a, b)) => {
                    let header = copy_range(&self.chars, a, b);
                    let fields = split_fields(&header);
                    self.n_fields = fields.len();
                    self.started = true;
                },
            }
        }
        let (a, b) = match self.take_line() {
            None => {
                return Ok(None);
            },
            Some(ab) => ab,
        };
        let line = copy_range(&self.chars, a, b);
        let fields = split_fields(&line);
        if fields.len() != self.n_fields {
            return Err(
                Error::ReadCsvRecord("record field count differs from the header".to_owned()),
            );
        }
        if fields.len() != 3 && fields.len() != 4 {
            return Err(
                Error::DeserializeCsvRecord("a record needs three or four fields".to_owned()),
            );
        }
        let (f0, f1, f2) = (fields[0], fields[1], fields[2]);
        let (t0, t1) = trim_range(&line, f0.0, f0.1);
        let tx_type = match classify_type(&line, t0, t1) {
            Some(t) => t,
            None => {
                return Err(
                    Error::DeserializeCsvRecord("the first field names no transaction".to_owned()),
                );
            },
        };
        let (c0, c1) = trim_range(&line, f1.0, f1.1);
        let client = match parse_uint_range(&line, c0, c1, 65535) {
            Some(v) => v as u16,
            None => {
                return Err(
                    Error::DeserializeCsvRecord("the client id is no 16-bit number".to_owned()),
                );
            },
        };
        let (x0, x1) = trim_range(&line, f2.0, f2.1);
        let tx = match parse_uint_range(&line, x0, x1, 4294967295) {
            Some(v) => v as u32,
            None => {
                return Err(
                    Error::DeserializeCsvRecord(
                        "the transaction id is no 32-bit number".to_owned(),
                    ),
                );
            },
        };
        let amount: Option<Vec<char>> = if fields.len() == 4 {
            let f3 = fields[3];
            let (a0, a1) = trim_range(&line, f3.0, f3.1);
            if a0 == a1 {
                None
            } else {
                Some(copy_range(&line, a0, a1))
            }
        } else {
            None
        };
        let record = CsvInputRecord { tx_type, client, tx, amount };
        proof {
            let (v2, out) = spec_read_next(old(self)@);
            assert(out matches Ok(o) && o matches Some(rec) && record@ =~= rec);
        }
        Ok(Some(record))
    }

    /// Moves past blank lines and hands out the bounds of the next line's
    /// content, advancing past it; `None` at the end of the input.
    fn take_line(&mut self) -> (r: Option<(usize, usize)>)
        requires
            old(self)@.wf(),
        ensures
            final(self)@.wf(),
            final(self)@.text == old(self)@.text,
            final(self)@.started == old(self)@.started,
            final(self)@.n_fields == old(self)@.n_fields,
            ({
                let s = old(self)@.text;
                let p0 = blank_skip(s, old(self)@.pos);
                if p0 >= s.len() {
                    r is None && final(self)@.pos == p0
                } else {
                    r matches Some(ab) && ab.0 == p0 && p0 <= ab.1 <= s.len() && s.subrange(
                        ab.0 as int,
                        ab.1 as int,
                    ) == line_content(s, p0) && final(self)@.pos == after_line(s, p0)
                }
            }),
    {
        let ghost s = self.chars@;
        let ghost oldpos = self.pos as int;
        let len = self.chars.len();
        let mut p: usize = self.pos;
        while p < len && (self.chars[p] == '\n' || (self.chars[p] == '\r' && (p + 1 == len
            || self.chars[p + 1] == '\n')))
            invariant
                self.pos as int == oldpos,
                s == self.chars@,
                oldpos <= p <= len,
                len == s.len(),
                blank_skip(s, oldpos) == blank_skip(s, p as int),
            decreases len - p,
        {
            p += 1;
        }
        assert(blank_skip(s, oldpos) == p as int);
        if p >= len {
            self.pos = p;
            return None;
        }
        let mut e: usize = p;
        while e < len && self.chars[e] != '\n'
            invariant
                s == self.chars@,
                p <= e <= len,
                len == s.len(),
                forall|k: int| p <= k < e ==> s[k] != '\n',
                find_from(s, p as int, '\n') == find_from(s, e as int, '\n'),
            decreases len - e,
        {
            e += 1;
        }
        assert(find_from(s, p as int, '\n') == e as int);
        let b: usize = if e > p && self.chars[e - 1] == '\r' {
            e - 1
        } else {
            e
        };
        proof {
            let raw = s.subrange(p as int, e as int);
            if raw.len() > 0 && raw.last() == '\r' {
                assert(raw.drop_last() =~= s.subrange(p as int, b as int));
            }
            assert(s.subrange(p as int, b as int) == line_content(s, p as int));
        }
        self.pos = if e < len {
            e + 1
        } else {
            e
        };
        Some((p, b))
    }
}

/// A copy of the characters in `[a, b)`.
fn copy_range(chars: &Vec<char>, a: usize, b: usize) -> (l: Vec<char>)
    requires
        a <= b <= chars@.len(),
    ensures
        l@ == chars@.subrange(a as int, b as int),
{
    let mut l: Vec<char> = Vec::new();
    let mut i: usize = a;
    while i < b
        invariant
            a <= i <= b <= chars@.len(),
            l@ == chars@.subrange(a as int, i as int),
        decreases b - i,
    {
        l.push(chars[i]);
        proof {
            assert(l@ =~= chars@.subrange(a as int, i as int + 1));
        }
        i += 1;
    }
    l
}

/// The bounds of each comma-separated field of `line`.
fn split_fields(line: &Vec<char>) -> (fields: Vec<(usize, usize)>)
    ensures
        ({
            let fs = split_commas(line@);
            &&& fields@.len() == fs.len()
            &&& forall|i: int|
                0 <= i < fs.len() ==> (#[trigger] fields@[i]).0 <= fields@[i].1 <= line@.len()
                    && line@.subrange(fields@[i].0 as int, fields@[i].1 as int) == fs[i]
        }),
{
    let mut fields: Vec<(usize, usize)> = Vec::new();
    let mut cur: usize = 0;
    let ghost fs = split_commas(line@);
    loop
        invariant_except_break
            cur <= line@.len(),
            forall|i: int|
                0 <= i < fields@.len() ==> (#[trigger] fields@[i]).0 <= fields@[i].1 <= line@.len(),
            fs =~= fields@.map_values(
                |r: (usize, usize)| line@.subrange(r.0 as int, r.1 as int),
            ) + split_from(line@, cur as int),
        ensures
            fields@.len() == fs.len(),
            forall|i: int|
                0 <= i < fs.len() ==> (#[trigger] fields@[i]).0 <= fields@[i].1 <= line@.len()
                    && line@.subrange(fields@[i].0 as int, fields@[i].1 as int) == fs[i],
        decreases line@.len() - cur,
    {
        let c = find_comma(line, cur);
        let ghost pre = fields@;
        fields.push((cur, c));
        proof {
            assert(fields@.map_values(
                |r: (usize, usize)| line@.subrange(r.0 as int, r.1 as int),
            ) =~= pre.map_values(|r: (usize, usize)| line@.subrange(r.0 as int, r.1 as int)).push(
                line@.subrange(cur as int, c as int),
            ));
        }
        if c == line.len() {
            proof {
                let mapped = fields@.map_values(
                    |r: (usize, usize)| line@.subrange(r.0 as int, r.1 as int),
                );
                assert(fs =~= mapped);
                assert forall|i: int| 0 <= i < fs.len() implies (#[trigger] fields@[i]).0
                    <= fields@[i].1 <= line@.len() && line@.subrange(
                    fields@[i].0 as int,
                    fields@[i].1 as int,
                ) == fs[i] by {
                    assert(mapped[i] == line@.subrange(fields@[i].0 as int, fields@[i].1 as int));
                }
            }
            break;
        }
        cur = c + 1;
    }
    fields
}

/// The first comma at or after `from`, or the length.
fn find_comma(line: &Vec<char>, from: usize) -> (r: usize)
    requires
        from <= line@.len(),
    ensures
        from <= r <= line@.len(),
        r as int == find_from(line@, from as int, ','),
        r < line@.len() ==> line@[r as int] == ',',
{
    let len = line.len();
    let mut i: usize = from;
    while i < len && line[i] != ','
        invariant
            from <= i <= len,
            len == line@.len(),
            find_from(line@, from as int, ',') == find_from(line@, i as int, ','),
        decreases len - i,
    {
        i += 1;
    }
    i
}

/// The bounds of the field `[a, b)` once its padding is trimmed away.
fn trim_range(line: &Vec<char>, a: usize, b: usize) -> (r: (usize, usize))
    requires
        a <= b <= line@.len(),
    ensures
        a <= r.0 <= r.1 <= b,
        line@.subrange(r.0 as int, r.1 as int) == trim_seq(line@.subrange(a as int, b as int)),
{
    let ghost f = line@.subrange(a as int, b as int);
    let mut i: usize = a;
    while i < b && (line[i] == ' ' || line[i] == '\t')
        invariant
            a <= i <= b <= line@.len(),
            f == line@.subrange(a as int, b as int),
            trim_front(f) == trim_front(line@.subrange(i as int, b as int)),
        decreases b - i,
    {
        proof {
            let g = line@.subrange(i as int, b as int);
            assert(g.drop_first() =~= line@.subrange(i as int + 1, b as int));
        }
        i += 1;
    }
    proof {
        assert(trim_front(f) == line@.subrange(i as int, b as int));
    }
    let ghost g = line@.subrange(i as int, b as int);
    let mut j: usize = b;
    while j > i && (line[j - 1] == ' ' || line[j - 1] == '\t')
        invariant
            i <= j <= b <= line@.len(),
            g == line@.subrange(i as int, b as int),
            trim_back(g) == trim_back(line@.subrange(i as int, j as int)),
        decreases j,
    {
        proof {
            let h = line@.subrange(i as int, j as int);
            assert(h.drop_last() =~= line@.subrange(i as int, j as int - 1));
        }
        j -= 1;
    }
    proof {
        assert(trim_back(g) == line@.subrange(i as int, j as int));
        assert(trim_seq(f) == line@.subrange(i as int, j as int));
    }
    (i, j)
}

/// The transaction kind the field `[a, b)` names, or `None`.
fn classify_type(line: &Vec<char>, a: usize, b: usize) -> (r: Option<TransactionType>)
    requires
        a <= b <= line@.len(),
    ensures
        r == tx_type_of(line@.subrange(a as int, b as int)),
{
    proof {
        reveal_strlit("deposit");
        reveal_strlit("withdrawal");
        reveal_strlit("dispute");
        reveal_strlit("resolve");
        reveal_strlit("chargeback");
    }
    let ghost f = line@.subrange(a as int, b as int);
    let n = b - a;
    if n == 7 && line[a] == 'd' && line[a + 1] == 'e' && line[a + 2] == 'p' && line[a + 3] == 'o'
        && line[a + 4] == 's' && line[a + 5] == 'i' && line[a + 6] == 't' {
        proof {
            assert(f =~= "deposit"@);
        }
        Some(TransactionType::Deposit)
    } else if n == 10 && line[a] == 'w' && line[a + 1] == 'i' && line[a + 2] == 't' && line[a + 3]
        == 'h' && line[a + 4] == 'd' && line[a + 5] == 'r' && line[a + 6] == 'a' && line[a + 7]
        == 'w' && line[a + 8] == 'a' && line[a + 9] == 'l' {
        proof {
            assert(f =~= "withdrawal"@);
            assert("withdrawal"@.len() != "deposit"@.len());
        }
        Some(TransactionType::Withdrawal)
    } else if n == 7 && line[a] == 'd' && line[a + 1] == 'i' && line[a + 2] == 's' && line[a + 3]
        == 'p' && line[a + 4] == 'u' && line[a + 5] == 't' && line[a + 6] == 'e' {
        proof {
            assert(f =~= "dispute"@);
            assert("dispute"@[1] != "deposit"@[1]);
            assert("dispute"@.len() != "withdrawal"@.len());
        }
        Some(TransactionType::Dispute)
    } else if n == 7 && line[a] == 'r' && line[a + 1] == 'e' && line[a + 2] == 's' && line[a + 3]
        == 'o' && line[a + 4] == 'l' && line[a + 5] == 'v' && line[a + 6] == 'e' {
        proof {
            assert(f =~= "resolve"@);
            assert("resolve"@[0] != "deposit"@[0]);
            assert("resolve"@.len() != "withdrawal"@.len());
            assert("resolve"@[0] != "dispute"@[0]);
        }
        Some(TransactionType::Resolve)
    } else if n == 10 && line[a] == 'c' && line[a + 1] == 'h' && line[a + 2] == 'a' && line[a + 3]
        == 'r' && line[a + 4] == 'g' && line[a + 5] == 'e' && line[a + 6] == 'b' && line[a + 7]
        == 'a' && line[a + 8] == 'c' && line[a + 9] == 'k' {
        proof {
            assert(f =~= "chargeback"@);
            assert("chargeback"@.len() != "deposit"@.len());
            assert("chargeback"@[0] != "withdrawal"@[0]);
            assert("chargeback"@.len() != "dispute"@.len());
            assert("chargeback"@.len() != "resolve"@.len());
        }
        Some(TransactionType::Chargeback)
    } else {
        proof {
            assert(f.len() == b - a);
            assert(forall|k: int| 0 <= k < f.len() ==> #[trigger] f[k] == line@[a + k]);
            assert(f != "deposit"@) by {
                reveal_strlit("deposit");
                if f == "deposit"@ {
                    assert(f[0] == 'd' && f[1] == 'e' && f[2] == 'p' && f[3] == 'o' && f[4] == 's'
                        && f[5] == 'i' && f[6] == 't');
                    assert(false);
                }
            }
            assert(f != "withdrawal"@) by {
                reveal_strlit("withdrawal");
                if f == "withdrawal"@ {
                    assert(f[0] == 'w' && f[1] == 'i' && f[2] == 't' && f[3] == 'h' && f[4] == 'd'
                        && f[5] == 'r' && f[6] == 'a' && f[7] == 'w' && f[8] == 'a' && f[9] == 'l');
                    assert(false);
                }
            }
            assert(f != "dispute"@) by {
                reveal_strlit("dispute");
                if f == "dispute"@ {
                    assert(f[0] == 'd' && f[1] == 'i' && f[2] == 's' && f[3] == 'p' && f[4] == 'u'
                        && f[5] == 't' && f[6] == 'e');
                    assert(false);
                }
            }
            assert(f != "resolve"@) by {
                reveal_strlit("resolve");
                if f == "resolve"@ {
                    assert(f[0] == 'r' && f[1] == 'e' && f[2] == 's' && f[3] == 'o' && f[4] == 'l'
                        && f[5] == 'v' && f[6] == 'e');
                    assert(false);
                }
            }
            assert(f != "chargeback"@) by {
                reveal_strlit("chargeback");
                if f == "chargeback"@ {
                    assert(f[0] == 'c' && f[1] == 'h' && f[2] == 'a' && f[3] == 'r' && f[4] == 'g'
                        && f[5] == 'e' && f[6] == 'b' && f[7] == 'a' && f[8] == 'c' && f[9] == 'k');
                    assert(false);
                }
            }
        }
        None
    }
}

/// The number the field `[a, b)` holds, if it is a run of digits whose value
/// stays within `max`.
fn parse_uint_range(line: &Vec<char>, a: usize, b: usize, max: u64) -> (r: Option<u64>)
    requires
        a <= b <= line@.len(),
    ensures
        ({
            let f = line@.subrange(a as int, b as int);
            match parse_uint(f) {
                None => r is None,
                Some(u) => if u <= max {
                    r matches Some(v) && v as int == u
                } else {
                    r is None
                },
            }
        }),
{
    let ghost f = line@.subrange(a as int, b as int);
    if a == b {
        return None;
    }
    let mut acc: u64 = 0;
    let mut i: usize = a;
    while i < b
        invariant
            a <= i <= b <= line@.len(),
            f == line@.subrange(a as int, b as int),
            max <= u64::MAX,
            acc <= max,
            forall|k: int| 0 <= k < i - a ==> is_digit(#[trigger] f[k]),
            acc as int == digits_val(f.subrange(0, i - a)),
        decreases b - i,
    {
        let c = line[i];
        let u = c as u32;
        if !(48 <= u && u <= 57) {
            proof {
                assert(f[i - a] == c);
                assert(!is_digit(f[i - a]));
            }
            return None;
        }
        let d: u64 = (u - 48) as u64;
        proof {
            assert(f[i - a] == c);
            assert(is_digit(f[i - a]));
            assert(d as int == f[i - a] as u32 - 48);
            assert(f.subrange(0, i - a + 1).drop_last() =~= f.subrange(0, i - a));
            assert(f.subrange(0, i - a + 1).last() == f[i - a]);
        }
        if acc > max / 10 || (acc == max / 10 && d > max % 10) {
            proof {
                assert(acc * 10 + d > max) by (nonlinear_arith)
                    requires
                        acc <= max,
                        d <= 9,
                        acc > max / 10 || (acc == max / 10 && d > max % 10),
                        max <= u64::MAX,
                ;
                if forall|k: int| 0 <= k < f.len() ==> is_digit(#[trigger] f[k]) {
                    lemma_digits_val_prefix_le(f, i - a + 1);
                }
            }
            return None;
        }
        proof {
            assert(acc * 10 + d <= max) by (nonlinear_arith)
                requires
                    acc <= max / 10,
                    acc < max / 10 || d <= max % 10,
                    d <= 9,
                    max <= u64::MAX,
            ;
        }
        acc = acc * 10 + d;
        i += 1;
    }
    proof {
        assert(f.subrange(0, (b - a) as int) =~= f);
    }
    Some(acc)
}

} // verus!
