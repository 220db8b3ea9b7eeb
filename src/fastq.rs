//! One FASTQ record at the start of a text buffer that may end mid-record:
//! `@id`, the sequence, a `+` line and the quality line, each ended by `\n`
//! or `\r\n`.

use vstd::prelude::*;

verus! {

/// The three text fields of a FASTQ record, borrowed from the buffer.
#[derive(Debug)]
pub struct FastqRecord<'a> {
    pub id: &'a str,
    pub sequence: &'a str,
    pub quality: &'a str,
}

/// What reading one record from the start of a buffer gives.
#[derive(Debug)]
pub enum FastqParse<'a> {
    /// A whole record, and the text after it.
    Parsed(&'a str, FastqRecord<'a>),
    /// The buffer ends before the record does: more input may complete it.
    Incomplete,
    /// The buffer does not start with a well-formed record.
    Invalid,
}

/// The outcome of reading a record, by positions in the buffer: the id is
/// `[1, id_end)`, the sequence `[seq_start, seq_end)`, the quality
/// `[qual_start, qual_end)`, and the rest starts at `rest`.
pub ghost enum RecordShape {
    Parsed { id_end: int, seq_start: int, seq_end: int, qual_start: int, qual_end: int, rest: int },
    Incomplete,
    Invalid,
}

/// A line-ending character.
pub open spec fn is_newline(c: char) -> bool {
    c == '\n' || c == '\r'
}

/// What a line ending at `i` gives.
pub ghost enum LineEnd {
    /// A line ending, and the position after it.
    At(int),
    /// The buffer ends before a line ending could be told apart.
    Short,
    /// No line ending here.
    Missing,
}

/// Reading a line ending (`\n` or `\r\n`) at `i`.
pub open spec fn line_end_at(s: Seq<char>, i: int) -> LineEnd {
    if i >= s.len() {
        LineEnd::Short
    } else if s[i] == '\n' {
        LineEnd::At(i + 1)
    } else if s[i] == '\r' {
        if i + 1 >= s.len() {
            LineEnd::Short
        } else if s[i + 1] == '\n' {
            LineEnd::At(i + 2)
        } else {
            LineEnd::Missing
        }
    } else {
        LineEnd::Missing
    }
}

/// The first position at or after `i` that holds a line-ending character;
/// `None` where the buffer ends first.
pub open spec fn field_end(s: Seq<char>, i: int) -> Option<int>
    decreases s.len() - i,
{
    if i < 0 || i >= s.len() {
        None
    } else if is_newline(s[i]) {
        Some(i)
    } else {
        field_end(s, i + 1)
    }
}

/// A field from `i` to the end of its line, then the line ending: the end of
/// the field and what the line ending there gives.
pub open spec fn field_line(s: Seq<char>, i: int) -> Option<(int, LineEnd)> {
    match field_end(s, i) {
        None => None,
        Some(e) => Some((e, line_end_at(s, e))),
    }
}

/// The record at the start of `s`.
pub open spec fn record_shape(s: Seq<char>) -> RecordShape {
    if s.len() == 0 {
        RecordShape::Incomplete
    } else if s[0] != '@' {
        RecordShape::Invalid
    } else {
        match field_line(s, 1) {
            None => RecordShape::Incomplete,
            Some((_, LineEnd::Short)) => RecordShape::Incomplete,
            Some((_, LineEnd::Missing)) => RecordShape::Invalid,
            Some((e1, LineEnd::At(p1))) => match field_line(s, p1) {
                None => RecordShape::Incomplete,
                Some((_, LineEnd::Short)) => RecordShape::Incomplete,
                Some((_, LineEnd::Missing)) => RecordShape::Invalid,
                Some((e2, LineEnd::At(p2))) => {
                    if p2 >= s.len() {
                        RecordShape::Incomplete
                    } else if s[p2] != '+' {
                        RecordShape::Invalid
                    } else {
                        match line_end_at(s, p2 + 1) {
                            LineEnd::Short => RecordShape::Incomplete,
                            LineEnd::Missing => RecordShape::Invalid,
                            LineEnd::At(p3) => match field_line(s, p3) {
                                None => RecordShape::Incomplete,
                                Some((_, LineEnd::Short)) => RecordShape::Incomplete,
                                Some((_, LineEnd::Missing)) => RecordShape::Invalid,
                                Some((e3, LineEnd::At(p4))) => RecordShape::Parsed {
                                    id_end: e1,
                                    seq_start: p1,
                                    seq_end: e2,
                                    qual_start: p3,
                                    qual_end: e3,
                                    rest: p4,
                                },
                            },
                        }
                    }
                },
            },
        }
    }
}

/// Reads a line ending at `i`, as `line_end_at` says: `Some(Ok(p))` for one
/// that ends before `p`, `None` for `Short`, `Some(Err(()))` for `Missing`.
fn read_line_end(s: &str, n: usize, i: usize) -> (r: Option<Result<usize, ()>>)
    requires
        n == s@.len(),
        i <= n,
    ensures
        match line_end_at(s@, i as int) {
            LineEnd::At(p) => r == Some(Ok::<usize, ()>(p as usize)) && p <= n,
            LineEnd::Short => r is None,
            LineEnd::Missing => r == Some(Err::<usize, ()>(())),
        },
{
    if i >= n {
        None
    } else {
        let c = s.get_char(i);
        if c == '\n' {
            Some(Ok(i + 1))
        } else if c == '\r' {
            if i + 1 >= n {
                None
            } else if s.get_char(i + 1) == '\n' {
                Some(Ok(i + 2))
            } else {
                Some(Err(()))
            }
        } else {
            Some(Err(()))
        }
    }
}

/// Finds the end of the field that starts at `i`, as `field_end` says.
fn find_field_end(s: &str, n: usize, i: usize) -> (r: Option<usize>)
    requires
        n == s@.len(),
        i <= n,
    ensures
        match field_end(s@, i as int) {
            Some(e) => r == Some(e as usize) && i <= e < n,
            None => r is None,
        },
{
    let mut j: usize = i;
    while j < n
        invariant
            n == s@.len(),
            i <= j <= n,
            field_end(s@, i as int) == field_end(s@, j as int),
        decreases n - j,
    {
        if is_newline_char(s.get_char(j)) {
            return Some(j);
        }
        j += 1;
    }
    None
}

/// Whether `c` is not a line-ending character.
fn is_not_newline(c: char) -> (r: bool)
    ensures
        r == !is_newline(c),
{
    c != '\n' && c != '\r'
}

/// Whether `c` is a line-ending character.
fn is_newline_char(c: char) -> (r: bool)
    ensures
        r == is_newline(c),
{
    !is_not_newline(c)
}

/// Reads one record from the start of `input`.
pub fn fastq_record<'a>(input: &'a str) -> (r: FastqParse<'a>)
    ensures
        match record_shape(input@) {
            RecordShape::Parsed { id_end, seq_start, seq_end, qual_start, qual_end, rest } => {
                r matches FastqParse::Parsed(after, rec) && rec.id@ == input@.subrange(1, id_end)
                    && rec.sequence@ == input@.subrange(seq_start, seq_end) && rec.quality@
                    == input@.subrange(qual_start, qual_end) && after@ == input@.subrange(
                    rest,
                    input@.len() as int,
                )
            },
            RecordShape::Incomplete => r is Incomplete,
            RecordShape::Invalid => r is Invalid,
        },
{
    let n = input.unicode_len();
    if n == 0 {
        return FastqParse::Incomplete;
    }
    if input.get_char(0) != '@' {
        return FastqParse::Invalid;
    }
    let e1 = match find_field_end(input, n, 1) {
        None => return FastqParse::Incomplete,
        Some(e) => e,
    };
    let p1 = match read_line_end(input, n, e1) {
        None => return FastqParse::Incomplete,
        Some(Err(())) => return FastqParse::Invalid,
        Some(Ok(p)) => p,
    };
    let e2 = match find_field_end(input, n, p1) {
        None => return FastqParse::Incomplete,
        Some(e) => e,
    };
    let p2 = match read_line_end(input, n, e2) {
        None => return FastqParse::Incomplete,
        Some(Err(())) => return FastqParse::Invalid,
        Some(Ok(p)) => p,
    };
    if p2 >= n {
        return FastqParse::Incomplete;
    }
    if input.get_char(p2) != '+' {
        return FastqParse::Invalid;
    }
    let p3 = match read_line_end(input, n, p2 + 1) {
        None => return FastqParse::Incomplete,
        Some(Err(())) => return FastqParse::Invalid,
        Some(Ok(p)) => p,
    };
    let e3 = match find_field_end(input, n, p3) {
        None => return FastqParse::Incomplete,
        Some(e) => e,
    };
    let p4 = match read_line_end(input, n, e3) {
        None => return FastqParse::Incomplete,
        Some(Err(())) => return FastqParse::Invalid,
        Some(Ok(p)) => p,
    };
    let rec = FastqRecord {
        id: input.substring_char(1, e1),
        sequence: input.substring_char(p1, e2),
        quality: input.substring_char(p3, e3),
    };
    FastqParse::Parsed(input.substring_char(p4, n), rec)
}

/// A field end found from `i` lies at or after `i`, inside the buffer.
proof fn lemma_field_end_bounds(s: Seq<char>, i: int)
    ensures
        field_end(s, i) matches Some(e) ==> i <= e < s.len(),
    decreases s.len() - i,
{
    if 0 <= i < s.len() && !is_newline(s[i]) {
        lemma_field_end_bounds(s, i + 1);
    }
}

/// A whole record is not empty and ends inside the buffer.
proof fn lemma_record_bounds(s: Seq<char>)
    ensures
        record_shape(s) matches RecordShape::Parsed { rest, .. } ==> 0 < rest <= s.len(),
{
    lemma_field_end_bounds(s, 1);
    if let Some((e1, LineEnd::At(p1))) = field_line(s, 1) {
        lemma_field_end_bounds(s, p1);
        if let Some((e2, LineEnd::At(p2))) = field_line(s, p1) {
            if let LineEnd::At(p3) = line_end_at(s, p2 + 1) {
                lemma_field_end_bounds(s, p3);
            }
        }
    }
}

/// The three fields of a record, as text.
pub open spec fn record_view<'a>(r: FastqRecord<'a>) -> (Seq<char>, Seq<char>, Seq<char>) {
    (r.id@, r.sequence@, r.quality@)
}

/// The fields of each record of `s`.
pub open spec fn record_views<'a>(s: Seq<FastqRecord<'a>>) -> Seq<(Seq<char>, Seq<char>, Seq<char>)> {
    s.map_values(|r: FastqRecord<'a>| record_view(r))
}

/// Reading records from the start of `s` until one is not whole: the fields
/// of the records read, the text left, and whether reading stopped on a
/// malformed record.
pub open spec fn batch_spec(s: Seq<char>) -> (Seq<(Seq<char>, Seq<char>, Seq<char>)>, Seq<char>, bool)
    decreases s.len(),
{
    match record_shape(s) {
        RecordShape::Parsed { id_end, seq_start, seq_end, qual_start, qual_end, rest } => {
            if 0 < rest <= s.len() {
                let t = batch_spec(s.subrange(rest, s.len() as int));
                (
                    seq![
                        (
                            s.subrange(1, id_end),
                            s.subrange(seq_start, seq_end),
                            s.subrange(qual_start, qual_end),
                        ),
                    ] + t.0,
                    t.1,
                    t.2,
                )
            } else {
                (Seq::empty(), s, false)
            }
        },
        RecordShape::Incomplete => (Seq::empty(), s, false),
        RecordShape::Invalid => (Seq::empty(), s, true),
    }
}

/// The whole records at the start of a buffer, the text after them, and
/// whether reading stopped on a malformed record rather than at the end of
/// the buffer.
#[derive(Debug)]
pub struct RecordBatch<'a> {
    pub records: Vec<FastqRecord<'a>>,
    pub rest: &'a str,
    pub invalid: bool,
}

/// Reads records from the start of `input` until the buffer ends mid-record
/// or a record is malformed.
pub fn split_records<'a>(input: &'a str) -> (r: RecordBatch<'a>)
    ensures
        batch_spec(input@) == (record_views(r.records@), r.rest@, r.invalid),
{
    let mut records: Vec<FastqRecord<'a>> = Vec::new();
    let mut cur: &'a str = input;
    assert(record_views(records@) + batch_spec(cur@).0 =~= batch_spec(cur@).0);
    loop
        invariant
            batch_spec(input@) == (
                record_views(records@) + batch_spec(cur@).0,
                batch_spec(cur@).1,
                batch_spec(cur@).2,
            ),
        decreases cur@.len(),
    {
        let ghost before = records@;
        let ghost c = cur@;
        match fastq_record(cur) {
            FastqParse::Parsed(after, rec) => {
                proof {
                    lemma_record_bounds(c);
                }
                records.push(rec);
                cur = after;
                proof {
                    assert(record_views(records@) =~= record_views(before).push(record_view(rec)));
                    assert(record_views(records@) + batch_spec(cur@).0 =~= record_views(before)
                        + batch_spec(c).0);
                }
            },
            FastqParse::Incomplete => {
                assert(record_views(records@) + batch_spec(cur@).0 =~= record_views(records@));
                return RecordBatch { records, rest: cur, invalid: false };
            },
            FastqParse::Invalid => {
                assert(record_views(records@) + batch_spec(cur@).0 =~= record_views(records@));
                return RecordBatch { records, rest: cur, invalid: true };
            },
        }
    }
}

} // verus!
