//! Ingestion: parses delimited text (first line a comma-separated header,
//! each further line one data row) into a typed `DataFrame`, inferring each
//! column's type from the first data row: a field that parses as a 64-bit
//! signed integer gives an Integer column, the literals `true` and `false` a
//! Boolean column, a field that parses as a float a Float column, and any
//! other field a Text column.
//!
//! Reading a float out of text is floating-point work, which this verified
//! core cannot hold. The caller performs it: `CSVFile::data_fields` hands out
//! the data fields, the caller parses each as a float where it can (keeping
//! the IEEE-754 bit pattern), and `DataFrame::from_csv` takes that matrix of
//! outcomes and does everything else — splitting, inference, validation and
//! conversion — with a contract that is exact for every outcome matrix.
//!
//! Line policy: lines are separated by `'\n'`; a trailing `'\r'` on a line is
//! stripped, so `"\r\n"` endings are accepted; a final newline is a
//! terminator, not the start of an empty line. Any other blank line is an
//! ordinary one-field row and fails the arity check. Fields are taken
//! verbatim between delimiters; there is no quoting or escaping.

use vstd::prelude::*;

use crate::cell::{kind_of, CellType, Column, ColumnType};
use crate::table::{DataFrame, Row};
use crate::text::{chars_to_string, str_chars};

verus! {

/// Raw delimited text to ingest; the caller reads it from wherever it lives.
pub struct CSVFile(pub String);

/// Failures of ingestion, with enough context to report the offending place.
/// `row` is the zero-based index among the data lines (the header is not a
/// data line); `column` is the zero-based field position.
#[derive(Debug)]
pub enum IngestError {
    /// The input has no lines at all.
    MissingHeader,
    /// The input has a header but no data line.
    MissingData,
    /// A data line's field count differs from the header's.
    RowArity { row: usize, expected: usize, found: usize },
    /// A field cannot be converted to its column's declared type.
    TypeMismatch { row: usize, column: usize },
}

/// Splitting on a delimiter, processing `s` left to right with the current
/// field `cur` and the fields already complete in `out`.
pub open spec fn split_rec(s: Seq<char>, d: char, cur: Seq<char>, out: Seq<Seq<char>>) -> Seq<
    Seq<char>,
>
    decreases s.len(),
{
    if s.len() == 0 {
        out.push(cur)
    } else if s[0] == d {
        split_rec(s.drop_first(), d, Seq::empty(), out.push(cur))
    } else {
        split_rec(s.drop_first(), d, cur.push(s[0]), out)
    }
}

/// The parts of `s` between occurrences of `d`, in order; always at least one
/// part, and empty parts where delimiters touch.
pub open spec fn split_on(s: Seq<char>, d: char) -> Seq<Seq<char>> {
    split_rec(s, d, Seq::empty(), Seq::empty())
}

/// The views of a vector of character vectors.
pub open spec fn vviews(v: Seq<Vec<char>>) -> Seq<Seq<char>> {
    Seq::new(v.len(), |i: int| v[i]@)
}

/// The views of a vector of strings.
pub open spec fn strviews(v: Seq<String>) -> Seq<Seq<char>> {
    Seq::new(v.len(), |i: int| v[i]@)
}

/// The views of a matrix of float-parse outcomes.
pub open spec fn pviews(p: Seq<Vec<Option<u64>>>) -> Seq<Seq<Option<u64>>> {
    Seq::new(p.len(), |i: int| p[i]@)
}

/// A line with a trailing carriage return removed.
pub open spec fn strip_cr(l: Seq<char>) -> Seq<char> {
    if l.len() > 0 && l[l.len() - 1] == '\r' {
        l.drop_last()
    } else {
        l
    }
}

/// The lines of the input: newline-separated parts, a final empty part (from
/// a terminating newline) dropped, and a trailing carriage return stripped
/// from each line.
pub open spec fn csv_lines(text: Seq<char>) -> Seq<Seq<char>> {
    let parts = split_on(text, '\n');
    let kept = if parts[parts.len() - 1].len() == 0 {
        parts.drop_last()
    } else {
        parts
    };
    Seq::new(kept.len(), |i: int| strip_cr(kept[i]))
}

/// The comma-separated fields of one line.
pub open spec fn row_fields(line: Seq<char>) -> Seq<Seq<char>> {
    split_on(line, ',')
}

/// The column names: the fields of the header line.
pub open spec fn header_names(text: Seq<char>) -> Seq<Seq<char>> {
    row_fields(csv_lines(text)[0])
}

/// The caller's float-parse outcome for data row `k`, field `j`: the IEEE-754
/// bit pattern where the field parsed as a float. An entry the caller did not
/// supply counts as not-a-float.
pub open spec fn parse_at(p: Seq<Seq<Option<u64>>>, k: int, j: int) -> Option<u64> {
    if 0 <= k < p.len() && 0 <= j < p[k].len() {
        p[k][j]
    } else {
        None
    }
}

/// The value of one decimal digit, or ten where the character is no digit.
pub open spec fn digit_val(c: char) -> int {
    match c {
        '0' => 0,
        '1' => 1,
        '2' => 2,
        '3' => 3,
        '4' => 4,
        '5' => 5,
        '6' => 6,
        '7' => 7,
        '8' => 8,
        '9' => 9,
        _ => 10,
    }
}

/// A non-empty run of decimal digits.
pub open spec fn is_digits(s: Seq<char>) -> bool {
    s.len() > 0 && forall|i: int| 0 <= i < s.len() ==> digit_val(#[trigger] s[i]) < 10
}

/// The value of a run of digits, most significant first.
pub open spec fn digits_val(s: Seq<char>) -> int
    decreases s.len(),
{
    if s.len() == 0 {
        0
    } else {
        digits_val(s.drop_last()) * 10 + digit_val(s.last())
    }
}

pub open spec fn int_of_digits(s: Seq<char>, neg: bool) -> Option<i64> {
    if is_digits(s) {
        let v = if neg {
            -digits_val(s)
        } else {
            digits_val(s)
        };
        if -9223372036854775808 <= v <= 9223372036854775807 {
            Some(v as i64)
        } else {
            None
        }
    } else {
        None
    }
}

/// An integer field: an optional `+` or `-`, then one or more decimal
/// digits, accepted when the value fits the type.
pub open spec fn int_parse_of(s: Seq<char>) -> Option<i64> {
    if s.len() > 0 && (s[0] == '+' || s[0] == '-') {
        int_of_digits(s.drop_first(), s[0] == '-')
    } else {
        int_of_digits(s, false)
    }
}

/// A run of digits has a non-negative value.
proof fn lemma_digits_val_nonneg(s: Seq<char>)
    ensures
        digits_val(s) >= 0,
    decreases s.len(),
{
    if s.len() > 0 {
        lemma_digits_val_nonneg(s.drop_last());
    }
}

/// More digits never shrink the value.
proof fn lemma_digits_prefix_le(s: Seq<char>, m: int)
    requires
        0 <= m <= s.len(),
    ensures
        digits_val(s.take(m)) <= digits_val(s),
    decreases s.len() - m,
{
    if m < s.len() {
        assert(s.take(m) =~= s.drop_last().take(m));
        lemma_digits_prefix_le(s.drop_last(), m);
        lemma_digits_val_nonneg(s.drop_last());
    } else {
        assert(s.take(m) =~= s);
    }
}

/// The value of one decimal digit character, or ten for any other character.
fn digit_of(c: char) -> (r: u64)
    ensures
        r as int == digit_val(c),
{
    match c {
        '0' => 0,
        '1' => 1,
        '2' => 2,
        '3' => 3,
        '4' => 4,
        '5' => 5,
        '6' => 6,
        '7' => 7,
        '8' => 8,
        '9' => 9,
        _ => 10,
    }
}

/// Parses an optionally signed run of decimal digits as a 64-bit signed
/// integer, exactly as `int_parse_of` describes: the digits are accumulated
/// with an overflow watch against the type's magnitude bound for the sign.
fn parse_int(v: &Vec<char>) -> (r: Option<i64>)
    ensures
        r == int_parse_of(v@),
{
    if v.len() == 0 {
        return None;
    }
    let c0 = v[0];
    let neg = c0 == '-';
    let signed = neg || c0 == '+';
    let start: usize = if signed {
        1
    } else {
        0
    };
    let ghost body: Seq<char> = if signed {
        v@.drop_first()
    } else {
        v@
    };
    proof {
        assert(int_parse_of(v@) == int_of_digits(body, neg));
        assert(forall|k: int| 0 <= k < body.len() ==> body[k] == v@[start + k]);
    }
    if start == v.len() {
        return None;
    }
    // One tenth of the magnitude bound, and the digit still allowed at it.
    let limit10: u64 = 922337203685477580;
    let lastmax: u64 = if neg {
        8
    } else {
        7
    };
    let ghost limit: int = if neg {
        9223372036854775808int
    } else {
        9223372036854775807int
    };
    let mut acc: u64 = 0;
    let mut i: usize = start;
    while i < v.len()
        invariant
            start <= i <= v@.len(),
            start < v@.len(),
            body == (if signed {
                v@.drop_first()
            } else {
                v@
            }),
            body.len() == v@.len() - start,
            forall|k: int| 0 <= k < body.len() ==> body[k] == v@[start + k],
            int_parse_of(v@) == int_of_digits(body, neg),
            limit10 == 922337203685477580,
            lastmax as int == (if neg {
                8int
            } else {
                7int
            }),
            limit == (if neg {
                9223372036854775808int
            } else {
                9223372036854775807int
            }),
            acc as int == digits_val(body.take(i - start)),
            acc as int <= limit,
            forall|k: int| 0 <= k < i - start ==> digit_val(#[trigger] body[k]) < 10,
        decreases v@.len() - i,
    {
        let ghost m = i - start;
        let d = digit_of(v[i]);
        proof {
            assert(body[m] == v@[i as int]);
        }
        if d >= 10 {
            proof {
                assert(!is_digits(body));
            }
            return None;
        }
        proof {
            assert(body.take(m + 1).drop_last() =~= body.take(m));
            assert(body.take(m + 1).last() == body[m]);
            assert(digits_val(body.take(m + 1)) == (acc as int) * 10 + (d as int));
        }
        if acc > limit10 || (acc == limit10 && d > lastmax) {
            proof {
                assert((acc as int) * 10 + (d as int) > limit);
                if is_digits(body) {
                    lemma_digits_prefix_le(body, m + 1);
                }
                assert(int_of_digits(body, neg) is None);
            }
            return None;
        }
        acc = acc * 10 + d;
        i = i + 1;
    }
    proof {
        assert(body.take(i - start) =~= body);
        assert(is_digits(body));
    }
    if neg {
        if acc == 9223372036854775808u64 {
            proof {
                assert(int_of_digits(body, true) == Some(i64::MIN));
            }
            Some(i64::MIN)
        } else {
            let r = -(acc as i64);
            proof {
                assert(int_of_digits(body, true) == Some(r));
            }
            Some(r)
        }
    } else {
        let r = acc as i64;
        proof {
            assert(int_of_digits(body, false) == Some(r));
        }
        Some(r)
    }
}

/// Boolean fields: exactly the literals `true` and `false`.
pub open spec fn bool_parse_of(s: Seq<char>) -> Option<bool> {
    if s == seq!['t', 'r', 'u', 'e'] {
        Some(true)
    } else if s == seq!['f', 'a', 'l', 's', 'e'] {
        Some(false)
    } else {
        None
    }
}

fn parse_bool(v: &Vec<char>) -> (r: Option<bool>)
    ensures
        r == bool_parse_of(v@),
{
    if v.len() == 4 {
        if v[0] == 't' && v[1] == 'r' && v[2] == 'u' && v[3] == 'e' {
            proof {
                assert(v@ =~= seq!['t', 'r', 'u', 'e']);
            }
            return Some(true);
        }
        proof {
            assert(v@ != seq!['t', 'r', 'u', 'e']) by {
                if v@ == seq!['t', 'r', 'u', 'e'] {
                    assert(v@[0] == 't' && v@[1] == 'r' && v@[2] == 'u' && v@[3] == 'e');
                }
            }
            assert(v@ != seq!['f', 'a', 'l', 's', 'e']) by {
                assert(seq!['f', 'a', 'l', 's', 'e'].len() == 5);
            }
        }
        return None;
    }
    if v.len() == 5 {
        if v[0] == 'f' && v[1] == 'a' && v[2] == 'l' && v[3] == 's'
            && v[4] == 'e' {
            proof {
                assert(v@ =~= seq!['f', 'a', 'l', 's', 'e']);
            }
            return Some(false);
        }
        proof {
            assert(v@ != seq!['f', 'a', 'l', 's', 'e']) by {
                if v@ == seq!['f', 'a', 'l', 's', 'e'] {
                    assert(v@[0] == 'f' && v@[1] == 'a' && v@[2] == 'l' && v@[3] == 's' && v@[4]
                        == 'e');
                }
            }
            assert(v@ != seq!['t', 'r', 'u', 'e']) by {
                assert(seq!['t', 'r', 'u', 'e'].len() == 4);
            }
        }
        return None;
    }
    proof {
        assert(seq!['t', 'r', 'u', 'e'].len() == 4);
        assert(seq!['f', 'a', 'l', 's', 'e'].len() == 5);
    }
    None
}

/// The type inferred for a column from its field `f` in the first data row:
/// Integer where it parses as a 64-bit signed integer, else Boolean where it
/// is a boolean literal, else Float where the caller's parse of it succeeded
/// (`pe`), else Text.
pub open spec fn infer_type(f: Seq<char>, pe: Option<u64>) -> ColumnType {
    if int_parse_of(f) is Some {
        ColumnType::Integer
    } else if bool_parse_of(f) is Some {
        ColumnType::Boolean
    } else if pe is Some {
        ColumnType::Float
    } else {
        ColumnType::Text
    }
}

/// The column types of the input: inferred field by field from the first
/// data line and its parse outcomes.
pub open spec fn csv_types(text: Seq<char>, p: Seq<Seq<Option<u64>>>) -> Seq<ColumnType> {
    Seq::new(
        row_fields(csv_lines(text)[1]).len(),
        |j: int| infer_type(row_fields(csv_lines(text)[1])[j], parse_at(p, 0, j)),
    )
}

/// Whether a field, with its parse outcome `pe`, converts to the given
/// column type. Text accepts anything.
pub open spec fn cell_convertible(t: ColumnType, f: Seq<char>, pe: Option<u64>) -> bool {
    match t {
        ColumnType::Integer => int_parse_of(f) is Some,
        ColumnType::Float => pe is Some,
        ColumnType::Text => true,
        ColumnType::Boolean => bool_parse_of(f) is Some,
    }
}

/// The cell a field converts to under the given column type.
pub open spec fn cell_represents(c: CellType, t: ColumnType, f: Seq<char>, pe: Option<u64>) -> bool {
    match t {
        ColumnType::Integer => match c {
            CellType::Integer(i) => int_parse_of(f) == Some(i),
            _ => false,
        },
        ColumnType::Float => match c {
            CellType::Float(b) => pe == Some(b),
            _ => false,
        },
        ColumnType::Text => match c {
            CellType::Text(s) => s@ == f,
            _ => false,
        },
        ColumnType::Boolean => match c {
            CellType::Boolean(b) => bool_parse_of(f) == Some(b),
            _ => false,
        },
    }
}

/// A converted cell has the kind its column declares.
proof fn lemma_represents_kind(c: CellType, t: ColumnType, f: Seq<char>, pe: Option<u64>)
    requires
        cell_represents(c, t, f, pe),
    ensures
        kind_of(c) == t,
{
}

/// Data line `k` (a line index, so `k >= 1`) has the header's field count and
/// every field converts to its inferred column type.
pub open spec fn data_row_ok(text: Seq<char>, p: Seq<Seq<Option<u64>>>, k: int) -> bool {
    &&& row_fields(csv_lines(text)[k]).len() == header_names(text).len()
    &&& forall|j: int|
        0 <= j < csv_types(text, p).len() ==> cell_convertible(
            #[trigger] csv_types(text, p)[j],
            row_fields(csv_lines(text)[k])[j],
            parse_at(p, k - 1, j),
        )
}

/// The whole input ingests cleanly: a header, at least one data line, and
/// every data line well-arityed and convertible.
pub open spec fn csv_ok(text: Seq<char>, p: Seq<Seq<Option<u64>>>) -> bool {
    &&& csv_lines(text).len() >= 2
    &&& forall|k: int| 1 <= k < csv_lines(text).len() ==> data_row_ok(text, p, k)
}

/// Splits a character sequence on a delimiter.
fn split_chars(s: &Vec<char>, d: char) -> (out: Vec<Vec<char>>)
    ensures
        vviews(out@) == split_on(s@, d),
{
    let mut out: Vec<Vec<char>> = Vec::new();
    let mut cur: Vec<char> = Vec::new();
    let mut i: usize = 0;
    proof {
        assert(s@.skip(0) =~= s@);
        assert(vviews(out@) =~= Seq::<Seq<char>>::empty());
    }
    while i < s.len()
        invariant
            i <= s@.len(),
            split_rec(s@.skip(i as int), d, cur@, vviews(out@)) == split_on(s@, d),
        decreases s@.len() - i,
    {
        proof {
            assert(s@.skip(i as int)[0] == s@[i as int]);
            assert(s@.skip(i as int).drop_first() =~= s@.skip(i + 1 as int));
        }
        if s[i] == d {
            let ghost old_out = out@;
            let ghost old_cur = cur@;
            out.push(cur);
            cur = Vec::new();
            proof {
                assert(vviews(out@) =~= vviews(old_out).push(old_cur));
            }
        } else {
            cur.push(s[i]);
        }
        i = i + 1;
    }
    proof {
        assert(s@.skip(i as int) =~= Seq::<char>::empty());
        assert(vviews(out@.push(cur)) =~= vviews(out@).push(cur@));
    }
    out.push(cur);
    out
}

/// Splits the input into its lines, under the line policy above.
fn csv_split_lines(text: &Vec<char>) -> (out: Vec<Vec<char>>)
    ensures
        vviews(out@) == csv_lines(text@),
{
    let mut parts = split_chars(text, '\n');
    proof {
        assert(vviews(parts@).len() == split_on(text@, '\n').len());
        assert(vviews(parts@).len() > 0) by {
            lemma_split_nonempty(text@, '\n');
        }
    }
    if parts[parts.len() - 1].len() == 0 {
        proof {
            assert(vviews(parts@)[parts@.len() - 1] == parts@[parts@.len() - 1]@);
        }
        parts.pop();
        proof {
            assert(vviews(parts@) =~= split_on(text@, '\n').drop_last());
        }
    } else {
        proof {
            assert(vviews(parts@)[parts@.len() - 1] == parts@[parts@.len() - 1]@);
        }
    }
    let ghost kept = vviews(parts@);
    let mut out: Vec<Vec<char>> = Vec::new();
    let mut k: usize = 0;
    while k < parts.len()
        invariant
            k <= parts@.len(),
            kept == vviews(parts@),
            out@.len() == k,
            forall|m: int| 0 <= m < k ==> vviews(out@)[m] == strip_cr(kept[m]),
        decreases parts@.len() - k,
    {
        let line = &parts[k];
        let keep: usize = if line.len() > 0 && line[line.len() - 1] == '\r' {
            line.len() - 1
        } else {
            line.len()
        };
        let mut stripped: Vec<char> = Vec::new();
        let mut t: usize = 0;
        while t < keep
            invariant
                t <= keep,
                keep <= line@.len(),
                stripped@ == line@.take(t as int),
            decreases keep - t,
        {
            stripped.push(line[t]);
            proof {
                assert(stripped@ =~= line@.take(t + 1 as int));
            }
            t = t + 1;
        }
        proof {
            assert(line@ == kept[k as int]);
            assert(stripped@ =~= strip_cr(kept[k as int]));
        }
        let ghost out_before = out@;
        out.push(stripped);
        proof {
            assert forall|m: int| 0 <= m < k + 1 implies vviews(out@)[m] == strip_cr(kept[m]) by {
                if m < k {
                    assert(vviews(out@)[m] == out@[m]@);
                    assert(out@[m] == out_before[m]);
                    assert(vviews(out_before)[m] == out_before[m]@);
                } else {
                    assert(vviews(out@)[m] == out@[m]@);
                }
            }
        }
        k = k + 1;
    }
    proof {
        assert(vviews(out@) =~= csv_lines(text@));
    }
    out
}

/// Splitting yields at least one part.
proof fn lemma_split_nonempty(s: Seq<char>, d: char)
    ensures
        split_on(s, d).len() >= 1,
{
    lemma_split_rec_len(s, d, Seq::empty(), Seq::empty());
}

proof fn lemma_split_rec_len(s: Seq<char>, d: char, cur: Seq<char>, out: Seq<Seq<char>>)
    ensures
        split_rec(s, d, cur, out).len() > out.len(),
    decreases s.len(),
{
    if s.len() == 0 {
    } else if s[0] == d {
        lemma_split_rec_len(s.drop_first(), d, Seq::empty(), out.push(cur));
    } else {
        lemma_split_rec_len(s.drop_first(), d, cur.push(s[0]), out);
    }
}

/// Converts one field, with its parse outcome, to a cell of the given column
/// type; `None` where the field does not convert to that type.
fn convert_field(t: ColumnType, f: &Vec<char>, pe: Option<u64>) -> (r: Option<CellType>)
    ensures
        match r {
            Some(c) => cell_convertible(t, f@, pe) && cell_represents(c, t, f@, pe),
            None => !cell_convertible(t, f@, pe),
        },
{
    match t {
        ColumnType::Integer => match parse_int(f) {
            Some(i) => Some(CellType::Integer(i)),
            None => None,
        },
        ColumnType::Float => match pe {
            Some(b) => Some(CellType::Float(b)),
            None => None,
        },
        ColumnType::Text => Some(CellType::Text(chars_to_string(f))),
        ColumnType::Boolean => match parse_bool(f) {
            Some(b) => Some(CellType::Boolean(b)),
            None => None,
        },
    }
}

impl CSVFile {
    /// The comma-separated fields of every data line (each line after the
    /// header), as strings. A caller parses each field as a float where it
    /// can and hands `DataFrame::from_csv` the matrix of outcomes, indexed
    /// like this result.
    pub fn data_fields(&self) -> (out: Vec<Vec<String>>)
        ensures
            csv_lines(self.0@).len() >= 1 ==> out@.len() == csv_lines(self.0@).len() - 1,
            csv_lines(self.0@).len() == 0 ==> out@.len() == 0,
            forall|k: int|
                0 <= k < out@.len() ==> strviews((#[trigger] out@[k])@) == row_fields(
                    csv_lines(self.0@)[k + 1],
                ),
    {
        let ghost text = self.0@;
        let chars = str_chars(self.0.as_str());
        let lines = csv_split_lines(&chars);
        let mut out: Vec<Vec<String>> = Vec::new();
        let mut k: usize = 1;
        while k < lines.len()
            invariant
                1 <= k,
                k <= lines@.len() || (lines@.len() == 0 && k == 1),
                text == self.0@,
                vviews(lines@) == csv_lines(text),
                out@.len() == k - 1,
                forall|m: int|
                    0 <= m < out@.len() ==> strviews((#[trigger] out@[m])@) == row_fields(
                        csv_lines(text)[m + 1],
                    ),
            decreases lines@.len() - k,
        {
            let fields = split_chars(&lines[k], ',');
            proof {
                assert(lines@[k as int]@ == vviews(lines@)[k as int]);
            }
            let mut srow: Vec<String> = Vec::new();
            let mut j: usize = 0;
            while j < fields.len()
                invariant
                    j <= fields@.len(),
                    srow@.len() == j,
                    forall|m: int| 0 <= m < j ==> (#[trigger] srow@[m])@ == vviews(fields@)[m],
                decreases fields@.len() - j,
            {
                proof {
                    assert(fields@[j as int]@ == vviews(fields@)[j as int]);
                }
                srow.push(chars_to_string(&fields[j]));
                j = j + 1;
            }
            proof {
                assert(strviews(srow@) =~= row_fields(csv_lines(text)[k as int]));
                assert(forall|m: int|
                    0 <= m < out@.len() ==> (#[trigger] out@.push(srow)[m]) == out@[m]);
            }
            out.push(srow);
            k = k + 1;
        }
        out
    }
}

impl DataFrame {
    /// Parses delimited text into a typed table: the header names the
    /// columns, the first data line fixes each column's type (Float where the
    /// caller's parse of its field succeeded, Text otherwise), and every data
    /// line, including the first, is converted against that schema.
    /// `parses` is the caller's float-parse outcome for each data field,
    /// indexed as `CSVFile::data_fields` hands them out. Errors report the
    /// first offending data row, and within it the first offending field; an
    /// arity failure is reported before any conversion failure of the same
    /// row.
    pub fn from_csv(file: &CSVFile, parses: &Vec<Vec<Option<u64>>>) -> (res: Result<
        DataFrame,
        IngestError,
    >)
        ensures
            match res {
                Ok(df) => {
                    &&& csv_ok(file.0@, pviews(parses@))
                    &&& df.wf()
                    &&& df.columns@.len() == header_names(file.0@).len()
                    &&& forall|j: int|
                        0 <= j < df.columns@.len() ==> {
                            &&& (#[trigger] df.columns@[j]).name@ == header_names(file.0@)[j]
                            &&& df.columns@[j].data_type == csv_types(
                                file.0@,
                                pviews(parses@),
                            )[j]
                            &&& df.columns@[j].index == j
                        }
                    &&& df.rows@.len() == csv_lines(file.0@).len() - 1
                    &&& forall|k: int, j: int|
                        0 <= k < df.rows@.len() && 0 <= j < df.columns@.len()
                            ==> cell_represents(
                            #[trigger] df.rows@[k].cells@[j],
                            csv_types(file.0@, pviews(parses@))[j],
                            row_fields(csv_lines(file.0@)[k + 1])[j],
                            parse_at(pviews(parses@), k, j),
                        )
                },
                Err(IngestError::MissingHeader) => csv_lines(file.0@).len() == 0,
                Err(IngestError::MissingData) => csv_lines(file.0@).len() == 1,
                Err(IngestError::RowArity { row, expected, found }) => {
                    &&& csv_lines(file.0@).len() >= 2
                    &&& row + 1 < csv_lines(file.0@).len()
                    &&& expected == header_names(file.0@).len()
                    &&& found == row_fields(csv_lines(file.0@)[row + 1]).len()
                    &&& found != expected
                    &&& forall|m: int| 1 <= m < row + 1 ==> data_row_ok(file.0@, pviews(parses@), m)
                },
                Err(IngestError::TypeMismatch { row, column }) => {
                    &&& csv_lines(file.0@).len() >= 2
                    &&& row + 1 < csv_lines(file.0@).len()
                    &&& row_fields(csv_lines(file.0@)[row + 1]).len() == header_names(
                        file.0@,
                    ).len()
                    &&& column < csv_types(file.0@, pviews(parses@)).len()
                    &&& !cell_convertible(
                        csv_types(file.0@, pviews(parses@))[column as int],
                        row_fields(csv_lines(file.0@)[row + 1])[column as int],
                        parse_at(pviews(parses@), row as int, column as int),
                    )
                    &&& forall|j: int|
                        0 <= j < column ==> cell_convertible(
                            #[trigger] csv_types(file.0@, pviews(parses@))[j],
                            row_fields(csv_lines(file.0@)[row + 1])[j],
                            parse_at(pviews(parses@), row as int, j),
                        )
                    &&& forall|m: int| 1 <= m < row + 1 ==> data_row_ok(file.0@, pviews(parses@), m)
                },
            },
    {
        let ghost text = file.0@;
        let ghost pv = pviews(parses@);
        let chars = str_chars(file.0.as_str());
        let lines = csv_split_lines(&chars);
        proof {
            assert(vviews(lines@) == csv_lines(text));
        }
        if lines.len() == 0 {
            return Err(IngestError::MissingHeader);
        }
        if lines.len() == 1 {
            return Err(IngestError::MissingData);
        }
        let header = split_chars(&lines[0], ',');
        proof {
            assert(lines@[0]@ == vviews(lines@)[0]);
            assert(vviews(header@) == header_names(text));
        }
        let first = split_chars(&lines[1], ',');
        proof {
            assert(lines@[1]@ == vviews(lines@)[1]);
            assert(vviews(first@) == row_fields(csv_lines(text)[1]));
            assert(csv_types(text, pv).len() == vviews(first@).len());
        }
        if first.len() != header.len() {
            return Err(
                IngestError::RowArity { row: 0, expected: header.len(), found: first.len() },
            );
        }
        // Build the schema: inferred types zipped with header names.
        let mut columns: Vec<Column> = Vec::new();
        let mut j: usize = 0;
        while j < header.len()
            invariant
                j <= header@.len(),
                header@.len() == first@.len(),
                text == file.0@,
                pv == pviews(parses@),
                vviews(header@) == header_names(text),
                vviews(first@) == row_fields(csv_lines(text)[1]),
                csv_types(text, pv).len() == first@.len(),
                columns@.len() == j,
                forall|m: int|
                    0 <= m < j ==> {
                        &&& (#[trigger] columns@[m]).name@ == header_names(text)[m]
                        &&& columns@[m].data_type == csv_types(text, pv)[m]
                        &&& columns@[m].index == m
                    },
            decreases header@.len() - j,
        {
            let pe0: Option<u64> = if parses.len() > 0 {
                let prow = &parses[0];
                if j < prow.len() {
                    prow[j]
                } else {
                    None
                }
            } else {
                None
            };
            proof {
                if parses@.len() > 0 {
                    assert(parses@[0]@ == pv[0]);
                }
                assert(pe0 == parse_at(pv, 0, j as int));
                assert(first@[j as int]@ == vviews(first@)[j as int]);
            }
            let t = if parse_int(&first[j]).is_some() {
                ColumnType::Integer
            } else if parse_bool(&first[j]).is_some() {
                ColumnType::Boolean
            } else {
                match pe0 {
                    Some(_) => ColumnType::Float,
                    None => ColumnType::Text,
                }
            };
            proof {
                assert(t == csv_types(text, pv)[j as int]);
                assert(header@[j as int]@ == vviews(header@)[j as int]);
            }
            columns.push(Column { data_type: t, name: chars_to_string(&header[j]), index: j });
            j = j + 1;
        }
        // Convert every data line, the first included, against the schema.
        let mut rows: Vec<Row> = Vec::new();
        let mut k: usize = 1;
        while k < lines.len()
            invariant
                1 <= k <= lines@.len(),
                2 <= lines@.len(),
                text == file.0@,
                pv == pviews(parses@),
                vviews(lines@) == csv_lines(text),
                vviews(header@) == header_names(text),
                csv_types(text, pv).len() == header@.len(),
                columns@.len() == header@.len(),
                forall|m: int|
                    0 <= m < columns@.len() ==> {
                        &&& (#[trigger] columns@[m]).name@ == header_names(text)[m]
                        &&& columns@[m].data_type == csv_types(text, pv)[m]
                        &&& columns@[m].index == m
                    },
                rows@.len() == k - 1,
                forall|m: int| 1 <= m < k ==> data_row_ok(text, pv, m),
                forall|m: int|
                    0 <= m < rows@.len() ==> (#[trigger] rows@[m]).cells@.len() == columns@.len(),
                forall|m: int, n: int|
                    0 <= m < rows@.len() && 0 <= n < columns@.len() ==> cell_represents(
                        #[trigger] rows@[m].cells@[n],
                        csv_types(text, pv)[n],
                        row_fields(csv_lines(text)[m + 1])[n],
                        parse_at(pv, m, n),
                    ),
            decreases lines@.len() - k,
        {
            let fields = split_chars(&lines[k], ',');
            proof {
                assert(lines@[k as int]@ == vviews(lines@)[k as int]);
                assert(vviews(fields@) == row_fields(csv_lines(text)[k as int]));
            }
            if fields.len() != header.len() {
                return Err(
                    IngestError::RowArity {
                        row: k - 1,
                        expected: header.len(),
                        found: fields.len(),
                    },
                );
            }
            let mut cells: Vec<CellType> = Vec::new();
            let mut n: usize = 0;
            while n < fields.len()
                invariant
                    n <= fields@.len(),
                    fields@.len() == columns@.len(),
                    1 <= k < lines@.len(),
                    2 <= lines@.len(),
                    text == file.0@,
                    pv == pviews(parses@),
                    vviews(lines@) == csv_lines(text),
                    vviews(header@) == header_names(text),
                    columns@.len() == header@.len(),
                    forall|m: int| 1 <= m < k ==> data_row_ok(text, pv, m),
                    vviews(fields@) == row_fields(csv_lines(text)[k as int]),
                    csv_types(text, pv).len() == columns@.len(),
                    forall|m: int|
                        0 <= m < columns@.len() ==> (#[trigger] columns@[m]).data_type
                            == csv_types(text, pv)[m],
                    cells@.len() == n,
                    forall|m: int|
                        0 <= m < n ==> cell_represents(
                            #[trigger] cells@[m],
                            csv_types(text, pv)[m],
                            row_fields(csv_lines(text)[k as int])[m],
                            parse_at(pv, k - 1, m),
                        ),
                decreases fields@.len() - n,
            {
                let pe: Option<u64> = if k - 1 < parses.len() {
                    let prow = &parses[k - 1];
                    if n < prow.len() {
                        prow[n]
                    } else {
                        None
                    }
                } else {
                    None
                };
                proof {
                    if k - 1 < parses@.len() {
                        assert(parses@[k - 1]@ == pv[k - 1]);
                    }
                    assert(pe == parse_at(pv, k - 1, n as int));
                    assert(fields@[n as int]@ == vviews(fields@)[n as int]);
                }
                match convert_field(columns[n].data_type, &fields[n], pe) {
                    Some(c) => {
                        cells.push(c);
                    },
                    None => {
                        proof {
                            assert forall|j2: int| 0 <= j2 < n implies cell_convertible(
                                #[trigger] csv_types(text, pv)[j2],
                                row_fields(csv_lines(text)[k as int])[j2],
                                parse_at(pv, k - 1, j2),
                            ) by {
                                assert(cell_represents(
                                    cells@[j2],
                                    csv_types(text, pv)[j2],
                                    row_fields(csv_lines(text)[k as int])[j2],
                                    parse_at(pv, k - 1, j2),
                                ));
                            }
                        }
                        return Err(IngestError::TypeMismatch { row: k - 1, column: n });
                    },
                }
                n = n + 1;
            }
            proof {
                assert forall|j2: int| 0 <= j2 < csv_types(text, pv).len() implies cell_convertible(
                    #[trigger] csv_types(text, pv)[j2],
                    row_fields(csv_lines(text)[k as int])[j2],
                    parse_at(pv, k - 1, j2),
                ) by {
                    assert(cell_represents(
                        cells@[j2],
                        csv_types(text, pv)[j2],
                        row_fields(csv_lines(text)[k as int])[j2],
                        parse_at(pv, k - 1, j2),
                    ));
                }
                assert(data_row_ok(text, pv, k as int));
            }
            rows.push(Row { cells });
            k = k + 1;
        }
        let count = rows.len();
        let cols = columns.len();
        let df = DataFrame { rows, count, cols, columns };
        proof {
            assert forall|i: int| 0 <= i < df.rows@.len() implies (#[trigger] df.rows@[i]).conforms_to(
                df.columns@,
            ) by {
                assert forall|n: int| 0 <= n < df.columns@.len() implies kind_of(
                    #[trigger] df.rows@[i].cells@[n],
                ) == df.columns@[n].data_type by {
                    lemma_represents_kind(
                        df.rows@[i].cells@[n],
                        csv_types(text, pv)[n],
                        row_fields(csv_lines(text)[i + 1])[n],
                        parse_at(pv, i, n),
                    );
                }
            }
        }
        Ok(df)
    }
}

} // verus!
