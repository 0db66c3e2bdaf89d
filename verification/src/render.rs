//! The renderer: formats a table as a fixed-width text grid — one header
//! line (column name plus bracketed type), a separator line of dashes sized
//! to the first body line, one line per row with cells padded to the display
//! width and separated by `|`, and long text truncated with an ellipsis.
//!
//! The two-decimal text of a Float cell is floating-point work, which this
//! verified core cannot hold; the caller supplies it (`float_text`), indexed
//! by row and column and consulted only for Float cells. Everything else —
//! padding, truncation, alignment, the header and the separator — is computed
//! here, and the output is pinned to a function of the table, the width and
//! the supplied text alone: rendering the same table twice with the same
//! arguments yields the same string.

use vstd::prelude::*;

use crate::cell::{CellType, Column, ColumnType};
use crate::ingest::strviews;
use crate::table::{DataFrame, Row};
use crate::text::{chars_to_string, str_chars};

verus! {

/// The default display width of one column, in characters.
pub const DISPLAY_COLUMN_WIDTH: usize = 20;

pub open spec fn spaces(n: nat) -> Seq<char> {
    Seq::new(n, |i: int| ' ')
}

pub open spec fn dashes(n: nat) -> Seq<char> {
    Seq::new(n, |i: int| '-')
}

/// Right-aligned: spaces in front, none where the text already fills the width.
pub open spec fn pad_left(s: Seq<char>, w: nat) -> Seq<char> {
    if s.len() >= w {
        s
    } else {
        spaces((w - s.len()) as nat) + s
    }
}

/// Left-aligned: spaces behind, none where the text already fills the width.
pub open spec fn pad_right(s: Seq<char>, w: nat) -> Seq<char> {
    if s.len() >= w {
        s
    } else {
        s + spaces((w - s.len()) as nat)
    }
}

/// How many characters of over-long text survive truncation: the width less
/// the three the ellipsis takes.
pub open spec fn keep_width(w: nat) -> nat {
    if w >= 3 {
        (w - 3) as nat
    } else {
        0
    }
}

/// Text display: left-aligned, and truncated to the width with a trailing
/// ellipsis where it is longer than the width.
pub open spec fn text_display(s: Seq<char>, w: nat) -> Seq<char> {
    if s.len() > w {
        s.take(keep_width(w) as int) + seq!['.', '.', '.']
    } else {
        pad_right(s, w)
    }
}

pub open spec fn dec_digit(n: int) -> char {
    seq!['0', '1', '2', '3', '4', '5', '6', '7', '8', '9'][n]
}

/// The decimal digits of a natural number, most significant first.
pub open spec fn dec_of_nat(n: nat) -> Seq<char>
    decreases n,
{
    if n < 10 {
        seq![dec_digit(n as int)]
    } else {
        dec_of_nat(n / 10).push(dec_digit((n % 10) as int))
    }
}

/// The decimal form of an integer, `-`-prefixed where negative.
pub open spec fn dec_of_int(i: int) -> Seq<char> {
    if i >= 0 {
        dec_of_nat(i as nat)
    } else {
        seq!['-'] + dec_of_nat((-i) as nat)
    }
}

/// The character of one decimal digit.
fn dec_digit_char(d: u64) -> (r: char)
    requires
        d < 10,
    ensures
        r == dec_digit(d as int),
{
    let r = match d {
        0 => '0',
        1 => '1',
        2 => '2',
        3 => '3',
        4 => '4',
        5 => '5',
        6 => '6',
        7 => '7',
        8 => '8',
        _ => '9',
    };
    proof {
        assert(r == dec_digit(d as int));
    }
    r
}

/// The decimal digits of a natural number, most significant first.
fn nat_to_decimal(n: u64) -> (r: Vec<char>)
    ensures
        r@ == dec_of_nat(n as nat),
    decreases n,
{
    if n < 10 {
        let mut r: Vec<char> = Vec::new();
        r.push(dec_digit_char(n));
        proof {
            assert(r@ =~= dec_of_nat(n as nat));
        }
        r
    } else {
        let mut r = nat_to_decimal(n / 10);
        r.push(dec_digit_char(n % 10));
        r
    }
}

/// The decimal form of an integer, `-`-prefixed where negative.
fn int_to_decimal(i: i64) -> (r: Vec<char>)
    ensures
        r@ == dec_of_int(i as int),
{
    if i >= 0 {
        nat_to_decimal(i as u64)
    } else {
        let m: u64 = if i == i64::MIN {
            9223372036854775808u64
        } else {
            (-i) as u64
        };
        proof {
            assert(m as nat == (-(i as int)) as nat);
        }
        let mut r: Vec<char> = Vec::new();
        r.push('-');
        let digits = nat_to_decimal(m);
        push_all(&mut r, &digits);
        proof {
            assert(r@ =~= dec_of_int(i as int));
        }
        r
    }
}

/// The bracketed label of a column type in the header line.
pub open spec fn type_label(t: ColumnType) -> Seq<char> {
    match t {
        ColumnType::Integer => seq!['I', 'n', 't', 'e', 'g', 'e', 'r'],
        ColumnType::Float => seq!['F', 'l', 'o', 'a', 't'],
        ColumnType::Text => seq!['T', 'e', 'x', 't'],
        ColumnType::Boolean => seq!['B', 'o', 'o', 'l', 'e', 'a', 'n'],
    }
}

pub open spec fn bool_chars(b: bool) -> Seq<char> {
    if b {
        seq!['t', 'r', 'u', 'e']
    } else {
        seq!['f', 'a', 'l', 's', 'e']
    }
}

/// One cell's display at width `w`: numbers and booleans right-aligned, text
/// left-aligned and truncated; `ft` is the caller-formatted text of a Float
/// cell and is ignored for every other kind.
pub open spec fn cell_display(c: CellType, w: nat, ft: Seq<char>) -> Seq<char> {
    match c {
        CellType::Integer(i) => pad_left(dec_of_int(i as int), w),
        CellType::Float(_) => pad_left(ft, w),
        CellType::Text(s) => text_display(s@, w),
        CellType::Boolean(b) => pad_left(bool_chars(b), w),
    }
}

/// The caller-supplied float text for field `j`; missing entries are empty.
pub open spec fn ft_at(fts: Seq<Seq<char>>, j: int) -> Seq<char> {
    if 0 <= j < fts.len() {
        fts[j]
    } else {
        Seq::empty()
    }
}

/// A row's first `n` cells displayed and joined with `|`.
pub open spec fn row_display(cells: Seq<CellType>, w: nat, fts: Seq<Seq<char>>, n: int) -> Seq<
    char,
>
    decreases n,
{
    if n <= 0 {
        Seq::empty()
    } else if n == 1 {
        cell_display(cells[0], w, ft_at(fts, 0))
    } else {
        row_display(cells, w, fts, n - 1) + seq!['|'] + cell_display(cells[n - 1], w, ft_at(fts, n - 1))
    }
}

/// One header cell: the column name, a space, and the bracketed type label,
/// left-aligned to the width.
pub open spec fn header_cell(c: Column, w: nat) -> Seq<char> {
    pad_right(c.name@ + seq![' ', '['] + type_label(c.data_type) + seq![']'], w)
}

/// The first `n` header cells joined with `|`.
pub open spec fn header_display(cols: Seq<Column>, w: nat, n: int) -> Seq<char>
    decreases n,
{
    if n <= 0 {
        Seq::empty()
    } else if n == 1 {
        header_cell(cols[0], w)
    } else {
        header_display(cols, w, n - 1) + seq!['|'] + header_cell(cols[n - 1], w)
    }
}

/// The views of a float-text matrix.
pub open spec fn ftmviews(v: Seq<Vec<String>>) -> Seq<Seq<Seq<char>>> {
    Seq::new(v.len(), |i: int| strviews(v[i]@))
}

/// The caller-supplied float text row `k`; missing rows are empty.
pub open spec fn ftm_at(ftm: Seq<Seq<Seq<char>>>, k: int) -> Seq<Seq<char>> {
    if 0 <= k < ftm.len() {
        ftm[k]
    } else {
        Seq::empty()
    }
}

/// The body: the first `n` rows, each displayed and newline-terminated.
pub open spec fn body_display(rows: Seq<Row>, w: nat, ftm: Seq<Seq<Seq<char>>>, n: int) -> Seq<
    char,
>
    decreases n,
{
    if n <= 0 {
        Seq::empty()
    } else {
        body_display(rows, w, ftm, n - 1) + row_display(
            rows[n - 1].cells@,
            w,
            ftm_at(ftm, n - 1),
            rows[n - 1].cells@.len() as int,
        ) + seq!['\n']
    }
}

/// The separator's length: that of the first displayed row, or zero for a
/// rowless table.
pub open spec fn separator_len(rows: Seq<Row>, w: nat, ftm: Seq<Seq<Seq<char>>>) -> nat {
    if rows.len() > 0 {
        row_display(rows[0].cells@, w, ftm_at(ftm, 0), rows[0].cells@.len() as int).len()
    } else {
        0
    }
}

/// The whole grid: header, separator, newline-terminated rows, separator.
pub open spec fn table_display(df: DataFrame, w: nat, ftm: Seq<Seq<Seq<char>>>) -> Seq<char> {
    header_display(df.columns@, w, df.columns@.len() as int) + seq!['\n'] + dashes(
        separator_len(df.rows@, w, ftm),
    ) + seq!['\n'] + body_display(df.rows@, w, ftm, df.rows@.len() as int) + dashes(
        separator_len(df.rows@, w, ftm),
    )
}

/// Appends every character of `v` to `buf`.
fn push_all(buf: &mut Vec<char>, v: &Vec<char>)
    ensures
        final(buf)@ == old(buf)@ + v@,
{
    let mut i: usize = 0;
    while i < v.len()
        invariant
            i <= v@.len(),
            buf@ == old(buf)@ + v@.take(i as int),
        decreases v@.len() - i,
    {
        buf.push(v[i]);
        proof {
            assert(old(buf)@ + v@.take(i + 1 as int) =~= (old(buf)@ + v@.take(i as int)).push(
                v@[i as int],
            ));
        }
        i = i + 1;
    }
    proof {
        assert(old(buf)@ + v@.take(v@.len() as int) =~= old(buf)@ + v@);
    }
}

/// Appends `n` copies of `c` to `buf`.
fn push_repeat(buf: &mut Vec<char>, c: char, n: usize)
    ensures
        final(buf)@ == old(buf)@ + Seq::new(n as nat, |i: int| c),
{
    let mut i: usize = 0;
    while i < n
        invariant
            i <= n,
            buf@ == old(buf)@ + Seq::new(i as nat, |t: int| c),
        decreases n - i,
    {
        buf.push(c);
        proof {
            assert(old(buf)@ + Seq::new((i + 1) as nat, |t: int| c) =~= (old(buf)@ + Seq::new(
                i as nat,
                |t: int| c,
            )).push(c));
        }
        i = i + 1;
    }
}

/// Right-aligns `v` to width `w`.
fn pad_left_chars(v: Vec<char>, w: usize) -> (r: Vec<char>)
    ensures
        r@ == pad_left(v@, w as nat),
{
    if v.len() >= w {
        return v;
    }
    let mut out: Vec<char> = Vec::new();
    push_repeat(&mut out, ' ', w - v.len());
    proof {
        assert(out@ =~= spaces((w - v@.len()) as nat));
    }
    push_all(&mut out, &v);
    out
}

/// Left-aligns `v` to width `w`.
fn pad_right_chars(mut v: Vec<char>, w: usize) -> (r: Vec<char>)
    ensures
        r@ == pad_right(v@, w as nat),
{
    if v.len() >= w {
        return v;
    }
    let n = w - v.len();
    push_repeat(&mut v, ' ', n);
    v
}

/// The characters of a column type's label.
fn type_label_chars(t: ColumnType) -> (r: Vec<char>)
    ensures
        r@ == type_label(t),
{
    let mut v: Vec<char> = Vec::new();
    match t {
        ColumnType::Integer => {
            v.push('I');
            v.push('n');
            v.push('t');
            v.push('e');
            v.push('g');
            v.push('e');
            v.push('r');
            proof {
                assert(v@ =~= type_label(t));
            }
        },
        ColumnType::Float => {
            v.push('F');
            v.push('l');
            v.push('o');
            v.push('a');
            v.push('t');
            proof {
                assert(v@ =~= type_label(t));
            }
        },
        ColumnType::Text => {
            v.push('T');
            v.push('e');
            v.push('x');
            v.push('t');
            proof {
                assert(v@ =~= type_label(t));
            }
        },
        ColumnType::Boolean => {
            v.push('B');
            v.push('o');
            v.push('o');
            v.push('l');
            v.push('e');
            v.push('a');
            v.push('n');
            proof {
                assert(v@ =~= type_label(t));
            }
        },
    }
    v
}

/// One cell's display, as characters.
fn cell_display_chars(c: &CellType, w: usize, ft: &Vec<char>) -> (r: Vec<char>)
    ensures
        r@ == cell_display(*c, w as nat, ft@),
{
    match c {
        CellType::Integer(i) => {
            let digits = int_to_decimal(*i);
            pad_left_chars(digits, w)
        },
        CellType::Float(_) => {
            let mut copy: Vec<char> = Vec::new();
            push_all(&mut copy, ft);
            proof {
                assert(copy@ =~= ft@);
            }
            pad_left_chars(copy, w)
        },
        CellType::Text(s) => {
            let chars = str_chars(s.as_str());
            if chars.len() > w {
                let keep: usize = if w >= 3 {
                    w - 3
                } else {
                    0
                };
                let mut out: Vec<char> = Vec::new();
                let mut i: usize = 0;
                while i < keep
                    invariant
                        i <= keep,
                        keep <= chars@.len(),
                        out@ == chars@.take(i as int),
                    decreases keep - i,
                {
                    out.push(chars[i]);
                    proof {
                        assert(out@ =~= chars@.take(i + 1 as int));
                    }
                    i = i + 1;
                }
                out.push('.');
                out.push('.');
                out.push('.');
                proof {
                    assert(out@ =~= chars@.take(keep_width(w as nat) as int) + seq![
                        '.',
                        '.',
                        '.',
                    ]);
                }
                out
            } else {
                pad_right_chars(chars, w)
            }
        },
        CellType::Boolean(b) => {
            let mut v: Vec<char> = Vec::new();
            if *b {
                v.push('t');
                v.push('r');
                v.push('u');
                v.push('e');
            } else {
                v.push('f');
                v.push('a');
                v.push('l');
                v.push('s');
                v.push('e');
            }
            proof {
                assert(v@ =~= bool_chars(*b));
            }
            pad_left_chars(v, w)
        },
    }
}

/// One row's display, as characters.
fn row_display_chars(row: &Row, w: usize, fts: &Vec<String>) -> (r: Vec<char>)
    ensures
        r@ == row_display(row.cells@, w as nat, strviews(fts@), row.cells@.len() as int),
{
    let mut buf: Vec<char> = Vec::new();
    let mut j: usize = 0;
    while j < row.cells.len()
        invariant
            j <= row.cells@.len(),
            buf@ == row_display(row.cells@, w as nat, strviews(fts@), j as int),
        decreases row.cells@.len() - j,
    {
        let ftj: Vec<char> = if j < fts.len() {
            str_chars(fts[j].as_str())
        } else {
            Vec::new()
        };
        proof {
            if j < fts@.len() {
                assert(strviews(fts@)[j as int] == fts@[j as int]@);
            }
            assert(ftj@ == ft_at(strviews(fts@), j as int));
        }
        if j > 0 {
            buf.push('|');
        }
        let cell = cell_display_chars(&row.cells[j], w, &ftj);
        push_all(&mut buf, &cell);
        j = j + 1;
    }
    buf
}

impl Row {
    /// This row as one fixed-width display line; `float_text` is the
    /// caller-formatted text of each Float cell, indexed by cell position.
    pub fn render(&self, width: usize, float_text: &Vec<String>) -> (r: String)
        ensures
            r@ == row_display(
                self.cells@,
                width as nat,
                strviews(float_text@),
                self.cells@.len() as int,
            ),
    {
        let chars = row_display_chars(self, width, float_text);
        chars_to_string(&chars)
    }
}

/// The header line, as characters.
fn header_chars(cols: &Vec<Column>, w: usize) -> (r: Vec<char>)
    ensures
        r@ == header_display(cols@, w as nat, cols@.len() as int),
{
    let mut buf: Vec<char> = Vec::new();
    let mut j: usize = 0;
    while j < cols.len()
        invariant
            j <= cols@.len(),
            buf@ == header_display(cols@, w as nat, j as int),
        decreases cols@.len() - j,
    {
        if j > 0 {
            buf.push('|');
        }
        let mut cell: Vec<char> = str_chars(cols[j].name.as_str());
        cell.push(' ');
        cell.push('[');
        let label = type_label_chars(cols[j].data_type);
        push_all(&mut cell, &label);
        cell.push(']');
        proof {
            assert(cell@ =~= cols@[j as int].name@ + seq![' ', '['] + type_label(
                cols@[j as int].data_type,
            ) + seq![']']);
        }
        let cell = pad_right_chars(cell, w);
        push_all(&mut buf, &cell);
        j = j + 1;
    }
    buf
}

impl DataFrame {
    /// This table as a fixed-width text grid. `float_text` is the
    /// caller-formatted text of each Float cell, indexed by row and by cell
    /// position; it is consulted only for Float cells. The output is a
    /// function of the table, the width and `float_text` alone, so rendering
    /// the same table twice yields identical output.
    pub fn render(&self, width: usize, float_text: &Vec<Vec<String>>) -> (r: String)
        ensures
            r@ == table_display(*self, width as nat, ftmviews(float_text@)),
    {
        let ghost ftm = ftmviews(float_text@);
        let empty_row: Vec<String> = Vec::new();
        let mut body: Vec<char> = Vec::new();
        let mut sep_len: usize = 0;
        let mut k: usize = 0;
        while k < self.rows.len()
            invariant
                k <= self.rows@.len(),
                ftm == ftmviews(float_text@),
                empty_row@.len() == 0,
                body@ == body_display(self.rows@, width as nat, ftm, k as int),
                sep_len as nat == if k > 0 {
                    separator_len(self.rows@, width as nat, ftm)
                } else {
                    0
                },
            decreases self.rows@.len() - k,
        {
            let rc: Vec<char> = if k < float_text.len() {
                let rcx = row_display_chars(&self.rows[k], width, &float_text[k]);
                proof {
                    assert(strviews(float_text@[k as int]@) == ftm_at(ftm, k as int));
                }
                rcx
            } else {
                let rcx = row_display_chars(&self.rows[k], width, &empty_row);
                proof {
                    assert(strviews(empty_row@) =~= ftm_at(ftm, k as int));
                }
                rcx
            };
            if k == 0 {
                sep_len = rc.len();
            }
            push_all(&mut body, &rc);
            body.push('\n');
            proof {
                assert(body@ =~= body_display(self.rows@, width as nat, ftm, k + 1 as int));
            }
            k = k + 1;
        }
        let mut out = header_chars(&self.columns, width);
        out.push('\n');
        push_repeat(&mut out, '-', sep_len);
        out.push('\n');
        push_all(&mut out, &body);
        push_repeat(&mut out, '-', sep_len);
        proof {
            assert(out@ =~= table_display(*self, width as nat, ftm));
        }
        chars_to_string(&out)
    }
}

} // verus!
