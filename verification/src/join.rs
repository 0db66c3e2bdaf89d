//! The join operator: correlates two tables on a named key column and
//! produces a new table whose schema is the left schema followed by the right
//! schema (the key column is retained from both sides). Outer variants keep
//! unmatched rows, filling the missing side's cells with nulls, so joined
//! rows hold optional cells; the core tables themselves stay free of nulls.

use vstd::prelude::*;

use crate::cell::{cell_eq, kind_of, CellType, Column};
use crate::table::{DataFrame, Row};

verus! {

/// The join variants. Inner variants emit matched pairs only; the Left/Right
/// prefix says which side drives the output order. Outer variants also keep
/// the driving side's unmatched rows; Full keeps unmatched rows of both sides.
#[derive(Debug, Clone, Copy)]
pub enum Joins {
    LeftInner,
    RightInner,
    LeftOuter,
    RightOuter,
    Full,
}

/// Which operand of a join a failure refers to.
#[derive(Debug, Clone, Copy, PartialEq, Eq, Structural)]
pub enum JoinSide {
    Left,
    Right,
}

/// Failure of a join: a side does not have a column with the requested name.
/// Name matching is case-sensitive and exact.
#[derive(Debug)]
pub enum JoinError {
    ColumnNotFound { side: JoinSide, name: String },
}

/// One row of a join result: one optional cell per output column. `None`
/// stands for the null placeholder that outer joins put in the cells of a
/// side that had no matching row.
#[derive(Debug)]
pub struct JoinRow {
    pub cells: Vec<Option<CellType>>,
}

/// The result of a join: rows of optional cells under the combined schema.
/// As in `DataFrame`, the cached counts always equal the sequence lengths.
#[derive(Debug)]
pub struct JoinFrame {
    pub rows: Vec<JoinRow>,
    pub count: usize,
    pub cols: usize,
    pub columns: Vec<Column>,
}

/// A sequence of cells, each wrapped as present.
pub open spec fn cells_some(s: Seq<CellType>) -> Seq<Option<CellType>> {
    Seq::new(s.len(), |i: int| Some(s[i]))
}

/// `n` null cells.
pub open spec fn nulls(n: nat) -> Seq<Option<CellType>> {
    Seq::new(n, |i: int| None::<CellType>)
}

/// A matched output row: the left row's cells followed by the right row's.
pub open spec fn combined_cells(l: Seq<CellType>, r: Seq<CellType>) -> Seq<Option<CellType>> {
    cells_some(l) + cells_some(r)
}

/// An unmatched left row: its cells followed by `rw` nulls.
pub open spec fn left_padded_cells(l: Seq<CellType>, rw: nat) -> Seq<Option<CellType>> {
    cells_some(l) + nulls(rw)
}

/// An unmatched right row: `lw` nulls followed by its cells.
pub open spec fn right_padded_cells(lw: nat, r: Seq<CellType>) -> Seq<Option<CellType>> {
    nulls(lw) + cells_some(r)
}

/// Whether a left row and a right row agree on the join key: the cell at the
/// left key position equals the cell at the right key position, by kind and
/// value. Mismatched kinds never match.
pub open spec fn key_match(l: Row, r: Row, li: int, ri: int) -> bool {
    cell_eq(l.cells@[li], r.cells@[ri])
}

/// The cell sequences of a sequence of join rows.
pub open spec fn jrows_view(rs: Seq<JoinRow>) -> Seq<Seq<Option<CellType>>> {
    Seq::new(rs.len(), |i: int| rs[i].cells@)
}

/// The matched output rows of one left row against the first `n` right rows,
/// in right-row order.
pub open spec fn left_matches_upto(l: Row, rrows: Seq<Row>, n: int, li: int, ri: int) -> Seq<
    Seq<Option<CellType>>,
>
    decreases n,
{
    if n <= 0 {
        Seq::empty()
    } else {
        left_matches_upto(l, rrows, n - 1, li, ri) + if key_match(l, rrows[n - 1], li, ri) {
            seq![combined_cells(l.cells@, rrows[n - 1].cells@)]
        } else {
            Seq::empty()
        }
    }
}

/// Whether a left row matches any of the first `n` right rows.
pub open spec fn left_has_match_upto(l: Row, rrows: Seq<Row>, n: int, li: int, ri: int) -> bool
    decreases n,
{
    if n <= 0 {
        false
    } else {
        left_has_match_upto(l, rrows, n - 1, li, ri) || key_match(l, rrows[n - 1], li, ri)
    }
}

/// The matched output rows of one right row against the first `n` left rows,
/// in left-row order; cells stay in left-then-right order.
pub open spec fn right_matches_upto(r: Row, lrows: Seq<Row>, n: int, li: int, ri: int) -> Seq<
    Seq<Option<CellType>>,
>
    decreases n,
{
    if n <= 0 {
        Seq::empty()
    } else {
        right_matches_upto(r, lrows, n - 1, li, ri) + if key_match(lrows[n - 1], r, li, ri) {
            seq![combined_cells(lrows[n - 1].cells@, r.cells@)]
        } else {
            Seq::empty()
        }
    }
}

/// Whether a right row matches any of the first `n` left rows.
pub open spec fn right_has_match_upto(r: Row, lrows: Seq<Row>, n: int, li: int, ri: int) -> bool
    decreases n,
{
    if n <= 0 {
        false
    } else {
        right_has_match_upto(r, lrows, n - 1, li, ri) || key_match(lrows[n - 1], r, li, ri)
    }
}

/// The output of a left-driven join over the first `n` left rows: for each
/// left row in order, its matches in right-row order; with `outer`, a
/// null-padded row where it matched nothing.
pub open spec fn left_join_upto(
    lrows: Seq<Row>,
    rrows: Seq<Row>,
    n: int,
    li: int,
    ri: int,
    outer: bool,
    rw: nat,
) -> Seq<Seq<Option<CellType>>>
    decreases n,
{
    if n <= 0 {
        Seq::empty()
    } else {
        left_join_upto(lrows, rrows, n - 1, li, ri, outer, rw) + left_matches_upto(
            lrows[n - 1],
            rrows,
            rrows.len() as int,
            li,
            ri,
        ) + if outer && !left_has_match_upto(lrows[n - 1], rrows, rrows.len() as int, li, ri) {
            seq![left_padded_cells(lrows[n - 1].cells@, rw)]
        } else {
            Seq::empty()
        }
    }
}

/// The output of a right-driven join over the first `n` right rows.
pub open spec fn right_join_upto(
    lrows: Seq<Row>,
    rrows: Seq<Row>,
    n: int,
    li: int,
    ri: int,
    outer: bool,
    lw: nat,
) -> Seq<Seq<Option<CellType>>>
    decreases n,
{
    if n <= 0 {
        Seq::empty()
    } else {
        right_join_upto(lrows, rrows, n - 1, li, ri, outer, lw) + right_matches_upto(
            rrows[n - 1],
            lrows,
            lrows.len() as int,
            li,
            ri,
        ) + if outer && !right_has_match_upto(rrows[n - 1], lrows, lrows.len() as int, li, ri) {
            seq![right_padded_cells(lw, rrows[n - 1].cells@)]
        } else {
            Seq::empty()
        }
    }
}

/// The null-padded rows for the right rows among the first `n` that match no
/// left row, in right-row order; the full join appends these after the
/// left-outer output so that every row appears exactly once.
pub open spec fn unmatched_right_upto(
    lrows: Seq<Row>,
    rrows: Seq<Row>,
    n: int,
    li: int,
    ri: int,
    lw: nat,
) -> Seq<Seq<Option<CellType>>>
    decreases n,
{
    if n <= 0 {
        Seq::empty()
    } else {
        unmatched_right_upto(lrows, rrows, n - 1, li, ri, lw) + if !right_has_match_upto(
            rrows[n - 1],
            lrows,
            lrows.len() as int,
            li,
            ri,
        ) {
            seq![right_padded_cells(lw, rrows[n - 1].cells@)]
        } else {
            Seq::empty()
        }
    }
}

/// The rows of a join of the given variant, with key positions `li` (left)
/// and `ri` (right) and side widths `lw` and `rw`.
pub open spec fn join_rows_spec(
    lrows: Seq<Row>,
    rrows: Seq<Row>,
    li: int,
    ri: int,
    lw: nat,
    rw: nat,
    kind: Joins,
) -> Seq<Seq<Option<CellType>>> {
    match kind {
        Joins::LeftInner => left_join_upto(lrows, rrows, lrows.len() as int, li, ri, false, rw),
        Joins::LeftOuter => left_join_upto(lrows, rrows, lrows.len() as int, li, ri, true, rw),
        Joins::RightInner => right_join_upto(lrows, rrows, rrows.len() as int, li, ri, false, lw),
        Joins::RightOuter => right_join_upto(lrows, rrows, rrows.len() as int, li, ri, true, lw),
        Joins::Full => left_join_upto(lrows, rrows, lrows.len() as int, li, ri, true, rw)
            + unmatched_right_upto(lrows, rrows, rrows.len() as int, li, ri, lw),
    }
}

/// The position of the first column with the given name among the first `n`
/// columns, if any; name comparison is case-sensitive and exact.
pub open spec fn find_col_upto(cols: Seq<Column>, name: Seq<char>, n: int) -> Option<int>
    decreases n,
{
    if n <= 0 {
        None
    } else {
        match find_col_upto(cols, name, n - 1) {
            Some(i) => Some(i),
            None => if cols[n - 1].name@ == name {
                Some(n - 1)
            } else {
                None
            },
        }
    }
}

/// The position of the first column with the given name, if any.
pub open spec fn find_col(cols: Seq<Column>, name: Seq<char>) -> Option<int> {
    find_col_upto(cols, name, cols.len() as int)
}

/// Once a prefix contains the name, longer prefixes find the same position.
proof fn lemma_find_col_extend(cols: Seq<Column>, name: Seq<char>, m: int, n: int)
    requires
        0 <= m <= n,
        find_col_upto(cols, name, m) is Some,
    ensures
        find_col_upto(cols, name, n) == find_col_upto(cols, name, m),
    decreases n - m,
{
    if n > m {
        lemma_find_col_extend(cols, name, m, n - 1);
    }
}

/// The combined schema of a join: the left columns followed by the right
/// columns, with positions renumbered to run across the whole output row.
pub open spec fn joined_schema_ok(out: Seq<Column>, l: Seq<Column>, r: Seq<Column>) -> bool {
    &&& out.len() == l.len() + r.len()
    &&& forall|j: int|
        0 <= j < l.len() ==> {
            &&& (#[trigger] out[j]).name@ == l[j].name@
            &&& out[j].data_type == l[j].data_type
            &&& out[j].index == j
        }
    &&& forall|j: int|
        l.len() <= j < out.len() ==> {
            &&& (#[trigger] out[j]).name@ == r[j - l.len()].name@
            &&& out[j].data_type == r[j - l.len()].data_type
            &&& out[j].index == j
        }
}

/// Typing of one join row against the two source schemas: one cell per
/// output column, and every present cell's kind equals its column's type.
pub open spec fn jrow_ok(row: JoinRow, lcols: Seq<Column>, rcols: Seq<Column>) -> bool {
    &&& row.cells@.len() == lcols.len() + rcols.len()
    &&& forall|j: int|
        0 <= j < lcols.len() ==> match #[trigger] row.cells@[j] {
            Some(c) => kind_of(c) == lcols[j].data_type,
            None => true,
        }
    &&& forall|j: int|
        lcols.len() <= j < row.cells@.len() ==> match #[trigger] row.cells@[j] {
            Some(c) => kind_of(c) == rcols[j - lcols.len()].data_type,
            None => true,
        }
}

impl JoinFrame {
    /// Structural well-formedness, as for `DataFrame`, except that a cell may
    /// be null; a present cell's kind equals its column's declared type.
    pub open spec fn wf(&self) -> bool {
        &&& self.count == self.rows@.len()
        &&& self.cols == self.columns@.len()
        &&& forall|i: int|
            0 <= i < self.rows@.len() ==> (#[trigger] self.rows@[i]).cells@.len()
                == self.columns@.len()
        &&& forall|i: int, j: int|
            0 <= i < self.rows@.len() && 0 <= j < self.columns@.len() ==> match #[trigger] self.rows@[i].cells@[j] {
                Some(c) => kind_of(c) == self.columns@[j].data_type,
                None => true,
            }
        &&& forall|j: int| 0 <= j < self.columns@.len() ==> (#[trigger] self.columns@[j].index) as int == j
    }

}

/// A matched output row: copies of the left row's cells, then of the right's.
fn combined_row(l: &Row, r: &Row) -> (out: JoinRow)
    ensures
        out.cells@ == combined_cells(l.cells@, r.cells@),
{
    let mut cells: Vec<Option<CellType>> = Vec::new();
    let mut i: usize = 0;
    while i < l.cells.len()
        invariant
            i <= l.cells@.len(),
            cells@.len() == i,
            forall|k: int| 0 <= k < i ==> cells@[k] == Some(l.cells@[k]),
        decreases l.cells@.len() - i,
    {
        cells.push(Some(l.cells[i].duplicate()));
        i = i + 1;
    }
    let mut j: usize = 0;
    while j < r.cells.len()
        invariant
            j <= r.cells@.len(),
            cells@.len() == l.cells@.len() + j,
            forall|k: int| 0 <= k < l.cells@.len() ==> cells@[k] == Some(l.cells@[k]),
            forall|k: int|
                l.cells@.len() <= k < cells@.len() ==> #[trigger] cells@[k] == Some(
                    r.cells@[k - l.cells@.len()],
                ),
        decreases r.cells@.len() - j,
    {
        cells.push(Some(r.cells[j].duplicate()));
        j = j + 1;
    }
    proof {
        assert(cells@ =~= combined_cells(l.cells@, r.cells@));
    }
    JoinRow { cells }
}

/// An unmatched left row: copies of its cells, then `rw` nulls.
fn left_padded_row(l: &Row, rw: usize) -> (out: JoinRow)
    requires
        l.cells@.len() + rw <= usize::MAX,
    ensures
        out.cells@ == left_padded_cells(l.cells@, rw as nat),
{
    let mut cells: Vec<Option<CellType>> = Vec::new();
    let mut i: usize = 0;
    while i < l.cells.len()
        invariant
            i <= l.cells@.len(),
            cells@.len() == i,
            forall|k: int| 0 <= k < i ==> cells@[k] == Some(l.cells@[k]),
        decreases l.cells@.len() - i,
    {
        cells.push(Some(l.cells[i].duplicate()));
        i = i + 1;
    }
    let mut j: usize = 0;
    while j < rw
        invariant
            j <= rw,
            l.cells@.len() + rw <= usize::MAX,
            cells@.len() == l.cells@.len() + j,
            forall|k: int| 0 <= k < l.cells@.len() ==> cells@[k] == Some(l.cells@[k]),
            forall|k: int| l.cells@.len() <= k < cells@.len() ==> #[trigger] cells@[k] == None::<CellType>,
        decreases rw - j,
    {
        cells.push(None);
        j = j + 1;
    }
    proof {
        assert(cells@ =~= left_padded_cells(l.cells@, rw as nat));
    }
    JoinRow { cells }
}

/// An unmatched right row: `lw` nulls, then copies of its cells.
fn right_padded_row(lw: usize, r: &Row) -> (out: JoinRow)
    requires
        lw + r.cells@.len() <= usize::MAX,
    ensures
        out.cells@ == right_padded_cells(lw as nat, r.cells@),
{
    let mut cells: Vec<Option<CellType>> = Vec::new();
    let mut i: usize = 0;
    while i < lw
        invariant
            i <= lw,
            cells@.len() == i,
            forall|k: int| 0 <= k < i ==> cells@[k] == None::<CellType>,
        decreases lw - i,
    {
        cells.push(None);
        i = i + 1;
    }
    let mut j: usize = 0;
    while j < r.cells.len()
        invariant
            j <= r.cells@.len(),
            lw + r.cells@.len() <= usize::MAX,
            cells@.len() == lw + j,
            forall|k: int| 0 <= k < lw ==> cells@[k] == None::<CellType>,
            forall|k: int|
                lw <= k < cells@.len() ==> #[trigger] cells@[k] == Some(r.cells@[k - lw]),
        decreases r.cells@.len() - j,
    {
        cells.push(Some(r.cells[j].duplicate()));
        j = j + 1;
    }
    proof {
        assert(cells@ =~= right_padded_cells(lw as nat, r.cells@));
    }
    JoinRow { cells }
}

/// Viewing join rows distributes over concatenation.
proof fn lemma_jrows_view_concat(a: Seq<JoinRow>, b: Seq<JoinRow>)
    ensures
        jrows_view(a + b) == jrows_view(a) + jrows_view(b),
{
    assert(jrows_view(a + b) =~= jrows_view(a) + jrows_view(b));
}

/// A matched row is typed by the two schemas its sides conform to.
proof fn lemma_combined_ok(l: Row, r: Row, lcols: Seq<Column>, rcols: Seq<Column>, row: JoinRow)
    requires
        l.conforms_to(lcols),
        r.conforms_to(rcols),
        row.cells@ == combined_cells(l.cells@, r.cells@),
    ensures
        jrow_ok(row, lcols, rcols),
{
    assert forall|j: int| 0 <= j < lcols.len() implies match #[trigger] row.cells@[j] {
        Some(c) => kind_of(c) == lcols[j].data_type,
        None => true,
    } by {
        assert(row.cells@[j] == Some(l.cells@[j]));
    }
    assert forall|j: int| lcols.len() <= j < row.cells@.len() implies match #[trigger] row.cells@[j] {
        Some(c) => kind_of(c) == rcols[j - lcols.len()].data_type,
        None => true,
    } by {
        assert(row.cells@[j] == Some(r.cells@[j - lcols.len()]));
    }
}

/// An unmatched left row, padded with nulls, is typed by the two schemas.
proof fn lemma_left_padded_ok(l: Row, lcols: Seq<Column>, rcols: Seq<Column>, row: JoinRow)
    requires
        l.conforms_to(lcols),
        row.cells@ == left_padded_cells(l.cells@, rcols.len()),
    ensures
        jrow_ok(row, lcols, rcols),
{
    assert forall|j: int| 0 <= j < lcols.len() implies match #[trigger] row.cells@[j] {
        Some(c) => kind_of(c) == lcols[j].data_type,
        None => true,
    } by {
        assert(row.cells@[j] == Some(l.cells@[j]));
    }
    assert forall|j: int| lcols.len() <= j < row.cells@.len() implies match #[trigger] row.cells@[j] {
        Some(c) => kind_of(c) == rcols[j - lcols.len()].data_type,
        None => true,
    } by {
        assert(row.cells@[j] == None::<CellType>);
    }
}

/// An unmatched right row, padded with nulls, is typed by the two schemas.
proof fn lemma_right_padded_ok(r: Row, lcols: Seq<Column>, rcols: Seq<Column>, row: JoinRow)
    requires
        r.conforms_to(rcols),
        row.cells@ == right_padded_cells(lcols.len(), r.cells@),
    ensures
        jrow_ok(row, lcols, rcols),
{
    assert forall|j: int| 0 <= j < lcols.len() implies match #[trigger] row.cells@[j] {
        Some(c) => kind_of(c) == lcols[j].data_type,
        None => true,
    } by {
        assert(row.cells@[j] == None::<CellType>);
    }
    assert forall|j: int| lcols.len() <= j < row.cells@.len() implies match #[trigger] row.cells@[j] {
        Some(c) => kind_of(c) == rcols[j - lcols.len()].data_type,
        None => true,
    } by {
        assert(row.cells@[j] == Some(r.cells@[j - lcols.len()]));
    }
}

/// The left-driven join loop: walks the left rows in order, emits every match
/// against the right rows in right order, and with `outer` a null-padded row
/// for a left row that matched nothing.
fn left_driven(left: &DataFrame, right: &DataFrame, li: usize, ri: usize, outer: bool) -> (out:
    Vec<JoinRow>)
    requires
        left.wf(),
        right.wf(),
        li < left.columns@.len(),
        ri < right.columns@.len(),
        left.columns@.len() + right.columns@.len() <= usize::MAX,
    ensures
        jrows_view(out@) == left_join_upto(
            left.rows@,
            right.rows@,
            left.rows@.len() as int,
            li as int,
            ri as int,
            outer,
            right.columns@.len(),
        ),
        forall|t: int| 0 <= t < out@.len() ==> jrow_ok(#[trigger] out@[t], left.columns@, right.columns@),
{
    let rw = right.columns.len();
    let mut out: Vec<JoinRow> = Vec::new();
    let mut i: usize = 0;
    while i < left.rows.len()
        invariant
            left.wf(),
            right.wf(),
            li < left.columns@.len(),
            ri < right.columns@.len(),
            left.columns@.len() + right.columns@.len() <= usize::MAX,
            rw == right.columns@.len(),
            i <= left.rows@.len(),
            jrows_view(out@) == left_join_upto(
                left.rows@,
                right.rows@,
                i as int,
                li as int,
                ri as int,
                outer,
                rw as nat,
            ),
            forall|t: int|
                0 <= t < out@.len() ==> jrow_ok(#[trigger] out@[t], left.columns@, right.columns@),
        decreases left.rows@.len() - i,
    {
        proof {
            assert(left.rows@[i as int].conforms_to(left.columns@));
        }
        let ghost out_before = out@;
        let mut matched = false;
        let mut j: usize = 0;
        while j < right.rows.len()
            invariant
                left.wf(),
                right.wf(),
                li < left.columns@.len(),
                ri < right.columns@.len(),
                left.columns@.len() + right.columns@.len() <= usize::MAX,
                rw == right.columns@.len(),
                i < left.rows@.len(),
                j <= right.rows@.len(),
                left.rows@[i as int].conforms_to(left.columns@),
                matched == left_has_match_upto(
                    left.rows@[i as int],
                    right.rows@,
                    j as int,
                    li as int,
                    ri as int,
                ),
                jrows_view(out@) == jrows_view(out_before) + left_matches_upto(
                    left.rows@[i as int],
                    right.rows@,
                    j as int,
                    li as int,
                    ri as int,
                ),
                forall|t: int|
                    0 <= t < out@.len() ==> jrow_ok(
                        #[trigger] out@[t],
                        left.columns@,
                        right.columns@,
                    ),
            decreases right.rows@.len() - j,
        {
            proof {
                assert(right.rows@[j as int].conforms_to(right.columns@));
            }
            if left.rows[i].cells[li].value_eq(&right.rows[j].cells[ri]) {
                let jr = combined_row(&left.rows[i], &right.rows[j]);
                proof {
                    lemma_combined_ok(
                        left.rows@[i as int],
                        right.rows@[j as int],
                        left.columns@,
                        right.columns@,
                        jr,
                    );
                    assert(jrows_view(out@.push(jr)) =~= jrows_view(out@) + seq![jr.cells@]);
                    assert(jrows_view(out_before) + left_matches_upto(
                        left.rows@[i as int],
                        right.rows@,
                        j + 1 as int,
                        li as int,
                        ri as int,
                    ) =~= jrows_view(out@) + seq![jr.cells@]);
                }
                out.push(jr);
                matched = true;
            } else {
                proof {
                    assert(left_matches_upto(
                        left.rows@[i as int],
                        right.rows@,
                        j + 1 as int,
                        li as int,
                        ri as int,
                    ) =~= left_matches_upto(
                        left.rows@[i as int],
                        right.rows@,
                        j as int,
                        li as int,
                        ri as int,
                    ));
                }
            }
            j = j + 1;
        }
        if outer && !matched {
            let jr = left_padded_row(&left.rows[i], rw);
            proof {
                lemma_left_padded_ok(left.rows@[i as int], left.columns@, right.columns@, jr);
                assert(jrows_view(out@.push(jr)) =~= jrows_view(out@) + seq![jr.cells@]);
            }
            out.push(jr);
        }
        proof {
            assert(jrows_view(out@) =~= left_join_upto(
                left.rows@,
                right.rows@,
                i + 1 as int,
                li as int,
                ri as int,
                outer,
                rw as nat,
            ));
        }
        i = i + 1;
    }
    out
}

/// The right-driven join loop: walks the right rows in order, emits every
/// match against the left rows in left order (cells stay left-then-right),
/// and with `outer` a null-padded row for a right row that matched nothing.
fn right_driven(left: &DataFrame, right: &DataFrame, li: usize, ri: usize, outer: bool) -> (out:
    Vec<JoinRow>)
    requires
        left.wf(),
        right.wf(),
        li < left.columns@.len(),
        ri < right.columns@.len(),
        left.columns@.len() + right.columns@.len() <= usize::MAX,
    ensures
        jrows_view(out@) == right_join_upto(
            left.rows@,
            right.rows@,
            right.rows@.len() as int,
            li as int,
            ri as int,
            outer,
            left.columns@.len(),
        ),
        forall|t: int| 0 <= t < out@.len() ==> jrow_ok(#[trigger] out@[t], left.columns@, right.columns@),
{
    let lw = left.columns.len();
    let mut out: Vec<JoinRow> = Vec::new();
    let mut j: usize = 0;
    while j < right.rows.len()
        invariant
            left.wf(),
            right.wf(),
            li < left.columns@.len(),
            ri < right.columns@.len(),
            left.columns@.len() + right.columns@.len() <= usize::MAX,
            lw == left.columns@.len(),
            j <= right.rows@.len(),
            jrows_view(out@) == right_join_upto(
                left.rows@,
                right.rows@,
                j as int,
                li as int,
                ri as int,
                outer,
                lw as nat,
            ),
            forall|t: int|
                0 <= t < out@.len() ==> jrow_ok(#[trigger] out@[t], left.columns@, right.columns@),
        decreases right.rows@.len() - j,
    {
        proof {
            assert(right.rows@[j as int].conforms_to(right.columns@));
        }
        let ghost out_before = out@;
        let mut matched = false;
        let mut i: usize = 0;
        while i < left.rows.len()
            invariant
                left.wf(),
                right.wf(),
                li < left.columns@.len(),
                ri < right.columns@.len(),
                left.columns@.len() + right.columns@.len() <= usize::MAX,
                lw == left.columns@.len(),
                j < right.rows@.len(),
                i <= left.rows@.len(),
                right.rows@[j as int].conforms_to(right.columns@),
                matched == right_has_match_upto(
                    right.rows@[j as int],
                    left.rows@,
                    i as int,
                    li as int,
                    ri as int,
                ),
                jrows_view(out@) == jrows_view(out_before) + right_matches_upto(
                    right.rows@[j as int],
                    left.rows@,
                    i as int,
                    li as int,
                    ri as int,
                ),
                forall|t: int|
                    0 <= t < out@.len() ==> jrow_ok(
                        #[trigger] out@[t],
                        left.columns@,
                        right.columns@,
                    ),
            decreases left.rows@.len() - i,
        {
            proof {
                assert(left.rows@[i as int].conforms_to(left.columns@));
            }
            if left.rows[i].cells[li].value_eq(&right.rows[j].cells[ri]) {
                let jr = combined_row(&left.rows[i], &right.rows[j]);
                proof {
                    lemma_combined_ok(
                        left.rows@[i as int],
                        right.rows@[j as int],
                        left.columns@,
                        right.columns@,
                        jr,
                    );
                    assert(jrows_view(out@.push(jr)) =~= jrows_view(out@) + seq![jr.cells@]);
                    assert(jrows_view(out_before) + right_matches_upto(
                        right.rows@[j as int],
                        left.rows@,
                        i + 1 as int,
                        li as int,
                        ri as int,
                    ) =~= jrows_view(out@) + seq![jr.cells@]);
                }
                out.push(jr);
                matched = true;
            } else {
                proof {
                    assert(right_matches_upto(
                        right.rows@[j as int],
                        left.rows@,
                        i + 1 as int,
                        li as int,
                        ri as int,
                    ) =~= right_matches_upto(
                        right.rows@[j as int],
                        left.rows@,
                        i as int,
                        li as int,
                        ri as int,
                    ));
                }
            }
            i = i + 1;
        }
        if outer && !matched {
            let jr = right_padded_row(lw, &right.rows[j]);
            proof {
                lemma_right_padded_ok(right.rows@[j as int], left.columns@, right.columns@, jr);
                assert(jrows_view(out@.push(jr)) =~= jrows_view(out@) + seq![jr.cells@]);
            }
            out.push(jr);
        }
        proof {
            assert(jrows_view(out@) =~= right_join_upto(
                left.rows@,
                right.rows@,
                j + 1 as int,
                li as int,
                ri as int,
                outer,
                lw as nat,
            ));
        }
        j = j + 1;
    }
    out
}

/// The null-padded rows for the right rows that match no left row, for the
/// full join's tail.
fn unmatched_right(left: &DataFrame, right: &DataFrame, li: usize, ri: usize) -> (out: Vec<
    JoinRow,
>)
    requires
        left.wf(),
        right.wf(),
        li < left.columns@.len(),
        ri < right.columns@.len(),
        left.columns@.len() + right.columns@.len() <= usize::MAX,
    ensures
        jrows_view(out@) == unmatched_right_upto(
            left.rows@,
            right.rows@,
            right.rows@.len() as int,
            li as int,
            ri as int,
            left.columns@.len(),
        ),
        forall|t: int| 0 <= t < out@.len() ==> jrow_ok(#[trigger] out@[t], left.columns@, right.columns@),
{
    let lw = left.columns.len();
    let mut out: Vec<JoinRow> = Vec::new();
    let mut j: usize = 0;
    while j < right.rows.len()
        invariant
            left.wf(),
            right.wf(),
            li < left.columns@.len(),
            ri < right.columns@.len(),
            left.columns@.len() + right.columns@.len() <= usize::MAX,
            lw == left.columns@.len(),
            j <= right.rows@.len(),
            jrows_view(out@) == unmatched_right_upto(
                left.rows@,
                right.rows@,
                j as int,
                li as int,
                ri as int,
                lw as nat,
            ),
            forall|t: int|
                0 <= t < out@.len() ==> jrow_ok(#[trigger] out@[t], left.columns@, right.columns@),
        decreases right.rows@.len() - j,
    {
        proof {
            assert(right.rows@[j as int].conforms_to(right.columns@));
        }
        let mut matched = false;
        let mut i: usize = 0;
        while i < left.rows.len()
            invariant
                left.wf(),
                right.wf(),
                li < left.columns@.len(),
                ri < right.columns@.len(),
                j < right.rows@.len(),
                i <= left.rows@.len(),
                right.rows@[j as int].conforms_to(right.columns@),
                matched == right_has_match_upto(
                    right.rows@[j as int],
                    left.rows@,
                    i as int,
                    li as int,
                    ri as int,
                ),
            decreases left.rows@.len() - i,
        {
            proof {
                assert(left.rows@[i as int].conforms_to(left.columns@));
            }
            if left.rows[i].cells[li].value_eq(&right.rows[j].cells[ri]) {
                matched = true;
            }
            i = i + 1;
        }
        if !matched {
            let jr = right_padded_row(lw, &right.rows[j]);
            proof {
                lemma_right_padded_ok(right.rows@[j as int], left.columns@, right.columns@, jr);
                assert(jrows_view(out@.push(jr)) =~= jrows_view(out@) + seq![jr.cells@]);
            }
            out.push(jr);
        }
        proof {
            assert(jrows_view(out@) =~= unmatched_right_upto(
                left.rows@,
                right.rows@,
                j + 1 as int,
                li as int,
                ri as int,
                lw as nat,
            ));
        }
        j = j + 1;
    }
    out
}

/// The combined schema of a join: copies of the left columns, then of the
/// right columns, renumbered to run across the whole output row.
fn joined_columns(l: &Vec<Column>, r: &Vec<Column>) -> (out: Vec<Column>)
    requires
        l@.len() + r@.len() <= usize::MAX,
    ensures
        joined_schema_ok(out@, l@, r@),
{
    let mut out: Vec<Column> = Vec::new();
    let mut i: usize = 0;
    while i < l.len()
        invariant
            i <= l@.len(),
            l@.len() + r@.len() <= usize::MAX,
            out@.len() == i,
            forall|k: int|
                0 <= k < i ==> {
                    &&& (#[trigger] out@[k]).name@ == l@[k].name@
                    &&& out@[k].data_type == l@[k].data_type
                    &&& out@[k].index == k
                },
        decreases l@.len() - i,
    {
        out.push(Column { data_type: l[i].data_type, name: l[i].name.clone(), index: i });
        i = i + 1;
    }
    let mut j: usize = 0;
    while j < r.len()
        invariant
            j <= r@.len(),
            l@.len() + r@.len() <= usize::MAX,
            out@.len() == l@.len() + j,
            forall|k: int|
                0 <= k < l@.len() ==> {
                    &&& (#[trigger] out@[k]).name@ == l@[k].name@
                    &&& out@[k].data_type == l@[k].data_type
                    &&& out@[k].index == k
                },
            forall|k: int|
                l@.len() <= k < out@.len() ==> {
                    &&& (#[trigger] out@[k]).name@ == r@[k - l@.len()].name@
                    &&& out@[k].data_type == r@[k - l@.len()].data_type
                    &&& out@[k].index == k
                },
        decreases r@.len() - j,
    {
        out.push(
            Column { data_type: r[j].data_type, name: r[j].name.clone(), index: l.len() + j },
        );
        j = j + 1;
    }
    out
}

impl DataFrame {
    /// The position of the first column with the given name, if any;
    /// case-sensitive exact match.
    pub fn find_column(&self, name: &str) -> (r: Option<usize>)
        ensures
            match r {
                Some(i) => find_col(self.columns@, name@) == Some(i as int),
                None => find_col(self.columns@, name@) is None,
            },
    {
        let mut i: usize = 0;
        while i < self.columns.len()
            invariant
                i <= self.columns@.len(),
                find_col_upto(self.columns@, name@, i as int) is None,
            decreases self.columns@.len() - i,
        {
            if crate::text::str_eq(self.columns[i].name.as_str(), name) {
                proof {
                    lemma_find_col_extend(
                        self.columns@,
                        name@,
                        i + 1 as int,
                        self.columns@.len() as int,
                    );
                }
                return Some(i);
            }
            i = i + 1;
        }
        None
    }

    /// Correlates this table (the left side) with `right` on the column named
    /// `on`, which both sides must have — absence on either side fails with
    /// `ColumnNotFound` for that side, the left side checked first. On
    /// success, returns a new table: its schema is the left schema followed
    /// by the right schema (the key column retained from both sides), and its
    /// rows are exactly the rows of the requested variant, in the driving
    /// side's order. Neither input is changed.
    pub fn join(&self, right: &DataFrame, on: &str, join: Joins) -> (res: Result<
        JoinFrame,
        JoinError,
    >)
        requires
            self.wf(),
            right.wf(),
            self.columns@.len() + right.columns@.len() <= usize::MAX,
        ensures
            match res {
                Ok(out) => {
                    &&& find_col(self.columns@, on@) is Some
                    &&& find_col(right.columns@, on@) is Some
                    &&& out.wf()
                    &&& joined_schema_ok(out.columns@, self.columns@, right.columns@)
                    &&& jrows_view(out.rows@) == join_rows_spec(
                        self.rows@,
                        right.rows@,
                        find_col(self.columns@, on@).unwrap(),
                        find_col(right.columns@, on@).unwrap(),
                        self.columns@.len(),
                        right.columns@.len(),
                        join,
                    )
                },
                Err(JoinError::ColumnNotFound { side, name }) => {
                    &&& name@ == on@
                    &&& match side {
                        JoinSide::Left => find_col(self.columns@, on@) is None,
                        JoinSide::Right => find_col(self.columns@, on@) is Some && find_col(
                            right.columns@,
                            on@,
                        ) is None,
                    }
                },
            },
    {
        let li = match self.find_column(on) {
            Some(i) => i,
            None => {
                return Err(
                    JoinError::ColumnNotFound { side: JoinSide::Left, name: String::from_str(on) },
                );
            },
        };
        let ri = match right.find_column(on) {
            Some(i) => i,
            None => {
                return Err(
                    JoinError::ColumnNotFound { side: JoinSide::Right, name: String::from_str(on) },
                );
            },
        };
        proof {
            lemma_find_col_in_range(self.columns@, on@);
            lemma_find_col_in_range(right.columns@, on@);
        }
        let rows: Vec<JoinRow> = match join {
            Joins::LeftInner => left_driven(self, right, li, ri, false),
            Joins::LeftOuter => left_driven(self, right, li, ri, true),
            Joins::RightInner => right_driven(self, right, li, ri, false),
            Joins::RightOuter => right_driven(self, right, li, ri, true),
            Joins::Full => {
                let mut a = left_driven(self, right, li, ri, true);
                let mut b = unmatched_right(self, right, li, ri);
                proof {
                    lemma_jrows_view_concat(a@, b@);
                }
                a.append(&mut b);
                a
            },
        };
        let columns = joined_columns(&self.columns, &right.columns);
        let count = rows.len();
        let cols = columns.len();
        let out = JoinFrame { rows, count, cols, columns };
        proof {
            assert forall|i: int, j: int|
                0 <= i < out.rows@.len() && 0 <= j < out.columns@.len() implies match #[trigger] out.rows@[i].cells@[j] {
                Some(c) => kind_of(c) == out.columns@[j].data_type,
                None => true,
            } by {
                assert(jrow_ok(out.rows@[i], self.columns@, right.columns@));
            }
            assert forall|i: int| 0 <= i < out.rows@.len() implies (#[trigger] out.rows@[i]).cells@.len()
                == out.columns@.len() by {
                assert(jrow_ok(out.rows@[i], self.columns@, right.columns@));
            }
        }
        Ok(out)
    }
}

/// What `find_col` returns is a position in the schema, bearing the name.
proof fn lemma_find_col_in_range(cols: Seq<Column>, name: Seq<char>)
    requires
        find_col(cols, name) is Some,
    ensures
        0 <= find_col(cols, name).unwrap() < cols.len(),
        cols[find_col(cols, name).unwrap()].name@ == name,
{
    lemma_find_col_upto_in_range(cols, name, cols.len() as int);
}

proof fn lemma_find_col_upto_in_range(cols: Seq<Column>, name: Seq<char>, n: int)
    requires
        n <= cols.len(),
        find_col_upto(cols, name, n) is Some,
    ensures
        0 <= find_col_upto(cols, name, n).unwrap() < n,
        cols[find_col_upto(cols, name, n).unwrap()].name@ == name,
    decreases n,
{
    if n > 0 {
        if find_col_upto(cols, name, n - 1) is Some {
            lemma_find_col_upto_in_range(cols, name, n - 1);
        }
    }
}

} // verus!
