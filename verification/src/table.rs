//! Tables: an ordered sequence of rows sharing one schema, with the
//! structural invariants (row width, cell typing, positional indexes, exact
//! cached counts) and the schema-checked `union_all` operator.

use vstd::prelude::*;

use crate::cell::{col_eq, kind_of, schema_eq, CellType, Column};

verus! {

/// One row of a table: an ordered sequence of cells, one per column.
#[derive(Debug)]
pub struct Row {
    pub cells: Vec<CellType>,
}

impl Row {
    pub fn new(cells: Vec<CellType>) -> (r: Row)
        ensures
            r.cells == cells,
    {
        Row { cells }
    }

    /// Whether this row fits a schema: one cell per column, each cell's kind
    /// equal to the column's declared type.
    pub open spec fn conforms_to(&self, columns: Seq<Column>) -> bool {
        &&& self.cells@.len() == columns.len()
        &&& forall|j: int|
            0 <= j < columns.len() ==> kind_of(#[trigger] self.cells@[j]) == columns[j].data_type
    }

    /// Runtime check that this row fits a schema; unverified callers use it
    /// before handing rows to a constructor.
    pub fn check_conforms(&self, columns: &Vec<Column>) -> (r: bool)
        ensures
            r == self.conforms_to(columns@),
    {
        if self.cells.len() != columns.len() {
            return false;
        }
        let mut j: usize = 0;
        while j < columns.len()
            invariant
                j <= columns@.len(),
                self.cells@.len() == columns@.len(),
                forall|k: int|
                    0 <= k < j ==> kind_of(#[trigger] self.cells@[k]) == columns@[k].data_type,
            decreases columns@.len() - j,
        {
            let k = self.cells[j].kind();
            if !(k == columns[j].data_type) {
                return false;
            }
            j = j + 1;
        }
        true
    }
}

/// Column names are non-empty and unique within the schema.
pub open spec fn schema_named_ok(columns: Seq<Column>) -> bool {
    &&& forall|j: int| 0 <= j < columns.len() ==> (#[trigger] columns[j].name@).len() > 0
    &&& forall|j: int, k: int|
        0 <= j < k < columns.len() ==> columns[j].name@ != columns[k].name@
}

/// Column indexes record each column's position in the schema.
pub open spec fn schema_positional(columns: Seq<Column>) -> bool {
    forall|j: int| 0 <= j < columns.len() ==> (#[trigger] columns[j].index) as int == j
}

/// An ordered sequence of rows sharing one schema.
///
/// `count` and `cols` cache the row and column counts; every operation that
/// changes `rows` or `columns` recomputes them in the same call, so that
/// well-formedness (`wf`) keeps them exactly equal to the sequence lengths.
#[derive(Debug)]
pub struct DataFrame {
    pub rows: Vec<Row>,
    pub count: usize,
    pub cols: usize,
    pub columns: Vec<Column>,
}

impl DataFrame {
    /// Structural well-formedness: the cached counts equal the sequence
    /// lengths, every row has one cell per column, every cell's kind equals
    /// its column's declared type, and column indexes are positional.
    pub open spec fn wf(&self) -> bool {
        &&& self.count == self.rows@.len()
        &&& self.cols == self.columns@.len()
        &&& forall|i: int| 0 <= i < self.rows@.len() ==> (#[trigger] self.rows@[i]).conforms_to(self.columns@)
        &&& schema_positional(self.columns@)
    }

    /// A table with zero columns is EMPTY regardless of its row count.
    pub open spec fn is_empty_table(&self) -> bool {
        self.columns@.len() == 0
    }

    /// Builds a table from an optional row sequence and a schema. Absent rows
    /// give an empty table with the given schema. Every row must fit the
    /// schema and the schema must carry positional indexes and non-empty,
    /// unique names; a caller that cannot show this checks first with
    /// `Row::check_conforms`.
    pub fn new(rows: Option<Vec<Row>>, columns: Vec<Column>) -> (df: DataFrame)
        requires
            schema_positional(columns@),
            schema_named_ok(columns@),
            match rows {
                Some(rs) => forall|i: int|
                    0 <= i < rs@.len() ==> (#[trigger] rs@[i]).conforms_to(columns@),
                None => true,
            },
        ensures
            df.wf(),
            df.columns@ == columns@,
            df.rows@ == match rows {
                Some(rs) => rs@,
                None => Seq::<Row>::empty(),
            },
            df.count == df.rows@.len(),
            df.cols == columns@.len(),
    {
        let rows = match rows {
            Some(rs) => rs,
            None => Vec::new(),
        };
        let count = rows.len();
        let cols = columns.len();
        proof {
            assert(rows@ =~= rows@);
        }
        DataFrame { rows, count, cols, columns }
    }

    /// True iff both schemas have identical length and, position by position,
    /// identical column name, declared type and index.
    pub fn columns_match(&self, other: &DataFrame) -> (r: bool)
        ensures
            r == schema_eq(self.columns@, other.columns@),
    {
        if self.columns.len() != other.columns.len() {
            return false;
        }
        let mut i: usize = 0;
        while i < self.columns.len()
            invariant
                i <= self.columns@.len(),
                self.columns@.len() == other.columns@.len(),
                forall|k: int| 0 <= k < i ==> col_eq(#[trigger] self.columns@[k], other.columns@[k]),
            decreases self.columns@.len() - i,
        {
            if !self.columns[i].value_eq(&other.columns[i]) {
                return false;
            }
            i = i + 1;
        }
        true
    }

    /// Appends all of `other`'s rows to `self`, in their original order,
    /// after checking that neither table is EMPTY (zero columns) and that the
    /// schemas match; the EMPTY check runs first. On success `other` is left
    /// drained of its rows but still well-formed; on failure both tables are
    /// unchanged.
    pub fn union_all(&mut self, other: &mut DataFrame) -> (r: Result<(), SQLError>)
        requires
            old(self).wf(),
            old(other).wf(),
        ensures
            final(self).wf(),
            final(other).wf(),
            match r {
                Ok(()) => {
                    &&& !old(self).is_empty_table()
                    &&& !old(other).is_empty_table()
                    &&& schema_eq(old(self).columns@, old(other).columns@)
                    &&& final(self).rows@ == old(self).rows@ + old(other).rows@
                    &&& final(self).columns@ == old(self).columns@
                    &&& final(self).count == old(self).count + old(other).count
                    &&& final(self).cols == old(self).cols
                },
                Err(SQLError::EmptyTable) => {
                    &&& old(self).is_empty_table() || old(other).is_empty_table()
                    &&& *final(self) == *old(self)
                    &&& *final(other) == *old(other)
                },
                Err(SQLError::MismatchedColumns) => {
                    &&& !old(self).is_empty_table()
                    &&& !old(other).is_empty_table()
                    &&& !schema_eq(old(self).columns@, old(other).columns@)
                    &&& *final(self) == *old(self)
                    &&& *final(other) == *old(other)
                },
            },
    {
        if self.cols == 0 || other.cols == 0 {
            return Err(SQLError::EmptyTable);
        }
        if !self.columns_match(other) {
            return Err(SQLError::MismatchedColumns);
        }
        self.rows.append(&mut other.rows);
        self.count = self.rows.len();
        other.count = 0;
        Ok(())
    }
}

/// Failures of the set/relational operators over whole tables.
#[derive(Debug)]
pub enum SQLError {
    /// One operand has zero columns.
    EmptyTable,
    /// The two schemas differ in length, name, or per-position type.
    MismatchedColumns,
}

impl SQLError {
    /// A human-readable description of the failure.
    pub fn message(&self) -> (r: &'static str)
        ensures
            matches!(*self, SQLError::EmptyTable) ==> r@ == "One or more dataframes is empty."@,
            matches!(*self, SQLError::MismatchedColumns) ==> r@ == "Columns do not match."@,
    {
        match self {
            SQLError::EmptyTable => "One or more dataframes is empty.",
            SQLError::MismatchedColumns => "Columns do not match.",
        }
    }
}

} // verus!
