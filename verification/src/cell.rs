//! The typed cell and column model: a closed tagged union of cell values and
//! the schema descriptor that every row of a table conforms to.

use vstd::prelude::*;

verus! {

/// A single typed cell value. Exactly one kind is active per instance and
/// there is no implicit cross-kind coercion.
///
/// `Float` carries the IEEE-754 binary64 bit pattern of the value, so that
/// the cell model itself is free of floating-point arithmetic: every place
/// that needs the numeric reading of a float (parsing, display) goes through
/// a dedicated conversion function. Two float cells are equal exactly when
/// their bit patterns are equal.
#[derive(Debug, Clone)]
pub enum CellType {
    Integer(i64),
    Float(u64),
    Text(String),
    Boolean(bool),
}

/// The declared type of a column, mirroring the kinds of `CellType`.
/// Two `ColumnType` values are equal iff they are the same kind.
#[derive(Debug, Clone, Copy, PartialEq, Eq, Structural)]
pub enum ColumnType {
    Integer,
    Float,
    Text,
    Boolean,
}

/// One schema entry: a column name, its declared type, and its zero-based
/// position, which matches the cell slot in every row of the table.
#[derive(Debug)]
pub struct Column {
    pub data_type: ColumnType,
    pub name: String,
    pub index: usize,
}

/// The kind of a cell value, as a `ColumnType`.
pub open spec fn kind_of(c: CellType) -> ColumnType {
    match c {
        CellType::Integer(_) => ColumnType::Integer,
        CellType::Float(_) => ColumnType::Float,
        CellType::Text(_) => ColumnType::Text,
        CellType::Boolean(_) => ColumnType::Boolean,
    }
}

/// Value equality of two cells: same kind and same payload. Text compares by
/// character content, floats by bit pattern. Mismatched kinds are never equal.
pub open spec fn cell_eq(a: CellType, b: CellType) -> bool {
    match (a, b) {
        (CellType::Integer(x), CellType::Integer(y)) => x == y,
        (CellType::Float(x), CellType::Float(y)) => x == y,
        (CellType::Text(x), CellType::Text(y)) => x@ == y@,
        (CellType::Boolean(x), CellType::Boolean(y)) => x == y,
        _ => false,
    }
}

/// Equality of two schema entries: same name (by content), same declared
/// type, and same position.
pub open spec fn col_eq(a: Column, b: Column) -> bool {
    &&& a.name@ == b.name@
    &&& a.data_type == b.data_type
    &&& a.index == b.index
}

/// Equality of two schemas: identical length and, position by position,
/// identical column name, type and index.
pub open spec fn schema_eq(a: Seq<Column>, b: Seq<Column>) -> bool {
    &&& a.len() == b.len()
    &&& forall|i: int| 0 <= i < a.len() ==> col_eq(#[trigger] a[i], b[i])
}

/// Schema equality is reflexive: every schema matches itself.
pub proof fn lemma_schema_eq_reflexive(a: Seq<Column>)
    ensures
        schema_eq(a, a),
{
}

/// Schema equality is symmetric: matching is the same question asked from
/// either side.
pub proof fn lemma_schema_eq_symmetric(a: Seq<Column>, b: Seq<Column>)
    ensures
        schema_eq(a, b) == schema_eq(b, a),
{
    if schema_eq(a, b) {
        assert forall|i: int| 0 <= i < b.len() implies col_eq(#[trigger] b[i], a[i]) by {
            assert(col_eq(a[i], b[i]));
        }
    }
    if schema_eq(b, a) {
        assert forall|i: int| 0 <= i < a.len() implies col_eq(#[trigger] a[i], b[i]) by {
            assert(col_eq(b[i], a[i]));
        }
    }
}

impl CellType {
    /// The kind of this cell, for checking it against a column's declared type.
    pub fn kind(&self) -> (t: ColumnType)
        ensures
            t == kind_of(*self),
    {
        match self {
            CellType::Integer(_) => ColumnType::Integer,
            CellType::Float(_) => ColumnType::Float,
            CellType::Text(_) => ColumnType::Text,
            CellType::Boolean(_) => ColumnType::Boolean,
        }
    }

    /// Value equality, used for join-key matching: same kind and same payload.
    pub fn value_eq(&self, other: &CellType) -> (r: bool)
        ensures
            r == cell_eq(*self, *other),
    {
        match (self, other) {
            (CellType::Integer(x), CellType::Integer(y)) => *x == *y,
            (CellType::Float(x), CellType::Float(y)) => *x == *y,
            (CellType::Text(x), CellType::Text(y)) => *x == *y,
            (CellType::Boolean(x), CellType::Boolean(y)) => *x == *y,
            _ => false,
        }
    }

    /// An exact copy of this cell.
    pub fn duplicate(&self) -> (r: CellType)
        ensures
            r == *self,
    {
        match self {
            CellType::Integer(x) => CellType::Integer(*x),
            CellType::Float(x) => CellType::Float(*x),
            CellType::Text(x) => CellType::Text(x.clone()),
            CellType::Boolean(x) => CellType::Boolean(*x),
        }
    }
}

impl Column {
    /// Equality of two schema entries by name content, type and position.
    pub fn value_eq(&self, other: &Column) -> (r: bool)
        ensures
            r == col_eq(*self, *other),
    {
        self.name == other.name && self.data_type == other.data_type && self.index == other.index
    }

}

} // verus!
