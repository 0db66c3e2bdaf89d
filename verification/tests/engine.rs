use sparky::cell::{CellType, Column, ColumnType};
use sparky::ingest::{CSVFile, IngestError};
use sparky::join::{JoinError, JoinSide, Joins};
use sparky::render::DISPLAY_COLUMN_WIDTH;
use sparky::table::{DataFrame, Row, SQLError};

fn col(name: &str, t: ColumnType, i: usize) -> Column {
    Column { data_type: t, name: String::from(name), index: i }
}

fn fcell(x: f64) -> CellType {
    CellType::Float(x.to_bits())
}

fn tcell(s: &str) -> CellType {
    CellType::Text(String::from(s))
}

fn icell(i: i64) -> CellType {
    CellType::Integer(i)
}

/// The caller-side float parsing that ingestion is parameterized by.
fn parses_of(file: &CSVFile) -> Vec<Vec<Option<u64>>> {
    file.data_fields()
        .iter()
        .map(|row| row.iter().map(|f| f.parse::<f64>().ok().map(f64::to_bits)).collect())
        .collect()
}

fn ingest(text: &str) -> Result<DataFrame, IngestError> {
    let file = CSVFile(String::from(text));
    let parses = parses_of(&file);
    DataFrame::from_csv(&file, &parses)
}

fn weather() -> DataFrame {
    DataFrame::new(
        Some(vec![
            Row::new(vec![fcell(10.5), fcell(4.01)]),
            Row::new(vec![fcell(0.0), fcell(4.02)]),
        ]),
        vec![col("Temp", ColumnType::Float, 0), col("Humidity", ColumnType::Float, 1)],
    )
}

#[test]
fn schema_match_reflexive() {
    let a = weather();
    assert!(a.columns_match(&a));
    let empty = DataFrame::new(None, vec![]);
    assert!(empty.columns_match(&empty));
}

#[test]
fn schema_match_symmetric() {
    let a = weather();
    let b = weather();
    assert_eq!(a.columns_match(&b), b.columns_match(&a));
    assert!(a.columns_match(&b));
    let c = DataFrame::new(
        None,
        vec![col("Temp", ColumnType::Float, 0), col("Humidity", ColumnType::Text, 1)],
    );
    assert_eq!(a.columns_match(&c), c.columns_match(&a));
    assert!(!a.columns_match(&c));
}

#[test]
fn union_all_success_counts_and_order() {
    let mut a = weather();
    let mut b = DataFrame::new(
        Some(vec![
            Row::new(vec![fcell(4.1), fcell(5.1)]),
            Row::new(vec![fcell(0.1), fcell(1.1)]),
        ]),
        vec![col("Temp", ColumnType::Float, 0), col("Humidity", ColumnType::Float, 1)],
    );
    let res = a.union_all(&mut b);
    assert!(res.is_ok());
    assert_eq!(a.count, 4);
    assert_eq!(a.cols, 2);
    assert_eq!(a.columns.len(), 2);
    // A's rows first, then B's, each internally unchanged.
    assert!(a.rows[0].cells[0].value_eq(&fcell(10.5)));
    assert!(a.rows[1].cells[1].value_eq(&fcell(4.02)));
    assert!(a.rows[2].cells[0].value_eq(&fcell(4.1)));
    assert!(a.rows[3].cells[1].value_eq(&fcell(1.1)));
}

#[test]
fn union_all_empty_table() {
    // Zero columns makes a table EMPTY regardless of its row count.
    let mut a = DataFrame::new(Some(vec![Row::new(vec![])]), vec![]);
    let mut b = weather();
    assert!(matches!(a.union_all(&mut b), Err(SQLError::EmptyTable)));
    assert!(matches!(b.union_all(&mut a), Err(SQLError::EmptyTable)));
    // The empty check runs before the schema-match check.
    let mut c = DataFrame::new(None, vec![]);
    assert!(matches!(b.union_all(&mut c), Err(SQLError::EmptyTable)));
    // Failed unions leave both operands unchanged.
    assert_eq!(b.count, 2);
    assert_eq!(b.cols, 2);
}

#[test]
fn union_all_mismatched_columns() {
    let mut a = weather();
    let mut b = DataFrame::new(
        None,
        vec![col("Temp", ColumnType::Float, 0), col("Humidity", ColumnType::Text, 1)],
    );
    assert!(matches!(a.union_all(&mut b), Err(SQLError::MismatchedColumns)));
    // Differing length fails too.
    let mut c = DataFrame::new(None, vec![col("Temp", ColumnType::Float, 0)]);
    assert!(matches!(a.union_all(&mut c), Err(SQLError::MismatchedColumns)));
    // Differing name fails even with equal types.
    let mut d = DataFrame::new(
        None,
        vec![col("Temp", ColumnType::Float, 0), col("humidity", ColumnType::Float, 1)],
    );
    assert!(matches!(a.union_all(&mut d), Err(SQLError::MismatchedColumns)));
    assert_eq!(a.count, 2);
}

#[test]
fn ingest_round_trip() {
    let df = ingest("a,b,c\n1.0,2.0,x\n3.0,4.0,y\n").unwrap();
    assert_eq!(df.cols, 3);
    assert_eq!(df.count, 2);
    assert_eq!(df.columns[0].data_type, ColumnType::Float);
    assert_eq!(df.columns[1].data_type, ColumnType::Float);
    assert_eq!(df.columns[2].data_type, ColumnType::Text);
    assert_eq!(df.columns[0].name, "a");
    assert_eq!(df.columns[1].name, "b");
    assert_eq!(df.columns[2].name, "c");
    assert_eq!(df.columns[2].index, 2);
    assert!(df.rows[0].cells[0].value_eq(&fcell(1.0)));
    assert!(df.rows[0].cells[1].value_eq(&fcell(2.0)));
    assert!(df.rows[0].cells[2].value_eq(&tcell("x")));
    assert!(df.rows[1].cells[0].value_eq(&fcell(3.0)));
    assert!(df.rows[1].cells[2].value_eq(&tcell("y")));
}

#[test]
fn ingest_missing_data_on_header_only() {
    assert!(matches!(ingest("a,b,c\n"), Err(IngestError::MissingData)));
}

#[test]
fn ingest_missing_header_on_empty_input() {
    assert!(matches!(ingest(""), Err(IngestError::MissingHeader)));
}

#[test]
fn ingest_row_arity() {
    match ingest("a,b\n1.5,2.5\n3.5\n") {
        Err(IngestError::RowArity { row, expected, found }) => {
            assert_eq!(row, 1);
            assert_eq!(expected, 2);
            assert_eq!(found, 1);
        },
        other => panic!("expected RowArity, got {:?}", other.map(|_| ())),
    }
}

#[test]
fn ingest_type_mismatch() {
    match ingest("a\n1.5\nx\n") {
        Err(IngestError::TypeMismatch { row, column }) => {
            assert_eq!(row, 1);
            assert_eq!(column, 0);
        },
        other => panic!("expected TypeMismatch, got {:?}", other.map(|_| ())),
    }
}

#[test]
fn ingest_integer_and_boolean_inference() {
    let df = ingest("id,flag\n1,true\n-7,false\n").unwrap();
    assert_eq!(df.columns[0].data_type, ColumnType::Integer);
    assert_eq!(df.columns[1].data_type, ColumnType::Boolean);
    assert!(df.rows[0].cells[0].value_eq(&icell(1)));
    assert!(df.rows[0].cells[1].value_eq(&CellType::Boolean(true)));
    assert!(df.rows[1].cells[0].value_eq(&icell(-7)));
    assert!(df.rows[1].cells[1].value_eq(&CellType::Boolean(false)));
}

#[test]
fn ingest_integer_mismatch() {
    match ingest("id\n1\nx\n") {
        Err(IngestError::TypeMismatch { row, column }) => {
            assert_eq!(row, 1);
            assert_eq!(column, 0);
        },
        other => panic!("expected TypeMismatch, got {:?}", other.map(|_| ())),
    }
}

#[test]
fn ingest_boolean_mismatch() {
    match ingest("flag\ntrue\nmaybe\n") {
        Err(IngestError::TypeMismatch { row, column }) => {
            assert_eq!(row, 1);
            assert_eq!(column, 0);
        },
        other => panic!("expected TypeMismatch, got {:?}", other.map(|_| ())),
    }
}

#[test]
fn ingest_crlf_lines() {
    let df = ingest("a,b\r\n1.5,x\r\n").unwrap();
    assert_eq!(df.cols, 2);
    assert_eq!(df.count, 1);
    assert_eq!(df.columns[1].name, "b");
    assert!(df.rows[0].cells[1].value_eq(&tcell("x")));
}

#[test]
fn ingest_no_trailing_newline() {
    let df = ingest("a\n1.5").unwrap();
    assert_eq!(df.count, 1);
    assert!(df.rows[0].cells[0].value_eq(&fcell(1.5)));
}

#[test]
fn data_fields_hands_out_the_fields() {
    let file = CSVFile(String::from("a,b\n1.5,x\n2.5,y\n"));
    let fields = file.data_fields();
    assert_eq!(fields.len(), 2);
    assert_eq!(fields[0], vec![String::from("1.5"), String::from("x")]);
    assert_eq!(fields[1], vec![String::from("2.5"), String::from("y")]);
}

fn join_left() -> DataFrame {
    DataFrame::new(
        Some(vec![
            Row::new(vec![icell(1), tcell("x")]),
            Row::new(vec![icell(2), tcell("y")]),
        ]),
        vec![col("id", ColumnType::Integer, 0), col("v", ColumnType::Text, 1)],
    )
}

fn join_right() -> DataFrame {
    DataFrame::new(
        Some(vec![
            Row::new(vec![icell(1), tcell("p")]),
            Row::new(vec![icell(3), tcell("q")]),
        ]),
        vec![col("id", ColumnType::Integer, 0), col("w", ColumnType::Text, 1)],
    )
}

fn cell_is(c: &Option<CellType>, want: &CellType) -> bool {
    match c {
        Some(c) => c.value_eq(want),
        None => false,
    }
}

#[test]
fn join_left_outer() {
    let out = join_left().join(&join_right(), "id", Joins::LeftOuter).unwrap();
    assert_eq!(out.count, 2);
    assert_eq!(out.cols, 4);
    // Matched left row id=1.
    assert!(cell_is(&out.rows[0].cells[0], &icell(1)));
    assert!(cell_is(&out.rows[0].cells[1], &tcell("x")));
    assert!(cell_is(&out.rows[0].cells[2], &icell(1)));
    assert!(cell_is(&out.rows[0].cells[3], &tcell("p")));
    // Unmatched left row id=2: right cells null.
    assert!(cell_is(&out.rows[1].cells[0], &icell(2)));
    assert!(cell_is(&out.rows[1].cells[1], &tcell("y")));
    assert!(out.rows[1].cells[2].is_none());
    assert!(out.rows[1].cells[3].is_none());
}

#[test]
fn join_right_outer() {
    let out = join_left().join(&join_right(), "id", Joins::RightOuter).unwrap();
    assert_eq!(out.count, 2);
    // Matched pair id=1.
    assert!(cell_is(&out.rows[0].cells[0], &icell(1)));
    assert!(cell_is(&out.rows[0].cells[3], &tcell("p")));
    // Unmatched right row id=3: left cells null.
    assert!(out.rows[1].cells[0].is_none());
    assert!(out.rows[1].cells[1].is_none());
    assert!(cell_is(&out.rows[1].cells[2], &icell(3)));
    assert!(cell_is(&out.rows[1].cells[3], &tcell("q")));
}

#[test]
fn join_full() {
    let out = join_left().join(&join_right(), "id", Joins::Full).unwrap();
    assert_eq!(out.count, 3);
    // Inner match, then unmatched left, then unmatched right.
    assert!(cell_is(&out.rows[0].cells[3], &tcell("p")));
    assert!(cell_is(&out.rows[1].cells[0], &icell(2)));
    assert!(out.rows[1].cells[2].is_none());
    assert!(out.rows[2].cells[0].is_none());
    assert!(cell_is(&out.rows[2].cells[2], &icell(3)));
}

#[test]
fn join_inner_variants() {
    let li = join_left().join(&join_right(), "id", Joins::LeftInner).unwrap();
    assert_eq!(li.count, 1);
    assert!(cell_is(&li.rows[0].cells[1], &tcell("x")));
    assert!(cell_is(&li.rows[0].cells[3], &tcell("p")));
    let ri = join_left().join(&join_right(), "id", Joins::RightInner).unwrap();
    assert_eq!(ri.count, 1);
    assert!(cell_is(&ri.rows[0].cells[1], &tcell("x")));
    assert!(cell_is(&ri.rows[0].cells[3], &tcell("p")));
}

#[test]
fn join_output_schema() {
    let out = join_left().join(&join_right(), "id", Joins::LeftInner).unwrap();
    assert_eq!(out.columns.len(), 4);
    assert_eq!(out.columns[0].name, "id");
    assert_eq!(out.columns[1].name, "v");
    assert_eq!(out.columns[2].name, "id");
    assert_eq!(out.columns[3].name, "w");
    for (j, c) in out.columns.iter().enumerate() {
        assert_eq!(c.index, j);
    }
}

#[test]
fn join_column_not_found_case_sensitive() {
    // The right side spells the column differently: case must not be folded.
    let left = DataFrame::new(None, vec![col("Humidity", ColumnType::Float, 0)]);
    let right = DataFrame::new(None, vec![col("humidity", ColumnType::Float, 0)]);
    match left.join(&right, "Humidity", Joins::LeftInner) {
        Err(JoinError::ColumnNotFound { side, name }) => {
            assert_eq!(side, JoinSide::Right);
            assert_eq!(name, "Humidity");
        },
        _ => panic!("expected ColumnNotFound on the right side"),
    }
    match left.join(&right, "humidity", Joins::LeftInner) {
        Err(JoinError::ColumnNotFound { side, name }) => {
            assert_eq!(side, JoinSide::Left);
            assert_eq!(name, "humidity");
        },
        _ => panic!("expected ColumnNotFound on the left side"),
    }
}

/// The caller-side float formatting that the renderer is parameterized by.
fn float_texts(df: &DataFrame) -> Vec<Vec<String>> {
    df.rows
        .iter()
        .map(|r| {
            r.cells
                .iter()
                .map(|c| match c {
                    CellType::Float(b) => format!("{:.2}", f64::from_bits(*b)),
                    _ => String::new(),
                })
                .collect()
        })
        .collect()
}

#[test]
fn render_idempotent() {
    let df = ingest("a,b\n4.01,x\n0.1,hello\n").unwrap();
    let ft = float_texts(&df);
    let once = df.render(DISPLAY_COLUMN_WIDTH, &ft);
    let twice = df.render(DISPLAY_COLUMN_WIDTH, &ft);
    assert_eq!(once, twice);
}

#[test]
fn render_exact_grid() {
    let df = DataFrame::new(
        Some(vec![Row::new(vec![fcell(4.01)])]),
        vec![col("a", ColumnType::Float, 0)],
    );
    let ft = float_texts(&df);
    let got = df.render(20, &ft);
    let want = "a [Float]           \n\
                --------------------\n\
                \u{20}               4.01\n\
                --------------------";
    assert_eq!(got, want);
}

#[test]
fn render_empty_body() {
    let df = DataFrame::new(None, vec![col("a", ColumnType::Float, 0)]);
    let got = df.render(20, &Vec::new());
    assert_eq!(got, "a [Float]           \n\n");
}

#[test]
fn render_text_truncation() {
    let row = Row::new(vec![tcell("abcdefghijkl")]);
    let got = row.render(10, &Vec::new());
    assert_eq!(got, "abcdefg...");
}

#[test]
fn render_integer_and_boolean() {
    let row = Row::new(vec![icell(-42), CellType::Boolean(true)]);
    let got = row.render(5, &Vec::new());
    assert_eq!(got, "  -42| true");
}

#[test]
fn render_row_with_float_text() {
    let row = Row::new(vec![fcell(10109876543.01234), fcell(4.01)]);
    let ft = vec![
        format!("{:.2}", 10109876543.01234f64),
        format!("{:.2}", 4.01f64),
    ];
    let got = row.render(20, &ft);
    assert_eq!(got, "      10109876543.01|                4.01");
}

#[test]
fn sql_error_messages() {
    assert_eq!(SQLError::EmptyTable.message(), "One or more dataframes is empty.");
    assert_eq!(SQLError::MismatchedColumns.message(), "Columns do not match.");
}

#[test]
fn default_display_width() {
    assert_eq!(DISPLAY_COLUMN_WIDTH, 20);
}

#[test]
fn join_duplicate_keys_emit_every_match() {
    // One left row matching two right rows emits one combined row per match.
    let left = DataFrame::new(
        Some(vec![Row::new(vec![icell(1), tcell("x")])]),
        vec![col("id", ColumnType::Integer, 0), col("v", ColumnType::Text, 1)],
    );
    let right = DataFrame::new(
        Some(vec![
            Row::new(vec![icell(1), tcell("p")]),
            Row::new(vec![icell(1), tcell("q")]),
        ]),
        vec![col("id", ColumnType::Integer, 0), col("w", ColumnType::Text, 1)],
    );
    let out = left.join(&right, "id", Joins::LeftInner).unwrap();
    assert_eq!(out.count, 2);
    assert!(cell_is(&out.rows[0].cells[3], &tcell("p")));
    assert!(cell_is(&out.rows[1].cells[3], &tcell("q")));
}

#[test]
fn join_rowless_tables() {
    let left = DataFrame::new(None, vec![col("id", ColumnType::Integer, 0)]);
    let right = DataFrame::new(None, vec![col("id", ColumnType::Integer, 0)]);
    let out = left.join(&right, "id", Joins::Full).unwrap();
    assert_eq!(out.count, 0);
    assert_eq!(out.cols, 2);
}

#[test]
fn join_mismatched_kinds_never_match() {
    // An Integer key cell and a Float key cell never match, whatever the bits.
    let left = DataFrame::new(
        Some(vec![Row::new(vec![icell(1)])]),
        vec![col("id", ColumnType::Integer, 0)],
    );
    let right = DataFrame::new(
        Some(vec![Row::new(vec![fcell(1.0)])]),
        vec![col("id", ColumnType::Float, 0)],
    );
    let out = left.join(&right, "id", Joins::LeftInner).unwrap();
    assert_eq!(out.count, 0);
}

#[test]
fn ingest_text_column_keeps_later_numerals() {
    // The first data row fixes the types; a numeral under a Text column stays text.
    let df = ingest("a\nx\n123\n").unwrap();
    assert_eq!(df.columns[0].data_type, ColumnType::Text);
    assert!(df.rows[1].cells[0].value_eq(&tcell("123")));
}

#[test]
fn ingest_numeral_too_big_for_integer_is_float() {
    // Past the 64-bit signed range the integer parse fails and the float
    // fallback takes over.
    let df = ingest("n\n9223372036854775808\n").unwrap();
    assert_eq!(df.columns[0].data_type, ColumnType::Float);
    assert!(df.rows[0].cells[0].value_eq(&fcell(9223372036854775808.0)));
}

#[test]
fn ingest_integer_boundaries() {
    let df = ingest("lo,hi,plus\n-9223372036854775808,9223372036854775807,+5\n").unwrap();
    assert_eq!(df.columns[0].data_type, ColumnType::Integer);
    assert_eq!(df.columns[1].data_type, ColumnType::Integer);
    assert_eq!(df.columns[2].data_type, ColumnType::Integer);
    assert!(df.rows[0].cells[0].value_eq(&icell(i64::MIN)));
    assert!(df.rows[0].cells[1].value_eq(&icell(i64::MAX)));
    assert!(df.rows[0].cells[2].value_eq(&icell(5)));
}
