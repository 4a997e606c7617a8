use csv_processor::frame::DataFrameError;
use csv_processor::parser::{parse_cell, Dataset};
use csv_processor::{CellValue, DataFrame};

#[test]
fn test_parse_cell_cascade() {
    assert_eq!(parse_cell(""), CellValue::Null);
    assert_eq!(parse_cell("NA"), CellValue::Null);
    assert_eq!(parse_cell("42"), CellValue::Integer(42));
    assert_eq!(parse_cell("-7"), CellValue::Integer(-7));
    assert_eq!(parse_cell("1.5"), CellValue::Float("1.5".to_string()));
    assert_eq!(parse_cell("yes"), CellValue::Boolean(true));
    assert_eq!(parse_cell("FALSE"), CellValue::Boolean(false));
    assert_eq!(parse_cell("hello"), CellValue::Str("hello".to_string()));
    // Integer wins over boolean on the shared tokens.
    assert_eq!(parse_cell("0"), CellValue::Integer(0));
    assert_eq!(parse_cell("1"), CellValue::Integer(1));
}

#[test]
fn test_dataset_decodes_columns() {
    let headers = vec!["a".to_string(), "b".to_string()];
    let rows = vec![
        vec!["1".to_string(), "x".to_string()],
        vec!["na".to_string(), "true".to_string()],
    ];
    let ds = Dataset::new(headers, rows, 99);
    assert_eq!(ds.row_count(), 2);
    assert_eq!(ds.col_count(), 2);
    assert_eq!(ds.file_size(), 99);
    assert_eq!(ds.columns[0][0], CellValue::Integer(1));
    assert_eq!(ds.columns[0][1], CellValue::Null);
    assert_eq!(ds.columns[1][0], CellValue::Str("x".to_string()));
    assert_eq!(ds.columns[1][1], CellValue::Boolean(true));
}

#[test]
fn test_dataset_column_lookup() {
    let headers = vec!["a".to_string(), "b".to_string()];
    let rows = vec![
        vec!["1".to_string(), "x".to_string()],
        vec!["2".to_string(), "y".to_string()],
    ];
    let ds = Dataset::new(headers, rows, 0);
    assert_eq!(ds.get_column_by_name("b"), Some(vec!["x", "y"]));
    assert_eq!(ds.get_column_by_name("zzz"), None);
    assert_eq!(ds.get_column_by_index(0), Some(vec!["1", "2"]));
    assert_eq!(ds.get_column_by_index(5), None);
}

#[test]
fn test_from_rows_builds_typed_columns() {
    let headers = vec!["n".to_string(), "s".to_string()];
    let rows = vec![
        vec!["1".to_string(), "x".to_string()],
        vec!["2".to_string(), "y".to_string()],
        vec!["3".to_string(), "z".to_string()],
    ];
    let df = DataFrame::from_rows(headers, rows).unwrap();
    assert_eq!(df.shape(), (3, 2));
    let n = df.get_column(0).unwrap();
    assert_eq!(n.sum().map(|r| r.num as f64 / r.den as f64), Some(6.0));
}

#[test]
fn test_from_rows_rejects_ragged_rows() {
    let headers = vec!["a".to_string(), "b".to_string()];
    let rows = vec![
        vec!["1".to_string(), "2".to_string()],
        vec!["3".to_string()],
    ];
    let err = DataFrame::from_rows(headers, rows).unwrap_err();
    assert_eq!(
        err,
        DataFrameError::RowLengthMismatch {
            index: 2,
            expected: 2,
            actual: 1,
        }
    );
}

#[test]
fn test_construction_errors_name_the_offender() {
    let headers = vec!["a".to_string(), "b".to_string()];
    let cols = vec![
        vec!["a1".to_string(), "a2".to_string(), "a3".to_string()],
        vec!["b1".to_string(), "b2".to_string()],
    ];
    let err = DataFrame::new(Some(headers), cols).unwrap_err();
    assert_eq!(
        err,
        DataFrameError::ColumnsLengthMismatch {
            column: "b".to_string(),
            expected: 3,
            actual: 2,
        }
    );
    assert_eq!(err.message(), "Column 'b' has length 2 but expected 3");

    let headers2 = vec!["a".to_string()];
    let cols2 = vec![
        vec!["a1".to_string()],
        vec!["b1".to_string()],
    ];
    let err2 = DataFrame::new(Some(headers2), cols2).unwrap_err();
    assert_eq!(
        err2,
        DataFrameError::HeadersColumnsLengthMismatch {
            headers: 1,
            columns: 2,
        }
    );
    assert_eq!(
        err2.message(),
        "Headers and columns have different size: headers=1, columns=2"
    );
}

#[test]
fn test_from_strings_validates_column_lengths() {
    let cols = vec![
        vec!["1".to_string(), "2".to_string()],
        vec!["3".to_string()],
    ];
    let err = DataFrame::from_strings(None, cols).unwrap_err();
    assert_eq!(
        err,
        DataFrameError::ColumnsLengthMismatch {
            column: "unknown".to_string(),
            expected: 2,
            actual: 1,
        }
    );
}
