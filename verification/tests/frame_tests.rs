use csv_processor::series::{Column, IntoColumn};
use csv_processor::DataFrame;

#[test]
fn test_empty_dataframe_shape() {
    let df = DataFrame::empty();
    assert_eq!(df.shape(), (0, 0));
}

#[test]
fn test_headers_and_cols_correct_shape() {
    let headers = vec!["a".to_string(), "b".to_string()];
    let cols = vec![
        vec!["a1".to_string(), "a2".to_string(), "a3".to_string()],
        vec!["b1".to_string(), "b2".to_string(), "b3".to_string()],
    ];
    let df = DataFrame::new(Some(headers), cols).unwrap();
    assert_eq!(df.shape(), (3, 2))
}

#[test]
fn test_no_headers_correct_shape() {
    let cols = vec![
        vec!["a1".to_string(), "a2".to_string(), "a3".to_string()],
        vec!["b1".to_string(), "b2".to_string(), "b3".to_string()],
    ];
    let df = DataFrame::new(None, cols).unwrap();
    assert_eq!(df.shape(), (3, 2))
}

#[test]
#[should_panic]
fn test_headers_and_cols_wrong_shape() {
    let headers = vec!["a".to_string(), "b".to_string()];
    let cols = vec![
        vec!["a1".to_string(), "a2".to_string(), "a3".to_string()],
        vec!["b1".to_string(), "b2".to_string(), "b3".to_string()],
        vec!["c1".to_string(), "c2".to_string(), "c3".to_string()],
    ];
    DataFrame::new(Some(headers), cols).unwrap();
}

#[test]
#[should_panic]
fn test_cols_wrong_shape() {
    let headers = vec!["a".to_string(), "b".to_string()];
    let cols = vec![
        vec!["a1".to_string(), "a2".to_string(), "a3".to_string()],
        vec!["b1".to_string(), "b2".to_string()],
    ];
    DataFrame::new(Some(headers), cols).unwrap();
}

#[test]
fn test_dataframe_display_output() {
    let headers = vec!["name".to_string(), "age".to_string()];
    let cols = vec![
        vec!["Alice".to_string(), "Bob".to_string()],
        vec!["25".to_string(), "30".to_string()],
    ];
    let df = DataFrame::new(Some(headers), cols).unwrap();
    let output = df.display();
    assert!(output.contains("name"));
    assert!(output.contains("Alice"));
}

#[test]
fn test_get_column_valid_index() {
    let cols = vec![
        vec!["1".to_string(), "2".to_string()],
        vec!["a".to_string(), "b".to_string()],
    ];
    let df = DataFrame::new(None, cols).unwrap();
    assert!(df.get_column(0).is_some());
    assert!(df.get_column(1).is_some());
}

#[test]
fn test_get_column_invalid_index() {
    let cols = vec![vec!["1".to_string(), "2".to_string()]];
    let df = DataFrame::new(None, cols).unwrap();
    assert!(df.get_column(5).is_none());
}

#[test]
fn test_integer_column_statistics() {
    let cols: Vec<Vec<i64>> = vec![vec![1, 2, 3]];
    let df = DataFrame::new(None, cols).unwrap();
    let column = df.get_column(0).unwrap();
    assert_eq!(column.sum().map(|r| r.num as f64 / r.den as f64), Some(6.0));
    assert_eq!(
        column.mean().map(|r| r.num as f64 / r.den as f64),
        Some(2.0)
    );
}

#[test]
fn test_mixed_type_column() {
    let cols = vec![vec!["1".to_string(), "hello".to_string(), "3".to_string()]];
    let df = DataFrame::from_strings(None, cols).unwrap();
    let column = df.get_column(0).unwrap();
    // Parsed as a string column: "hello" defeats every numeric pass.
    assert_eq!(column.sum(), None);
}

#[test]
fn test_column_with_nulls() {
    let cols = vec![vec![Some(1), Some(2), None, Some(4)]];
    let df = DataFrame::new(None, cols).unwrap();
    let column = df.get_column(0).unwrap();
    assert_eq!(column.null_count(), 1);
    assert_eq!(column.len(), 4);
    assert_eq!(df.shape(), (4, 1));
}

#[test]
fn test_boolean_column_operations() {
    let cols = vec![vec![
        "true".to_string(),
        "false".to_string(),
        "true".to_string(),
    ]];
    let df = DataFrame::from_strings(None, cols).unwrap();
    let column = df.get_column(0).unwrap();
    // Count of true values.
    assert_eq!(column.sum().map(|r| r.num as f64 / r.den as f64), Some(2.0));
}

#[test]
fn test_single_row_dataframe() {
    let cols = vec![vec!["single".to_string()]];
    let df = DataFrame::new(None, cols).unwrap();
    assert_eq!(df.shape(), (1, 1));
}

#[test]
fn test_empty_columns() {
    let cols: Vec<Vec<String>> = vec![vec![], vec![]];
    let df = DataFrame::new(None, cols).unwrap();
    assert_eq!(df.shape(), (0, 2));
}

#[test]
fn test_typed_integer_column() {
    let cols: Vec<Vec<i64>> = vec![vec![1, 2, 3]];
    let df = DataFrame::new(None, cols).unwrap();
    let col = df.get_column(0).unwrap();
    assert_eq!(col.sum().map(|r| r.num as f64 / r.den as f64), Some(6.0));
}

#[test]
fn test_typed_boolean_column() {
    let cols = vec![vec![true, false, true]];
    let df = DataFrame::new(None, cols).unwrap();
    let col = df.get_column(0).unwrap();
    // Count of true values.
    assert_eq!(col.sum().map(|r| r.num as f64 / r.den as f64), Some(2.0));
}

#[test]
fn test_create_df_from_homog_columns() {
    let col1: Vec<i64> = vec![1, 2, 3];
    let col2: Vec<i64> = vec![4, 5, 6];
    let col3: Vec<i64> = vec![7, 8, 9];
    let col4: Vec<i64> = vec![10, 11, 12];

    let columns: Vec<Column> = vec![
        col1.into_column(),
        col2.into_column(),
        col3.into_column(),
        col4.into_column(),
    ];

    let df = DataFrame::from_columns(None, columns).unwrap();

    assert_eq!(df.shape(), (3, 4));
    let mean = df.get_column(0).unwrap().mean().unwrap();
    assert_eq!(mean.num as f64 / mean.den as f64, 2.0);
}
