use csv_processor::series::{FloatColumn, IntegerColumn};
use csv_processor::{DataFrame, Dtype};

#[test]
fn test_integer_eligible_column_is_integer() {
    let cols = vec![vec!["1".to_string(), "2".to_string(), "3".to_string()]];
    let df = DataFrame::from_strings(None, cols).unwrap();
    let col = df.get_column(0).unwrap();
    assert_eq!(col.dtype(), Dtype::Integer);
    assert_eq!(col.sum().map(|r| r.num as f64 / r.den as f64), Some(6.0));
    assert_eq!(col.mean().map(|r| r.num as f64 / r.den as f64), Some(2.0));
    assert_eq!(col.max().map(|r| r.num as f64 / r.den as f64), Some(3.0));
}

#[test]
fn test_one_non_numeric_token_forces_string() {
    let cols = vec![vec!["1".to_string(), "hello".to_string(), "3".to_string()]];
    let df = DataFrame::from_strings(None, cols).unwrap();
    let col = df.get_column(0).unwrap();
    assert_eq!(col.dtype(), Dtype::Str);
    assert_eq!(col.sum(), None);
    assert_eq!(col.min(), None);
    assert_eq!(col.max(), None);
    assert_eq!(col.mean(), None);
}

#[test]
fn test_zero_and_one_prefer_integer_over_boolean() {
    let cols = vec![vec!["0".to_string(), "1".to_string()]];
    let df = DataFrame::from_strings(None, cols).unwrap();
    assert_eq!(df.get_column(0).unwrap().dtype(), Dtype::Integer);
}

#[test]
fn test_boolean_tokens_any_case() {
    let cols = vec![vec![
        "TRUE".to_string(),
        "False".to_string(),
        "yes".to_string(),
        "NO".to_string(),
    ]];
    let df = DataFrame::from_strings(None, cols).unwrap();
    let col = df.get_column(0).unwrap();
    assert_eq!(col.dtype(), Dtype::Boolean);
    assert_eq!(col.sum().map(|r| r.num as f64 / r.den as f64), Some(2.0));
}

#[test]
fn test_null_tokens_empty_and_na() {
    let cols = vec![vec![
        "1".to_string(),
        "".to_string(),
        "na".to_string(),
        "NA".to_string(),
        "4".to_string(),
    ]];
    let df = DataFrame::from_strings(None, cols).unwrap();
    let col = df.get_column(0).unwrap();
    assert_eq!(col.dtype(), Dtype::Integer);
    assert_eq!(col.null_count(), 3);
    assert_eq!(col.non_null_count(), 2);
    assert_eq!(col.sum().map(|r| r.num as f64 / r.den as f64), Some(5.0));
}

#[test]
fn test_float_shapes_are_float_typed() {
    let cols = vec![vec![
        "+1.5".to_string(),
        ".5".to_string(),
        "5.".to_string(),
        "1e3".to_string(),
        "inf".to_string(),
        "NaN".to_string(),
    ]];
    let df = DataFrame::from_strings(None, cols).unwrap();
    let col = df.get_column(0).unwrap();
    assert_eq!(col.dtype(), Dtype::Float);
    assert_eq!(col.null_count(), 0);
}

#[test]
fn test_int_overflow_falls_back_to_float() {
    // One past i64::MAX: the integer pass rejects it, the float pass takes it.
    let cols = vec![vec!["9223372036854775808".to_string()]];
    let df = DataFrame::from_strings(None, cols).unwrap();
    assert_eq!(df.get_column(0).unwrap().dtype(), Dtype::Float);

    // i64::MIN itself still parses as an integer.
    let cols2 = vec![vec!["-9223372036854775808".to_string()]];
    let df2 = DataFrame::from_strings(None, cols2).unwrap();
    assert_eq!(df2.get_column(0).unwrap().dtype(), Dtype::Integer);
}

#[test]
fn test_nan_is_not_null_and_is_excluded_from_numeric_tokens() {
    let cols = vec![vec![
        "1.5".to_string(),
        "NaN".to_string(),
        "2.5".to_string(),
    ]];
    let df = DataFrame::from_strings(None, cols).unwrap();
    let col = df.get_column(0).unwrap();
    assert_eq!(col.dtype(), Dtype::Float);
    // NaN counts as present, not as null.
    assert_eq!(col.null_count(), 0);

    let fc = FloatColumn(vec![
        Some("1.5".to_string()),
        Some("NaN".to_string()),
        None,
        Some("2.5".to_string()),
    ]);
    assert_eq!(
        fc.numeric_tokens(),
        vec!["1.5".to_string(), "2.5".to_string()]
    );
}

#[test]
fn test_aggregate_idempotence() {
    let col = IntegerColumn(vec![Some(1), None, Some(5)]);
    assert_eq!(col.sum(), col.sum());
    assert_eq!(col.mean(), col.mean());
    assert_eq!(col.min(), col.min());
    assert_eq!(col.max(), col.max());
    assert_eq!(col.sum().map(|r| r.num as f64 / r.den as f64), Some(6.0));
    assert_eq!(col.mean().map(|r| r.num as f64 / r.den as f64), Some(3.0));
}

#[test]
fn test_integer_mean_zero_for_empty() {
    let col = IntegerColumn(vec![None, None]);
    assert_eq!(col.mean().map(|r| r.num as f64 / r.den as f64), Some(0.0));
    assert_eq!(col.min(), None);
    assert_eq!(col.max(), None);
}
