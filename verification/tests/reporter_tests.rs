use csv_processor::reporter::{
    generate_info_report, generate_long_report, generate_na_report, generate_wide_report,
};
use csv_processor::{CellValue, DataFrame};

fn sample() -> DataFrame {
    let headers = vec!["n".to_string(), "s".to_string()];
    let cols = vec![
        vec!["1".to_string(), "na".to_string(), "3".to_string()],
        vec!["x".to_string(), "y".to_string(), "".to_string()],
    ];
    DataFrame::from_strings(Some(headers), cols).unwrap()
}

#[test]
fn test_na_report_counts_nulls_per_column() {
    let df = sample();
    let report = generate_na_report(&df);
    assert_eq!(report.shape(), (2, 2));
    assert_eq!(
        report.headers(),
        vec!["column".to_string(), "null_count".to_string()]
    );
    let names = report.get_column(0).unwrap();
    assert_eq!(names.get(0), Some(CellValue::Str("n".to_string())));
    assert_eq!(names.get(1), Some(CellValue::Str("s".to_string())));
    let counts = report.get_column(1).unwrap();
    assert_eq!(counts.get(0), Some(CellValue::Integer(1)));
    assert_eq!(counts.get(1), Some(CellValue::Integer(1)));
}

#[test]
fn test_info_report_rows_per_source_column() {
    let df = sample();
    let report = generate_info_report(&df);
    assert_eq!(report.shape(), (2, 7));
    assert_eq!(
        report.headers(),
        vec![
            "column".to_string(),
            "mean".to_string(),
            "sum".to_string(),
            "min".to_string(),
            "max".to_string(),
            "null_count".to_string(),
            "dtype".to_string(),
        ]
    );
    // The integer column: mean (1+3)/2, sum 4, min 1, max 3, one null.
    let mean = report.get_column(1).unwrap();
    assert_eq!(mean.get(0), Some(CellValue::Float("2.00".to_string())));
    // The string column has no numeric aggregates.
    assert_eq!(mean.get(1), None);
    let sum = report.get_column(2).unwrap();
    assert_eq!(sum.get(0), Some(CellValue::Float("4.00".to_string())));
    let min = report.get_column(3).unwrap();
    assert_eq!(min.get(0), Some(CellValue::Float("1.00".to_string())));
    let max = report.get_column(4).unwrap();
    assert_eq!(max.get(0), Some(CellValue::Float("3.00".to_string())));
    let nulls = report.get_column(5).unwrap();
    assert_eq!(nulls.get(0), Some(CellValue::Integer(1)));
    let dtypes = report.get_column(6).unwrap();
    assert_eq!(dtypes.get(0), Some(CellValue::Str("Integer".to_string())));
    assert_eq!(dtypes.get(1), Some(CellValue::Str("Str".to_string())));
}

#[test]
fn test_wide_report_one_row_per_metric() {
    let df = sample();
    let report = generate_wide_report(&df);
    assert_eq!(report.shape(), (4, 3));
    assert_eq!(
        report.headers(),
        vec!["metric".to_string(), "n".to_string(), "s".to_string()]
    );
    let metrics = report.get_column(0).unwrap();
    assert_eq!(metrics.get(0), Some(CellValue::Str("mean".to_string())));
    assert_eq!(metrics.get(3), Some(CellValue::Str("sum".to_string())));
    let n = report.get_column(1).unwrap();
    assert_eq!(n.get(0), Some(CellValue::Str("2.00".to_string())));
    assert_eq!(n.get(1), Some(CellValue::Str("3.00".to_string())));
    assert_eq!(n.get(2), Some(CellValue::Str("1.00".to_string())));
    assert_eq!(n.get(3), Some(CellValue::Str("4.00".to_string())));
    let s = report.get_column(2).unwrap();
    assert_eq!(s.get(0), Some(CellValue::Str("N/A".to_string())));
}

#[test]
fn test_long_report_one_row_per_column_and_metric() {
    let df = sample();
    let report = generate_long_report(&df);
    assert_eq!(report.shape(), (8, 3));
    assert_eq!(
        report.headers(),
        vec!["Column".to_string(), "Metric".to_string(), "Value".to_string()]
    );
    let names = report.get_column(0).unwrap();
    assert_eq!(names.get(0), Some(CellValue::Str("n".to_string())));
    assert_eq!(names.get(4), Some(CellValue::Str("s".to_string())));
    let metrics = report.get_column(1).unwrap();
    assert_eq!(metrics.get(0), Some(CellValue::Str("mean".to_string())));
    assert_eq!(metrics.get(1), Some(CellValue::Str("max".to_string())));
    assert_eq!(metrics.get(2), Some(CellValue::Str("min".to_string())));
    assert_eq!(metrics.get(3), Some(CellValue::Str("sum".to_string())));
    let values = report.get_column(2).unwrap();
    assert_eq!(values.get(0), Some(CellValue::Str("2.00".to_string())));
    assert_eq!(values.get(7), Some(CellValue::Str("N/A".to_string())));
}

#[test]
fn test_float_columns_report_no_exact_aggregates() {
    let cols = vec![vec!["1.5".to_string(), "2.5".to_string()]];
    let df = DataFrame::from_strings(None, cols).unwrap();
    let report = generate_wide_report(&df);
    let col = report.get_column(1).unwrap();
    // The exact rational contract answers nothing for float columns; the
    // report shows the placeholder.
    assert_eq!(col.get(0), Some(CellValue::Str("N/A".to_string())));
    assert_eq!(col.get(3), Some(CellValue::Str("N/A".to_string())));
}

#[test]
fn test_headerless_source_columns_get_synthesised_names() {
    let cols = vec![vec!["1".to_string(), "2".to_string()]];
    let df = DataFrame::from_strings(None, cols).unwrap();
    let report = generate_na_report(&df);
    let names = report.get_column(0).unwrap();
    assert_eq!(names.get(0), Some(CellValue::Str("Column_0".to_string())));
}

#[test]
fn test_report_rounds_half_to_even_and_keeps_sign() {
    let cols = vec![vec![
        "1".to_string(),
        "0".to_string(),
        "0".to_string(),
        "0".to_string(),
        "0".to_string(),
        "0".to_string(),
        "0".to_string(),
        "0".to_string(),
    ]];
    let df = DataFrame::from_strings(None, cols).unwrap();
    let report = generate_info_report(&df);
    let mean = report.get_column(1).unwrap();
    // 1/8 = 0.125 rounds to the even hundredth.
    assert_eq!(mean.get(0), Some(CellValue::Float("0.12".to_string())));

    let cols2 = vec![vec!["-1".to_string(), "0".to_string()]];
    let df2 = DataFrame::from_strings(None, cols2).unwrap();
    let report2 = generate_info_report(&df2);
    let mean2 = report2.get_column(1).unwrap();
    assert_eq!(mean2.get(0), Some(CellValue::Float("-0.50".to_string())));
}
