use csv_processor::series::{BooleanColumn, Column, FloatColumn, IntegerColumn, StringColumn};

#[test]
fn test_sum_int() {
    let col = IntegerColumn(vec![Some(1), Some(2), Some(3)]);
    assert_eq!(col.sum().map(|r| r.num as f64 / r.den as f64), Some(6.0));
}

#[test]
fn test_max_int() {
    let col = IntegerColumn(vec![Some(1), Some(2), Some(3)]);
    assert_eq!(col.max().map(|r| r.num as f64 / r.den as f64), Some(3.0));
}

#[test]
fn test_mean_int() {
    let col = IntegerColumn(vec![Some(1), Some(2), Some(3)]);
    let mean_float: Option<f64> = col.mean().map(|r| r.num as f64 / r.den as f64);
    assert_eq!(mean_float, Some(2.0));
}

#[test]
fn test_sum_bool() {
    let col = BooleanColumn(vec![Some(true), Some(false), Some(true)]);
    assert_eq!(col.sum().map(|r| r.num as f64 / r.den as f64), Some(2.0));
}

#[test]
fn test_mean_bool() {
    let col = BooleanColumn(vec![Some(true), Some(false), Some(true)]);
    let mean_none = col.mean().map(|r| r.num as f64 / r.den as f64);
    assert_eq!(mean_none, Some(0.6666666666666666));
}

#[test]
fn test_max_bool() {
    let col = BooleanColumn(vec![Some(true), Some(false), Some(true)]);
    let col2 = BooleanColumn(vec![Some(false), Some(false), Some(false)]);
    let col3 = BooleanColumn(vec![Some(true), Some(true), Some(true)]);

    assert_eq!(col.max().map(|r| r.num as f64 / r.den as f64), Some(1.0));
    assert_eq!(col2.max().map(|r| r.num as f64 / r.den as f64), Some(0.0));
    assert_eq!(col3.max().map(|r| r.num as f64 / r.den as f64), Some(1.0));
}

#[test]
fn test_min_bool() {
    let col = BooleanColumn(vec![Some(true), Some(false), Some(true)]);
    let col2 = BooleanColumn(vec![Some(false), Some(false), Some(false)]);
    let col3 = BooleanColumn(vec![Some(true), Some(true), Some(true)]);

    assert_eq!(col.min().map(|r| r.num as f64 / r.den as f64), Some(0.0));
    assert_eq!(col2.min().map(|r| r.num as f64 / r.den as f64), Some(0.0));
    assert_eq!(col3.min().map(|r| r.num as f64 / r.den as f64), Some(1.0));
}

#[test]
fn test_str_mean() {
    let col = StringColumn(vec![
        Some("apple".to_string()),
        Some("banana".to_string()),
        Some("cherry".to_string()),
    ]);

    assert_eq!(col.mean(), None);
}

#[test]
fn test_str_sum() {
    let col = StringColumn(vec![
        Some("apple".to_string()),
        Some("banana".to_string()),
        Some("cherry".to_string()),
    ]);

    assert_eq!(col.sum(), None);
}

#[test]
fn test_str_max() {
    let col = StringColumn(vec![
        Some("apple".to_string()),
        Some("banana".to_string()),
        Some("cucumber".to_string()),
    ]);

    assert_eq!(col.max(), None);
}

#[test]
fn test_str_min() {
    let col = StringColumn(vec![
        Some("apple".to_string()),
        Some("banana".to_string()),
        Some("cucumber".to_string()),
    ]);

    assert_eq!(col.min(), None);
}

#[test]
fn test_import_string_col_to_json() {
    let col = Column::Str(StringColumn(vec![
        Some("apple".to_string()),
        Some("banana".to_string()),
        Some("cucumber".to_string()),
    ]));

    let result = vec![
        serde_json::Value::String("apple".to_string()).to_string(),
        serde_json::Value::String("banana".to_string()).to_string(),
        serde_json::Value::String("cucumber".to_string()).to_string(),
    ];

    assert_eq!(col.to_json(), result)
}

#[test]
fn test_import_int_col_to_json() {
    let col = Column::Integer(IntegerColumn(vec![
        Some(1),
        Some(2),
        Some(3),
        Some(4),
        Some(5),
    ]));

    let mut result = Vec::new();
    for i in 1..=5 {
        result.push(serde_json::Value::Number(serde_json::Number::from(i)).to_string());
    }
    assert_eq!(col.to_json(), result)
}

#[test]
fn test_import_bool_col_to_json() {
    let col = Column::Boolean(BooleanColumn(vec![Some(true), Some(false), Some(true)]));
    let result = vec![
        serde_json::Value::Bool(true).to_string(),
        serde_json::Value::Bool(false).to_string(),
        serde_json::Value::Bool(true).to_string(),
    ];

    assert_eq!(col.to_json(), result)
}

#[test]
fn test_import_bool_col_with_nan_to_json() {
    let col = Column::Boolean(BooleanColumn(vec![None, Some(false), Some(true)]));
    let result = vec![
        serde_json::Value::Null.to_string(),
        serde_json::Value::Bool(false).to_string(),
        serde_json::Value::Bool(true).to_string(),
    ];

    assert_eq!(col.to_json(), result)
}

#[test]
fn test_import_all_null_col_to_json() {
    let col = Column::Float(FloatColumn(vec![None, None, None]));
    let result = vec![
        serde_json::Value::Null.to_string(),
        serde_json::Value::Null.to_string(),
        serde_json::Value::Null.to_string(),
    ];

    assert_eq!(col.to_json(), result)
}
