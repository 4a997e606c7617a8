use csv_processor::series::{Column, FloatColumn, StringColumn};
use csv_processor::DataFrame;

#[test]
fn test_string_cells_escape_like_json() {
    let tricky = "he\"llo\n\\tab\tdone\u{1}".to_string();
    let col = Column::Str(StringColumn(vec![Some(tricky.clone())]));
    let expected = vec![serde_json::Value::String(tricky).to_string()];
    assert_eq!(col.to_json(), expected);
}

#[test]
fn test_float_tokens_normalise_to_valid_json_numbers() {
    let col = Column::Float(FloatColumn(vec![
        Some("+1.5".to_string()),
        Some(".5".to_string()),
        Some("5.".to_string()),
        Some("007".to_string()),
        Some("1e3".to_string()),
        Some("NaN".to_string()),
        Some("-inf".to_string()),
        None,
    ]));
    assert_eq!(
        col.to_json(),
        vec![
            "1.5".to_string(),
            "0.5".to_string(),
            "5.0".to_string(),
            "7".to_string(),
            "1e3".to_string(),
            "null".to_string(),
            "null".to_string(),
            "null".to_string(),
        ]
    );
    // Every emitted cell must itself be JSON that serde can read back.
    for cell in col.to_json() {
        let v: serde_json::Value = serde_json::from_str(&cell).unwrap();
        assert!(v.is_number() || v.is_null());
    }
}

#[test]
fn test_to_json_shape() {
    let headers = vec!["a".to_string(), "b".to_string()];
    let cols = vec![
        vec!["1".to_string(), "2".to_string()],
        vec!["x".to_string(), "".to_string()],
    ];
    let df = DataFrame::from_strings(Some(headers), cols).unwrap();
    let json = df.to_json().unwrap();
    assert_eq!(json, "{\"columns\":[[1,2],[\"x\",null]],\"headers\":[\"a\",\"b\"]}");
}

#[test]
fn test_to_json_round_trip() {
    let headers = vec!["s".to_string(), "n".to_string(), "b".to_string()];
    let cols = vec![
        vec!["al\"pha".to_string(), "na".to_string(), "gamma".to_string()],
        vec!["1".to_string(), "-7".to_string(), "".to_string()],
        vec!["true".to_string(), "no".to_string(), "yes".to_string()],
    ];
    let df = DataFrame::from_strings(Some(headers), cols).unwrap();
    let json = df.to_json().unwrap();
    let v: serde_json::Value = serde_json::from_str(&json).unwrap();

    let expected_headers = serde_json::Value::Array(vec![
        serde_json::Value::String("s".to_string()),
        serde_json::Value::String("n".to_string()),
        serde_json::Value::String("b".to_string()),
    ]);
    assert_eq!(v["headers"], expected_headers);

    let expected_columns = serde_json::Value::Array(vec![
        serde_json::Value::Array(vec![
            serde_json::Value::String("al\"pha".to_string()),
            serde_json::Value::Null,
            serde_json::Value::String("gamma".to_string()),
        ]),
        serde_json::Value::Array(vec![
            serde_json::Value::Number(serde_json::Number::from(1)),
            serde_json::Value::Number(serde_json::Number::from(-7)),
            serde_json::Value::Null,
        ]),
        serde_json::Value::Array(vec![
            serde_json::Value::Bool(true),
            serde_json::Value::Bool(false),
            serde_json::Value::Bool(true),
        ]),
    ]);
    assert_eq!(v["columns"], expected_columns);
}
