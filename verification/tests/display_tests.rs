use csv_processor::DataFrame;

#[test]
fn test_empty_table_renders_shape_marker() {
    let df = DataFrame::empty();
    assert_eq!(df.display(), "0 rows × 0 columns\n(empty)\n");
}

#[test]
fn test_small_table_renders_exact_box() {
    let headers = vec!["a".to_string()];
    let cols = vec![vec!["x".to_string()]];
    let df = DataFrame::new(Some(headers), cols).unwrap();
    let expected = "┌──────────┐\n\
                    │    a     │\n\
                    ├──────────┤\n\
                    │    x     │\n\
                    └──────────┘\n\
                    1 rows × 1 columns";
    assert_eq!(df.display(), expected);
}

#[test]
fn test_long_text_is_truncated_with_ellipsis() {
    let headers = vec!["h".to_string()];
    let cols = vec![vec!["abcdefghijklmnopqrstuvwxyz".to_string()]];
    let df = DataFrame::new(Some(headers), cols).unwrap();
    let out = df.display();
    assert!(out.contains("abcdefghijklmnopqrs…"));
    assert!(!out.contains("abcdefghijklmnopqrst"));
}

#[test]
fn test_long_table_shows_head_gap_and_tail() {
    let headers = vec!["n".to_string()];
    let mut cells: Vec<String> = Vec::new();
    for i in 0..12 {
        cells.push(format!("{}", i));
    }
    let df = DataFrame::from_strings(Some(headers), vec![cells]).unwrap();
    let out = df.display();
    // Nine head rows, the gap marker, then the last row.
    assert!(out.contains("8"));
    assert!(out.contains("⋮"));
    assert!(out.contains("11"));
    // The tenth row falls in the gap.
    assert!(!out.contains("│    9     │"));
    assert!(out.contains("12 rows × 1 columns"));
}

#[test]
fn test_null_slots_render_as_null() {
    let headers = vec!["v".to_string()];
    let cols = vec![vec![Some(3), None]];
    let df = DataFrame::new(Some(headers), cols).unwrap();
    let out = df.display();
    assert!(out.contains("null"));
}

#[test]
fn test_headerless_table_renders_empty_box_with_shape() {
    let cols = vec![
        vec!["a1".to_string(), "a2".to_string(), "a3".to_string()],
        vec!["b1".to_string(), "b2".to_string(), "b3".to_string()],
    ];
    let df = csv_processor::DataFrame::new(None, cols).unwrap();
    // The box is drawn from the header list, so a headerless table shows
    // only the frame lines and the shape note.
    assert_eq!(df.display(), "┌┐\n│\n├┤\n│\n│\n│\n└┘\n3 rows × 2 columns");
}
