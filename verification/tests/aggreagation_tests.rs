use csv_processor::dataframe::aggregation::ChunkAgg;
use csv_processor::dataframe::columns::IntegerColumn;
use csv_processor::scalar::Ratio;

#[test]
fn test_sum() {
    let col = IntegerColumn(vec![Some(1), Some(2), Some(3)]);
    assert_eq!(col.sum(), Some(6));
}

#[test]
fn test_max() {
    let col = IntegerColumn(vec![Some(1), Some(2), Some(3)]);
    assert_eq!(col.max(), Some(3));
}

#[test]
fn test_mean() {
    let col = IntegerColumn(vec![Some(1), Some(2), Some(3)]);
    let mean_float: Option<Ratio> = col.mean();
    let mean_none: Option<i64> = col.mean();
    assert_eq!(mean_none, None);
    assert_eq!(mean_float.map(|r| r.num as f64 / r.den as f64), Some(2.0));
}
