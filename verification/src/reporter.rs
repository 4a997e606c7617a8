//! Derived report tables: per-column statistics in a wide shape (one row
//! per metric), a long shape (one row per column and metric), and the
//! info and missing-value shapes. Every form walks the source columns left
//! to right and names them by their header, or a synthesised placeholder.

use vstd::prelude::*;
use vstd::string::*;

use crate::frame::{cols_model, df_wf, DataFrame, DataFrameModel};
use crate::scalar::Ratio;
use crate::series::{
    agg_matches, col_model_len, col_model_mean, col_model_min, col_model_max, col_model_nulls,
    col_model_sum, col_model_dtype, ColModel, Column, IntegerColumn, FloatColumn, StringColumn,
};
use crate::text::{push_char, spec_uint_str, usize_to_string, u128_to_string};
use crate::types::dtype_name;
use vstd::arithmetic::div_mod::{lemma_fundamental_div_mod, lemma_div_nonincreasing};

verus! {

// ---------------------------------------------------------------------------
// Two-decimal formatting of exact rationals
// ---------------------------------------------------------------------------
/// `a/den` in hundredths, rounded to nearest with ties to even.
pub open spec fn round_cents(a: nat, den: nat) -> nat
    recommends
        den >= 1,
{
    let rem = a % den;
    let c100 = 100 * rem;
    let cf = c100 / den;
    let r2 = c100 % den;
    if 2 * r2 > den {
        cf + 1
    } else if 2 * r2 < den {
        cf
    } else if cf % 2 == 0 {
        cf
    } else {
        cf + 1
    }
}

/// The magnitude `a/den` written with exactly two decimal places.
pub open spec fn fmt2_mag(a: nat, den: nat) -> Seq<char>
    recommends
        den >= 1,
{
    let ip0 = a / den;
    let cents = round_cents(a, den);
    let ip = if cents >= 100 {
        ip0 + 1
    } else {
        ip0
    };
    let fr: nat = if cents >= 100 {
        0
    } else {
        cents
    };
    spec_uint_str(ip) + seq!['.'] + if fr < 10 {
        seq!['0'] + spec_uint_str(fr)
    } else {
        spec_uint_str(fr)
    }
}

/// A rational written with two decimal places, the sign kept in front.
pub open spec fn fmt2(num: int, den: int) -> Seq<char>
    recommends
        den >= 1,
{
    if num < 0 {
        seq!['-'] + fmt2_mag((-num) as nat, den as nat)
    } else {
        fmt2_mag(num as nat, den as nat)
    }
}

/// Format an aggregate result to two decimal places.
pub fn format_ratio(q: Ratio) -> (r: String)
    requires
        q.den >= 1,
        q.num > i128::MIN,
    ensures
        r@ == fmt2(q.num as int, q.den as int),
{
    let neg = q.num < 0;
    let a: u128 = if q.num < 0 {
        (-q.num) as u128
    } else {
        q.num as u128
    };
    let den: u128 = q.den as u128;
    let ip0: u128 = a / den;
    let rem: u128 = a % den;
    let c100: u128 = 100 * rem;
    let cf: u128 = c100 / den;
    let r2: u128 = c100 % den;
    proof {
        lemma_fundamental_div_mod(a as int, den as int);
        lemma_fundamental_div_mod(c100 as int, den as int);
        assert(rem < den);
        assert(c100 <= 100 * den - 100);
        assert(cf < 100) by (nonlinear_arith)
            requires
                den >= 1,
                c100 <= 100 * den - 100,
                c100 as int == den * (cf as int) + r2 as int,
                0 <= r2 < den,
        ;
        lemma_div_nonincreasing(a as int, den as int);
        assert(ip0 <= a);
    }
    let cents: u128 = if 2 * r2 > den {
        cf + 1
    } else if 2 * r2 < den {
        cf
    } else if cf % 2 == 0 {
        cf
    } else {
        cf + 1
    };
    let (ip, fr): (u128, u128) = if cents >= 100 {
        (ip0 + 1, 0)
    } else {
        (ip0, cents)
    };
    let mut out = String::new();
    if neg {
        push_char(&mut out, '-');
    }
    let ips = u128_to_string(ip);
    out.append(ips.as_str());
    push_char(&mut out, '.');
    if fr < 10 {
        push_char(&mut out, '0');
    }
    let frs = u128_to_string(fr);
    out.append(frs.as_str());
    proof {
        let aa: nat = if q.num < 0 {
            (-q.num as int) as nat
        } else {
            q.num as nat
        };
        assert(cents as nat == round_cents(aa, q.den as nat));
        if neg {
            assert(out@ =~= seq!['-'] + fmt2_mag(aa, q.den as nat));
        } else {
            assert(out@ =~= fmt2_mag(aa, q.den as nat));
        }
    }
    out
}

/// What a report shows for one aggregate: the value at two decimals, or the
/// placeholder for an absent one.
pub open spec fn agg_text(o: Option<(int, int)>) -> Seq<char> {
    match o {
        Some(p) => fmt2(p.0, p.1),
        None => "N/A"@,
    }
}

/// Aggregate results stay within the exact fold bounds, so their numerators
/// never reach the extreme the formatter excludes.
proof fn lemma_agg_in_range(m: ColModel, r: Option<Ratio>)
    requires
        col_model_len(m) <= usize::MAX as int,
        agg_matches(r, col_model_sum(m)) || agg_matches(r, col_model_min(m)) || agg_matches(
            r,
            col_model_max(m),
        ) || agg_matches(r, col_model_mean(m)),
    ensures
        r matches Some(q) ==> q.num > i128::MIN && q.den >= 1,
{
    match m {
        ColModel::Ints(s) => {
            crate::series::lemma_int_sum_bound(s);
            crate::dataframe::columns::lemma_int_max_range(s);
            crate::series::lemma_nulls_in_bounds(s);
            assert(usize::MAX as int <= 0xFFFF_FFFF_FFFF_FFFFu64 as int);
            assert((s.len() as int) * 0x8000_0000_0000_0000 <= (usize::MAX as int)
                * 0x8000_0000_0000_0000);
        },
        ColModel::Bools(s) => {
            crate::series::lemma_count_true_bounds(s);
            crate::series::lemma_nulls_in_bounds(s);
        },
        _ => {},
    }
}

/// The four formatted aggregates of one column: mean, max, min, sum.
fn metric_texts(col: &Column) -> (r: (String, String, String, String))
    ensures
        r.0@ == agg_text(col_model_mean(col@)),
        r.1@ == agg_text(col_model_max(col@)),
        r.2@ == agg_text(col_model_min(col@)),
        r.3@ == agg_text(col_model_sum(col@)),
{
    let _rows: usize = col.len();
    let mean = col.mean();
    proof {
        lemma_agg_in_range(col@, mean);
    }
    let mean_t = match mean {
        Some(q) => format_ratio(q),
        None => String::from_str("N/A"),
    };
    let max = col.max();
    proof {
        lemma_agg_in_range(col@, max);
    }
    let max_t = match max {
        Some(q) => format_ratio(q),
        None => String::from_str("N/A"),
    };
    let min = col.min();
    proof {
        lemma_agg_in_range(col@, min);
    }
    let min_t = match min {
        Some(q) => format_ratio(q),
        None => String::from_str("N/A"),
    };
    let sum = col.sum();
    proof {
        lemma_agg_in_range(col@, sum);
    }
    let sum_t = match sum {
        Some(q) => format_ratio(q),
        None => String::from_str("N/A"),
    };
    (mean_t, max_t, min_t, sum_t)
}

/// The name a report gives column `j`: its header, or `Column_<j>`.
pub open spec fn col_name(m: DataFrameModel, j: int) -> Seq<char> {
    let hs = match m.headers {
        Some(h) => h,
        None => Seq::<Seq<char>>::empty(),
    };
    if 0 <= j < hs.len() {
        hs[j]
    } else {
        "Column_"@ + spec_uint_str(j as nat)
    }
}

fn column_name(df: &DataFrame, j: usize) -> (r: String)
    ensures
        r@ == col_name(df@, j as int),
{
    let headers = df.headers();
    proof {
        match df@.headers {
            Some(h) => {
                assert(headers.deep_view() == h);
            },
            None => {
                assert(headers.deep_view() == Seq::<Seq<char>>::empty());
            },
        }
    }
    if j < headers.len() {
        proof {
            assert(headers@[j as int]@ == col_name(df@, j as int));
        }
        headers[j].clone()
    } else {
        let mut r = String::from_str("Column_");
        let js = usize_to_string(j);
        r.append(js.as_str());
        r
    }
}

// ---------------------------------------------------------------------------
// The report shapes
// ---------------------------------------------------------------------------
/// An optional aggregate as an optional report cell.
pub open spec fn agg_opt_text(o: Option<(int, int)>) -> Option<Seq<char>> {
    match o {
        Some(p) => Some(fmt2(p.0, p.1)),
        None => None,
    }
}

/// The missing-value report: one row per source column, its name and its
/// null count.
pub open spec fn na_report_model(m: DataFrameModel) -> DataFrameModel {
    let n = m.columns.len();
    DataFrameModel {
        headers: Some(seq!["column"@, "null_count"@]),
        columns: seq![
            ColModel::Strs(Seq::new(n, |j: int| Some(col_name(m, j)))),
            ColModel::Ints(
                Seq::new(n, |j: int| Some(col_model_nulls(m.columns[j]) as i64)),
            ),
        ],
    }
}

/// The info report: one row per source column with its name, the four
/// aggregates at two decimal places, the null count and the type name.
pub open spec fn info_report_model(m: DataFrameModel) -> DataFrameModel {
    let n = m.columns.len();
    DataFrameModel {
        headers: Some(
            seq![
                "column"@,
                "mean"@,
                "sum"@,
                "min"@,
                "max"@,
                "null_count"@,
                "dtype"@,
            ],
        ),
        columns: seq![
            ColModel::Strs(Seq::new(n, |j: int| Some(col_name(m, j)))),
            ColModel::Floats(Seq::new(n, |j: int| agg_opt_text(col_model_mean(m.columns[j])))),
            ColModel::Floats(Seq::new(n, |j: int| agg_opt_text(col_model_sum(m.columns[j])))),
            ColModel::Floats(Seq::new(n, |j: int| agg_opt_text(col_model_min(m.columns[j])))),
            ColModel::Floats(Seq::new(n, |j: int| agg_opt_text(col_model_max(m.columns[j])))),
            ColModel::Ints(
                Seq::new(n, |j: int| Some(col_model_nulls(m.columns[j]) as i64)),
            ),
            ColModel::Strs(
                Seq::new(n, |j: int| Some(dtype_name(col_model_dtype(m.columns[j])))),
            ),
        ],
    }
}

/// The wide report: one row per metric, a leading metric-name column, one
/// column per source column with its four formatted aggregates.
pub open spec fn wide_report_model(m: DataFrameModel) -> DataFrameModel {
    let n = m.columns.len();
    DataFrameModel {
        headers: Some(seq!["metric"@] + Seq::new(n, |j: int| col_name(m, j))),
        columns: seq![
            ColModel::Strs(seq![Some("mean"@), Some("max"@), Some("min"@), Some("sum"@)]),
        ] + Seq::new(
            n,
            |j: int|
                ColModel::Strs(
                    seq![
                        Some(agg_text(col_model_mean(m.columns[j]))),
                        Some(agg_text(col_model_max(m.columns[j]))),
                        Some(agg_text(col_model_min(m.columns[j]))),
                        Some(agg_text(col_model_sum(m.columns[j]))),
                    ],
                ),
        ),
    }
}

/// The metric shown in row `k` of each four-row group.
pub open spec fn metric_name(k: int) -> Seq<char> {
    if k == 0 {
        "mean"@
    } else if k == 1 {
        "max"@
    } else if k == 2 {
        "min"@
    } else {
        "sum"@
    }
}

pub open spec fn metric_value(m: ColModel, k: int) -> Seq<char> {
    if k == 0 {
        agg_text(col_model_mean(m))
    } else if k == 1 {
        agg_text(col_model_max(m))
    } else if k == 2 {
        agg_text(col_model_min(m))
    } else {
        agg_text(col_model_sum(m))
    }
}

/// The long report: one row per source column and metric, with the column
/// name, the metric name and the formatted value.
pub open spec fn long_report_model(m: DataFrameModel) -> DataFrameModel {
    let n = m.columns.len();
    DataFrameModel {
        headers: Some(seq!["Column"@, "Metric"@, "Value"@]),
        columns: seq![
            ColModel::Strs(Seq::new(4 * n, |i: int| Some(col_name(m, i / 4)))),
            ColModel::Strs(Seq::new(4 * n, |i: int| Some(metric_name(i % 4)))),
            ColModel::Strs(
                Seq::new(4 * n, |i: int| Some(metric_value(m.columns[i / 4], i % 4))),
            ),
        ],
    }
}

fn report_frame(headers: Vec<String>, columns: Vec<Column>) -> (r: DataFrame)
    requires
        headers@.len() == columns@.len(),
        headers@.len() > 0,
        forall|i: int|
            0 <= i < columns@.len() ==> col_model_len(#[trigger] columns@[i]@) == col_model_len(
                columns@[0]@,
            ),
    ensures
        r@.headers == Some(headers.deep_view()),
        r@.columns == cols_model(columns@),
        df_wf(r@),
{
    let ghost hs = headers.deep_view();
    let ghost cm = cols_model(columns@);
    proof {
        assert(hs.len() == headers@.len());
        assert(cm.len() == columns@.len());
        assert(forall|i: int|
            0 <= i < cm.len() ==> col_model_len(#[trigger] cm[i]) == col_model_len(cm[0]));
        crate::frame::lemma_all_equal_first_len(cm);
    }
    match DataFrame::from_columns(Some(headers), columns) {
        Ok(df) => df,
        Err(_) => {
            proof {
                assert(false);
            }
            DataFrame::empty()
        },
    }
}

/// Build the missing-value report for a table.
pub fn generate_na_report(df: &DataFrame) -> (r: DataFrame)
    ensures
        r@ == na_report_model(df@),
        df_wf(r@),
{
    let cols = df.columns();
    let n: usize = cols.len();
    let mut names: Vec<Option<String>> = Vec::new();
    let mut counts: Vec<Option<i64>> = Vec::new();
    let mut j: usize = 0;
    while j < n
        invariant
            n == cols@.len(),
            cols_model(cols@) == df@.columns,
            0 <= j <= n,
            names.deep_view().len() == j,
            counts@.len() == j,
            forall|k: int|
                0 <= k < j ==> #[trigger] names.deep_view()[k] == Some(col_name(df@, k)),
            forall|k: int|
                0 <= k < j ==> #[trigger] counts@[k] == Some(
                    col_model_nulls(df@.columns[k]) as i64,
                ),
        decreases n - j,
    {
        let ghost pre = names.deep_view();
        let name = column_name(df, j);
        names.push(Some(name));
        proof {
            assert(names.deep_view() =~= pre.push(Some(col_name(df@, j as int))));
            assert(cols@[j as int]@ == df@.columns[j as int]);
        }
        let c = cols[j].null_count();
        counts.push(Some(c as i64));
        j = j + 1;
    }
    let mut headers: Vec<String> = Vec::new();
    headers.push(String::from_str("column"));
    headers.push(String::from_str("null_count"));
    let mut columns: Vec<Column> = Vec::new();
    columns.push(Column::Str(StringColumn(names)));
    columns.push(Column::Integer(IntegerColumn(counts)));
    let out = report_frame(headers, columns);
    proof {
        assert(out@.headers matches Some(h) && h =~= seq!["column"@, "null_count"@]);
        assert(out@.columns =~= na_report_model(df@).columns) by {
            assert(out@.columns[0] == ColModel::Strs(
                Seq::new(df@.columns.len(), |j: int| Some(col_name(df@, j))),
            )) by {
                assert(names.deep_view() =~= Seq::new(
                    df@.columns.len(),
                    |j: int| Some(col_name(df@, j)),
                ));
            }
            assert(out@.columns[1] == ColModel::Ints(
                Seq::new(
                    df@.columns.len(),
                    |j: int| Some(col_model_nulls(df@.columns[j]) as i64),
                ),
            )) by {
                assert(counts@ =~= Seq::new(
                    df@.columns.len(),
                    |j: int| Some(col_model_nulls(df@.columns[j]) as i64),
                ));
            }
        }
        assert(out@ == na_report_model(df@));
    }
    out
}

/// Build the info report for a table.
pub fn generate_info_report(df: &DataFrame) -> (r: DataFrame)
    ensures
        r@ == info_report_model(df@),
        df_wf(r@),
{
    let cols = df.columns();
    let n: usize = cols.len();
    let mut names: Vec<Option<String>> = Vec::new();
    let mut mean_col: Vec<Option<String>> = Vec::new();
    let mut sum_col: Vec<Option<String>> = Vec::new();
    let mut min_col: Vec<Option<String>> = Vec::new();
    let mut max_col: Vec<Option<String>> = Vec::new();
    let mut null_col: Vec<Option<i64>> = Vec::new();
    let mut dtype_col: Vec<Option<String>> = Vec::new();
    let mut j: usize = 0;
    while j < n
        invariant
            n == cols@.len(),
            cols_model(cols@) == df@.columns,
            0 <= j <= n,
            names.deep_view().len() == j,
            mean_col.deep_view().len() == j,
            sum_col.deep_view().len() == j,
            min_col.deep_view().len() == j,
            max_col.deep_view().len() == j,
            null_col@.len() == j,
            dtype_col.deep_view().len() == j,
            forall|k: int|
                0 <= k < j ==> #[trigger] names.deep_view()[k] == Some(col_name(df@, k)),
            forall|k: int|
                0 <= k < j ==> #[trigger] mean_col.deep_view()[k] == agg_opt_text(
                    col_model_mean(df@.columns[k]),
                ),
            forall|k: int|
                0 <= k < j ==> #[trigger] sum_col.deep_view()[k] == agg_opt_text(
                    col_model_sum(df@.columns[k]),
                ),
            forall|k: int|
                0 <= k < j ==> #[trigger] min_col.deep_view()[k] == agg_opt_text(
                    col_model_min(df@.columns[k]),
                ),
            forall|k: int|
                0 <= k < j ==> #[trigger] max_col.deep_view()[k] == agg_opt_text(
                    col_model_max(df@.columns[k]),
                ),
            forall|k: int|
                0 <= k < j ==> #[trigger] null_col@[k] == Some(
                    col_model_nulls(df@.columns[k]) as i64,
                ),
            forall|k: int|
                0 <= k < j ==> #[trigger] dtype_col.deep_view()[k] == Some(
                    dtype_name(col_model_dtype(df@.columns[k])),
                ),
        decreases n - j,
    {
        proof {
            assert(cols@[j as int]@ == df@.columns[j as int]);
        }
        let ghost pn = names.deep_view();
        let ghost pm = mean_col.deep_view();
        let ghost ps = sum_col.deep_view();
        let ghost pmin = min_col.deep_view();
        let ghost pmax = max_col.deep_view();
        let ghost pd = dtype_col.deep_view();
        let name = column_name(df, j);
        names.push(Some(name));
        let col = &cols[j];
        let _rows: usize = col.len();
        let mean = col.mean();
        proof {
            lemma_agg_in_range(col@, mean);
        }
        match mean {
            Some(q) => mean_col.push(Some(format_ratio(q))),
            None => mean_col.push(None),
        }
        let sum = col.sum();
        proof {
            lemma_agg_in_range(col@, sum);
        }
        match sum {
            Some(q) => sum_col.push(Some(format_ratio(q))),
            None => sum_col.push(None),
        }
        let min = col.min();
        proof {
            lemma_agg_in_range(col@, min);
        }
        match min {
            Some(q) => min_col.push(Some(format_ratio(q))),
            None => min_col.push(None),
        }
        let max = col.max();
        proof {
            lemma_agg_in_range(col@, max);
        }
        match max {
            Some(q) => max_col.push(Some(format_ratio(q))),
            None => max_col.push(None),
        }
        null_col.push(Some(col.null_count() as i64));
        dtype_col.push(Some(col.dtype().name()));
        proof {
            assert(names.deep_view() =~= pn.push(Some(col_name(df@, j as int))));
            assert(mean_col.deep_view() =~= pm.push(
                agg_opt_text(col_model_mean(df@.columns[j as int])),
            ));
            assert(sum_col.deep_view() =~= ps.push(
                agg_opt_text(col_model_sum(df@.columns[j as int])),
            ));
            assert(min_col.deep_view() =~= pmin.push(
                agg_opt_text(col_model_min(df@.columns[j as int])),
            ));
            assert(max_col.deep_view() =~= pmax.push(
                agg_opt_text(col_model_max(df@.columns[j as int])),
            ));
            assert(dtype_col.deep_view() =~= pd.push(
                Some(dtype_name(col_model_dtype(df@.columns[j as int]))),
            ));
        }
        j = j + 1;
    }
    let mut headers: Vec<String> = Vec::new();
    headers.push(String::from_str("column"));
    headers.push(String::from_str("mean"));
    headers.push(String::from_str("sum"));
    headers.push(String::from_str("min"));
    headers.push(String::from_str("max"));
    headers.push(String::from_str("null_count"));
    headers.push(String::from_str("dtype"));
    let mut columns: Vec<Column> = Vec::new();
    columns.push(Column::Str(StringColumn(names)));
    columns.push(Column::Float(FloatColumn(mean_col)));
    columns.push(Column::Float(FloatColumn(sum_col)));
    columns.push(Column::Float(FloatColumn(min_col)));
    columns.push(Column::Float(FloatColumn(max_col)));
    columns.push(Column::Integer(IntegerColumn(null_col)));
    columns.push(Column::Str(StringColumn(dtype_col)));
    let out = report_frame(headers, columns);
    proof {
        let model = info_report_model(df@);
        assert(out@.headers matches Some(h) && h =~= seq![
            "column"@,
            "mean"@,
            "sum"@,
            "min"@,
            "max"@,
            "null_count"@,
            "dtype"@,
        ]);
        let nn = df@.columns.len();
        assert(names.deep_view() =~= Seq::new(nn, |j: int| Some(col_name(df@, j))));
        assert(mean_col.deep_view() =~= Seq::new(
            nn,
            |j: int| agg_opt_text(col_model_mean(df@.columns[j])),
        ));
        assert(sum_col.deep_view() =~= Seq::new(
            nn,
            |j: int| agg_opt_text(col_model_sum(df@.columns[j])),
        ));
        assert(min_col.deep_view() =~= Seq::new(
            nn,
            |j: int| agg_opt_text(col_model_min(df@.columns[j])),
        ));
        assert(max_col.deep_view() =~= Seq::new(
            nn,
            |j: int| agg_opt_text(col_model_max(df@.columns[j])),
        ));
        assert(null_col@ =~= Seq::new(
            nn,
            |j: int| Some(col_model_nulls(df@.columns[j]) as i64),
        ));
        assert(dtype_col.deep_view() =~= Seq::new(
            nn,
            |j: int| Some(dtype_name(col_model_dtype(df@.columns[j]))),
        ));
        assert(out@.columns =~= model.columns);
        assert(out@ == model);
    }
    out
}

/// Build the wide report for a table.
pub fn generate_wide_report(df: &DataFrame) -> (r: DataFrame)
    ensures
        r@ == wide_report_model(df@),
        df_wf(r@),
{
    let cols = df.columns();
    let n: usize = cols.len();
    let mut headers: Vec<String> = Vec::new();
    headers.push(String::from_str("metric"));
    let mut columns: Vec<Column> = Vec::new();
    let mut metric: Vec<Option<String>> = Vec::new();
    metric.push(Some(String::from_str("mean")));
    metric.push(Some(String::from_str("max")));
    metric.push(Some(String::from_str("min")));
    metric.push(Some(String::from_str("sum")));
    proof {
        assert(metric.deep_view() =~= seq![
            Some("mean"@),
            Some("max"@),
            Some("min"@),
            Some("sum"@),
        ]);
    }
    columns.push(Column::Str(StringColumn(metric)));
    let ghost wm = wide_report_model(df@);
    let mut j: usize = 0;
    while j < n
        invariant
            n == cols@.len(),
            cols_model(cols@) == df@.columns,
            wm == wide_report_model(df@),
            0 <= j <= n,
            headers.deep_view().len() == j + 1,
            columns@.len() == j + 1,
            forall|k: int|
                0 <= k < j + 1 ==> ({
                    let hm = match wm.headers {
                        Some(h) => h,
                        None => Seq::empty(),
                    };
                    #[trigger] headers.deep_view()[k] == hm[k]
                }),
            forall|k: int| 0 <= k < j + 1 ==> #[trigger] columns@[k]@ == wm.columns[k],
        decreases n - j,
    {
        let ghost ph = headers.deep_view();
        proof {
            assert(cols@[j as int]@ == df@.columns[j as int]);
        }
        headers.push(column_name(df, j));
        proof {
            assert(headers.deep_view() =~= ph.push(col_name(df@, j as int)));
        }
        let (mean_t, max_t, min_t, sum_t) = metric_texts(&cols[j]);
        let mut cells: Vec<Option<String>> = Vec::new();
        cells.push(Some(mean_t));
        cells.push(Some(max_t));
        cells.push(Some(min_t));
        cells.push(Some(sum_t));
        proof {
            assert(cells.deep_view() =~= seq![
                Some(agg_text(col_model_mean(df@.columns[j as int]))),
                Some(agg_text(col_model_max(df@.columns[j as int]))),
                Some(agg_text(col_model_min(df@.columns[j as int]))),
                Some(agg_text(col_model_sum(df@.columns[j as int]))),
            ]);
        }
        columns.push(Column::Str(StringColumn(cells)));
        j = j + 1;
    }
    let out = report_frame(headers, columns);
    proof {
        assert(out@.headers matches Some(h) && h =~= (match wm.headers {
            Some(hh) => hh,
            None => Seq::empty(),
        }));
        assert(out@.columns =~= wm.columns);
        assert(out@ == wm);
    }
    out
}

/// Build the long report for a table.
pub fn generate_long_report(df: &DataFrame) -> (r: DataFrame)
    ensures
        r@ == long_report_model(df@),
        df_wf(r@),
{
    let cols = df.columns();
    let n: usize = cols.len();
    let ghost lm = long_report_model(df@);
    let mut name_col: Vec<Option<String>> = Vec::new();
    let mut metric_col: Vec<Option<String>> = Vec::new();
    let mut value_col: Vec<Option<String>> = Vec::new();
    let mut j: usize = 0;
    while j < n
        invariant
            n == cols@.len(),
            cols_model(cols@) == df@.columns,
            lm == long_report_model(df@),
            0 <= j <= n,
            name_col.deep_view().len() == 4 * j,
            metric_col.deep_view().len() == 4 * j,
            value_col.deep_view().len() == 4 * j,
            forall|i: int|
                0 <= i < 4 * j ==> #[trigger] name_col.deep_view()[i] == Some(
                    col_name(df@, i / 4),
                ),
            forall|i: int|
                0 <= i < 4 * j ==> #[trigger] metric_col.deep_view()[i] == Some(
                    metric_name(i % 4),
                ),
            forall|i: int|
                0 <= i < 4 * j ==> #[trigger] value_col.deep_view()[i] == Some(
                    metric_value(df@.columns[i / 4], i % 4),
                ),
        decreases n - j,
    {
        proof {
            assert(cols@[j as int]@ == df@.columns[j as int]);
        }
        let ghost pn = name_col.deep_view();
        let ghost pm = metric_col.deep_view();
        let ghost pv = value_col.deep_view();
        let (mean_t, max_t, min_t, sum_t) = metric_texts(&cols[j]);
        let name = column_name(df, j);
        name_col.push(Some(name.clone()));
        name_col.push(Some(name.clone()));
        name_col.push(Some(name.clone()));
        name_col.push(Some(name));
        metric_col.push(Some(String::from_str("mean")));
        metric_col.push(Some(String::from_str("max")));
        metric_col.push(Some(String::from_str("min")));
        metric_col.push(Some(String::from_str("sum")));
        value_col.push(Some(mean_t));
        value_col.push(Some(max_t));
        value_col.push(Some(min_t));
        value_col.push(Some(sum_t));
        proof {
            let nm = Some(col_name(df@, j as int));
            assert(name_col.deep_view() =~= pn.push(nm).push(nm).push(nm).push(nm));
            assert(metric_col.deep_view() =~= pm.push(Some("mean"@)).push(Some("max"@)).push(
                Some("min"@),
            ).push(Some("sum"@)));
            assert(value_col.deep_view() =~= pv.push(
                Some(agg_text(col_model_mean(df@.columns[j as int]))),
            ).push(Some(agg_text(col_model_max(df@.columns[j as int])))).push(
                Some(agg_text(col_model_min(df@.columns[j as int]))),
            ).push(Some(agg_text(col_model_sum(df@.columns[j as int])))));
            assert forall|i: int| 4 * j <= i < 4 * (j + 1) implies #[trigger] (i / 4) == j as int
                && i % 4 == i - 4 * j by {
                assert(i / 4 == j as int && i % 4 == i - 4 * (j as int)) by (nonlinear_arith)
                    requires
                        4 * (j as int) <= i < 4 * ((j as int) + 1),
                ;
            }
        }
        j = j + 1;
    }
    let mut headers: Vec<String> = Vec::new();
    headers.push(String::from_str("Column"));
    headers.push(String::from_str("Metric"));
    headers.push(String::from_str("Value"));
    let mut columns: Vec<Column> = Vec::new();
    columns.push(Column::Str(StringColumn(name_col)));
    columns.push(Column::Str(StringColumn(metric_col)));
    columns.push(Column::Str(StringColumn(value_col)));
    let out = report_frame(headers, columns);
    proof {
        assert(out@.headers matches Some(h) && h =~= seq!["Column"@, "Metric"@, "Value"@]);
        let nn = df@.columns.len();
        assert(out@.columns[0] == lm.columns[0]) by {
            assert(name_col.deep_view() =~= Seq::new(4 * nn, |i: int| Some(col_name(df@, i / 4))));
        }
        assert(out@.columns[1] == lm.columns[1]) by {
            assert(metric_col.deep_view() =~= Seq::new(4 * nn, |i: int| Some(metric_name(i % 4))));
        }
        assert(out@.columns[2] == lm.columns[2]) by {
            assert(value_col.deep_view() =~= Seq::new(
                4 * nn,
                |i: int| Some(metric_value(df@.columns[i / 4], i % 4)),
            ));
        }
        assert(out@.columns =~= lm.columns);
        assert(out@ == lm);
    }
    out
}

} // verus!
