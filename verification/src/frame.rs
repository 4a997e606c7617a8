//! The table: an aligned collection of equal-length typed columns with
//! optional header names. Construction validates the shape; everything after
//! construction only reads.

pub mod error;

use vstd::prelude::*;
use vstd::string::*;

pub use error::DataFrameError;

use crate::series::{
    col_model_len, inferred_column, parse_column, ColModel, Column, IntoColumn,
};

verus! {

/// The mathematical content of a table.
pub struct DataFrameModel {
    pub headers: Option<Seq<Seq<char>>>,
    pub columns: Seq<ColModel>,
}

/// The models of a sequence of columns.
pub open spec fn cols_model(v: Seq<Column>) -> Seq<ColModel> {
    Seq::new(v.len(), |i: int| v[i]@)
}

/// The models of the columns an `IntoColumn` sequence stands for.
pub open spec fn into_cols_model<C: IntoColumn>(v: Seq<C>) -> Seq<ColModel> {
    Seq::new(v.len(), |i: int| v[i].col_spec())
}

/// The header list a constructor works with: absent means none.
pub open spec fn headers_model(h: Option<Vec<String>>) -> Seq<Seq<char>> {
    match h {
        Some(v) => v.deep_view(),
        None => Seq::empty(),
    }
}

/// The table's row count: the first column's length, or zero without
/// columns.
pub open spec fn df_row_count(m: DataFrameModel) -> int {
    if m.columns.len() > 0 {
        col_model_len(m.columns[0])
    } else {
        0
    }
}

/// A well-formed table: headers and columns agree in count when both are
/// present, and every column has the table's row count.
pub open spec fn df_wf(m: DataFrameModel) -> bool {
    &&& match m.headers {
        Some(h) => (h.len() > 0 && m.columns.len() > 0 ==> h.len() == m.columns.len()),
        None => true,
    }
    &&& forall|i: int|
        0 <= i < m.columns.len() ==> col_model_len(#[trigger] m.columns[i]) == df_row_count(m)
}

/// First column whose length differs from the first column's, or the count.
pub open spec fn first_len_mismatch_from(cm: Seq<ColModel>, i: int) -> int
    decreases cm.len() - i,
{
    if i < 0 || i >= cm.len() {
        cm.len() as int
    } else if col_model_len(cm[i]) != col_model_len(cm[0]) {
        i
    } else {
        first_len_mismatch_from(cm, i + 1)
    }
}

pub open spec fn first_len_mismatch(cm: Seq<ColModel>) -> int {
    first_len_mismatch_from(cm, 0)
}

proof fn lemma_first_len_mismatch(cm: Seq<ColModel>, i: int, k: int)
    requires
        0 <= i <= k <= cm.len(),
        k == cm.len() || col_model_len(cm[k]) != col_model_len(cm[0]),
        forall|j: int| i <= j < k ==> col_model_len(#[trigger] cm[j]) == col_model_len(cm[0]),
    ensures
        first_len_mismatch_from(cm, i) == k,
    decreases cm.len() - i,
{
    if i < cm.len() && i < k {
        lemma_first_len_mismatch(cm, i + 1, k);
    }
}

/// Columns of one shared length never trip the length validation.
pub proof fn lemma_all_equal_first_len(cm: Seq<ColModel>)
    requires
        forall|i: int|
            0 <= i < cm.len() ==> col_model_len(#[trigger] cm[i]) == col_model_len(cm[0]),
    ensures
        first_len_mismatch(cm) == cm.len(),
{
    if cm.len() > 0 {
        lemma_first_len_mismatch(cm, 0, cm.len() as int);
    } else {
        lemma_first_len_mismatch(cm, 0, 0);
    }
}

/// Headers present, columns present, counts differ.
pub open spec fn headers_count_mismatch(hs: Seq<Seq<char>>, cm: Seq<ColModel>) -> bool {
    hs.len() > 0 && cm.len() > 0 && hs.len() != cm.len()
}

/// Construction succeeds exactly when the counts agree and no column length
/// differs.
pub open spec fn construction_ok(hs: Seq<Seq<char>>, cm: Seq<ColModel>) -> bool {
    !headers_count_mismatch(hs, cm) && first_len_mismatch(cm) == cm.len()
}

/// The error a failed construction reports: the count mismatch first, else
/// the first offending column with its name, expected and actual lengths.
pub open spec fn construct_error_matches(
    e: DataFrameError,
    hs: Seq<Seq<char>>,
    cm: Seq<ColModel>,
) -> bool {
    if headers_count_mismatch(hs, cm) {
        &&& e matches DataFrameError::HeadersColumnsLengthMismatch { headers, columns }
        &&& headers == hs.len()
        &&& columns == cm.len()
    } else {
        let i = first_len_mismatch(cm);
        &&& e matches DataFrameError::ColumnsLengthMismatch { column, expected, actual }
        &&& column@ == if i < hs.len() {
            hs[i]
        } else {
            "unknown"@
        }
        &&& expected == col_model_len(cm[0])
        &&& actual == col_model_len(cm[i])
    }
}

/// Row `j` of the raw rows read column-wise: the raw cells of column `j`.
pub open spec fn transposed(rs: Seq<Seq<Seq<char>>>, j: int) -> Seq<Seq<char>> {
    Seq::new(rs.len(), |i: int| rs[i][j])
}

/// First row whose cell count differs from the expected one, or the count.
pub open spec fn first_bad_row_from(rs: Seq<Seq<Seq<char>>>, expected: int, i: int) -> int
    decreases rs.len() - i,
{
    if i < 0 || i >= rs.len() {
        rs.len() as int
    } else if rs[i].len() != expected {
        i
    } else {
        first_bad_row_from(rs, expected, i + 1)
    }
}

pub open spec fn first_bad_row(rs: Seq<Seq<Seq<char>>>, expected: int) -> int {
    first_bad_row_from(rs, expected, 0)
}

proof fn lemma_first_bad_row(rs: Seq<Seq<Seq<char>>>, expected: int, i: int, k: int)
    requires
        0 <= i <= k <= rs.len(),
        k == rs.len() || rs[k].len() != expected,
        forall|j: int| i <= j < k ==> #[trigger] rs[j].len() == expected,
    ensures
        first_bad_row_from(rs, expected, i) == k,
    decreases rs.len() - i,
{
    if i < rs.len() && i < k {
        lemma_first_bad_row(rs, expected, i + 1, k);
    }
}

/// A table of named, equal-length typed columns.
#[derive(Debug)]
pub struct DataFrame {
    headers: Option<Vec<String>>,
    columns: Vec<Column>,
}

/// The shapes a JSON export could be asked for.
pub enum JsonExportOrient {
    Records,
    Values,
    Columns,
}

impl View for DataFrame {
    type V = DataFrameModel;

    closed spec fn view(&self) -> DataFrameModel {
        DataFrameModel {
            headers: match self.headers {
                Some(h) => Some(h.deep_view()),
                None => None,
            },
            columns: cols_model(self.columns@),
        }
    }
}

impl DataFrame {
    /// Validate and build a table from ready columns, in this order: the
    /// header/column count first, then every column's length against the
    /// first column's.
    #[verifier::loop_isolation(false)]
    pub fn from_columns(headers: Option<Vec<String>>, columns: Vec<Column>) -> (r: Result<
        DataFrame,
        DataFrameError,
    >)
        ensures
            r is Ok <==> construction_ok(headers_model(headers), cols_model(columns@)),
            r matches Ok(df) ==> df@.headers == Some(headers_model(headers)) && df@.columns
                == cols_model(columns@) && df_wf(df@),
            r matches Err(e) ==> construct_error_matches(
                e,
                headers_model(headers),
                cols_model(columns@),
            ),
    {
        let ghost hs = headers_model(headers);
        let ghost cm = cols_model(columns@);
        let headers: Vec<String> = match headers {
            Some(h) => h,
            None => Vec::new(),
        };
        proof {
            assert(headers.deep_view() =~= hs);
        }
        if headers.len() > 0 && columns.len() > 0 && headers.len() != columns.len() {
            return Err(
                DataFrameError::HeadersColumnsLengthMismatch {
                    headers: headers.len(),
                    columns: columns.len(),
                },
            );
        }
        if columns.len() > 0 {
            let expected = columns[0].len();
            let mut i: usize = 0;
            while i < columns.len()
                invariant
                    cm == cols_model(columns@),
                    expected == col_model_len(cm[0]),
                    0 <= i <= columns.len(),
                    columns@.len() == cm.len(),
                    forall|j: int|
                        0 <= j < i ==> col_model_len(#[trigger] cm[j]) == col_model_len(cm[0]),
                    headers.deep_view() == hs,
                    !headers_count_mismatch(hs, cm),
                decreases columns.len() - i,
            {
                let actual = columns[i].len();
                if actual != expected {
                    proof {
                        assert(cm[i as int] == columns@[i as int]@);
                        assert(col_model_len(cm[i as int]) != col_model_len(cm[0]));
                        lemma_first_len_mismatch(cm, 0, i as int);
                        assert(first_len_mismatch(cm) == i as int);
                    }
                    let name: String = if i < headers.len() {
                        proof {
                            assert(hs[i as int] == headers@[i as int]@);
                        }
                        headers[i].clone()
                    } else {
                        String::from_str("unknown")
                    };
                    return Err(
                        DataFrameError::ColumnsLengthMismatch { column: name, expected, actual },
                    );
                }
                i = i + 1;
            }
            proof {
                lemma_first_len_mismatch(cm, 0, cm.len() as int);
            }
        }
        proof {
            if cm.len() == 0 {
                lemma_first_len_mismatch(cm, 0, 0);
            }
        }
        let df = DataFrame { headers: Some(headers), columns };
        proof {
            assert(df@.columns =~= cm);
        }
        Ok(df)
    }

    /// Validate and build a table from anything that converts to columns.
    pub fn new<C: IntoColumn>(headers: Option<Vec<String>>, columns: Vec<C>) -> (r: Result<
        DataFrame,
        DataFrameError,
    >)
        ensures
            r is Ok <==> construction_ok(headers_model(headers), into_cols_model(columns@)),
            r matches Ok(df) ==> df@.headers == Some(headers_model(headers)) && df@.columns
                == into_cols_model(columns@) && df_wf(df@),
            r matches Err(e) ==> construct_error_matches(
                e,
                headers_model(headers),
                into_cols_model(columns@),
            ),
    {
        let ghost cm = into_cols_model(columns@);
        let mut cols: Vec<Column> = Vec::new();
        let mut columns = columns;
        let ghost orig = columns@;
        let n: usize = columns.len();
        // Consume the input front to back, converting each entry.
        let mut i: usize = 0;
        while i < n
            invariant
                orig.len() == n,
                0 <= i <= n,
                columns@ == orig.skip(i as int),
                cols@.len() == i,
                cm == into_cols_model(orig),
                forall|j: int| 0 <= j < i ==> #[trigger] cols@[j]@ == cm[j],
            decreases n - i,
        {
            let c = columns.remove(0);
            proof {
                assert(c == orig[i as int]);
                assert(columns@ =~= orig.skip(i + 1));
            }
            cols.push(c.into_column());
            i = i + 1;
        }
        proof {
            assert(cols_model(cols@) =~= cm);
        }
        Self::from_columns(headers, cols)
    }

    /// Run every raw column through type inference, then validate the shape.
    pub fn from_strings(headers: Option<Vec<String>>, raw_columns: Vec<Vec<String>>) -> (r: Result<
        DataFrame,
        DataFrameError,
    >)
        ensures
            ({
                let raw = raw_columns.deep_view();
                let cm = Seq::new(raw.len(), |i: int| inferred_column(raw[i]));
                &&& (r is Ok <==> construction_ok(headers_model(headers), cm))
                &&& (r matches Ok(df) ==> df@.headers == Some(headers_model(headers))
                    && df@.columns == cm && df_wf(df@))
                &&& (r matches Err(e) ==> construct_error_matches(e, headers_model(headers), cm))
            }),
    {
        let ghost raw = raw_columns.deep_view();
        let ghost cm = Seq::new(raw.len(), |i: int| inferred_column(raw[i]));
        let n: usize = raw_columns.len();
        let mut cols: Vec<Column> = Vec::new();
        let mut i: usize = 0;
        while i < n
            invariant
                n == raw.len(),
                n == raw_columns@.len(),
                raw == raw_columns.deep_view(),
                cm == Seq::new(raw.len(), |i: int| inferred_column(raw[i])),
                0 <= i <= n,
                cols@.len() == i,
                forall|j: int| 0 <= j < i ==> #[trigger] cols@[j]@ == cm[j],
            decreases n - i,
        {
            let col = &raw_columns[i];
            let m: usize = col.len();
            let mut refs: Vec<&str> = Vec::new();
            let mut j: usize = 0;
            while j < m
                invariant
                    m == col@.len(),
                    0 <= j <= m,
                    refs.deep_view().len() == j,
                    forall|k: int| 0 <= k < j ==> #[trigger] refs.deep_view()[k] == col@[k]@,
                decreases m - j,
            {
                let ghost pre = refs.deep_view();
                refs.push(col[j].as_str());
                proof {
                    assert(refs.deep_view() =~= pre.push(col@[j as int]@));
                }
                j = j + 1;
            }
            proof {
                assert(refs.deep_view() =~= raw[i as int]);
            }
            cols.push(parse_column(refs));
            i = i + 1;
        }
        proof {
            assert(cols_model(cols@) =~= cm);
        }
        Self::from_columns(headers, cols)
    }

    /// Validate raw rows against the header count, read them column-wise and
    /// run each column through type inference.
    pub fn from_rows(headers: Vec<String>, rows: Vec<Vec<String>>) -> (r: Result<
        DataFrame,
        DataFrameError,
    >)
        ensures
            ({
                let hd = headers.deep_view();
                let rs = rows.deep_view();
                &&& (r is Ok <==> first_bad_row(rs, hd.len() as int) == rs.len())
                &&& (r matches Ok(df) ==> df@.headers == Some(hd) && df@.columns == Seq::new(
                    if rs.len() > 0 {
                        hd.len()
                    } else {
                        0
                    },
                    |j: int| inferred_column(transposed(rs, j)),
                ) && df_wf(df@))
                &&& (r matches Err(e) ==> ({
                    let i = first_bad_row(rs, hd.len() as int);
                    &&& e matches DataFrameError::RowLengthMismatch { index, expected, actual }
                    &&& index == i + 1
                    &&& expected == hd.len()
                    &&& actual == rs[i].len()
                }))
            }),
    {
        let ghost hd = headers.deep_view();
        let ghost rs = rows.deep_view();
        let cols_count: usize = headers.len();
        let row_count: usize = rows.len();
        proof {
            assert(hd.len() == headers@.len());
            assert(rs.len() == rows@.len());
        }
        let mut i: usize = 0;
        while i < row_count
            invariant
                hd == headers.deep_view(),
                rs == rows.deep_view(),
                cols_count == hd.len(),
                row_count == rs.len(),
                row_count == rows@.len(),
                0 <= i <= row_count,
                forall|j: int| 0 <= j < i ==> #[trigger] rs[j].len() == cols_count,
            decreases row_count - i,
        {
            let actual = rows[i].len();
            if actual != cols_count {
                proof {
                    lemma_first_bad_row(rs, cols_count as int, 0, i as int);
                }
                return Err(
                    DataFrameError::RowLengthMismatch {
                        index: i + 1,
                        expected: cols_count,
                        actual,
                    },
                );
            }
            i = i + 1;
        }
        proof {
            lemma_first_bad_row(rs, cols_count as int, 0, row_count as int);
        }
        let ghost cm = Seq::new(
            if rs.len() > 0 {
                hd.len()
            } else {
                0
            },
            |j: int| inferred_column(transposed(rs, j)),
        );
        let mut cols: Vec<Column> = Vec::new();
        if row_count > 0 {
            let mut j: usize = 0;
            while j < cols_count
                invariant
                    hd == headers.deep_view(),
                    rs == rows.deep_view(),
                    cols_count == hd.len(),
                    row_count == rs.len(),
                    row_count == rows@.len(),
                    row_count > 0,
                    forall|k: int| 0 <= k < row_count ==> #[trigger] rs[k].len() == cols_count,
                    cm == Seq::new(hd.len(), |j: int| inferred_column(transposed(rs, j))),
                    0 <= j <= cols_count,
                    cols@.len() == j,
                    forall|k: int| 0 <= k < j ==> #[trigger] cols@[k]@ == cm[k],
                decreases cols_count - j,
            {
                let mut raw_col: Vec<&str> = Vec::new();
                let mut i2: usize = 0;
                while i2 < row_count
                    invariant
                        rs == rows.deep_view(),
                        row_count == rs.len(),
                        row_count == rows@.len(),
                        forall|k: int| 0 <= k < row_count ==> #[trigger] rs[k].len() == cols_count,
                        j < cols_count,
                        0 <= i2 <= row_count,
                        raw_col.deep_view().len() == i2,
                        forall|k: int|
                            0 <= k < i2 ==> #[trigger] raw_col.deep_view()[k] == rs[k][j as int],
                    decreases row_count - i2,
                {
                    let ghost pre = raw_col.deep_view();
                    proof {
                        assert(rows@[i2 as int].deep_view() == rs[i2 as int]);
                        assert(rows@[i2 as int]@.len() == rs[i2 as int].len());
                        assert(rows@[i2 as int]@[j as int]@ == rs[i2 as int][j as int]);
                    }
                    let row = &rows[i2];
                    raw_col.push(row[j].as_str());
                    proof {
                        assert(raw_col.deep_view() =~= pre.push(rs[i2 as int][j as int]));
                    }
                    i2 = i2 + 1;
                }
                proof {
                    assert(raw_col.deep_view() =~= transposed(rs, j as int));
                }
                cols.push(parse_column(raw_col));
                j = j + 1;
            }
        }
        proof {
            assert(cols_model(cols@) =~= cm);
        }
        let r = Self::from_columns(Some(headers), cols);
        proof {
            assert(construction_ok(hd, cm)) by {
                assert(forall|k: int|
                    0 <= k < cm.len() ==> col_model_len(#[trigger] cm[k]) == rs.len());
                if cm.len() > 0 {
                    lemma_first_len_mismatch(cm, 0, cm.len() as int);
                } else {
                    lemma_first_len_mismatch(cm, 0, 0);
                }
            }
        }
        match r {
            Ok(df) => Ok(df),
            Err(e) => Err(e),
        }
    }

    /// The table with nothing in it: no headers, no columns.
    pub fn empty() -> (r: DataFrame)
        ensures
            r@.headers is None,
            r@.columns.len() == 0,
            df_wf(r@),
    {
        DataFrame { headers: None, columns: Vec::new() }
    }

    fn columns_count(&self) -> (r: usize)
        ensures
            r == self@.columns.len(),
    {
        self.columns.len()
    }

    fn rows_count(&self) -> (r: usize)
        ensures
            r == df_row_count(self@),
    {
        if self.columns.len() > 0 {
            return self.columns[0].len();
        }
        0
    }

    /// `(row count, column count)`.
    pub fn shape(&self) -> (r: (usize, usize))
        ensures
            r.0 == df_row_count(self@),
            r.1 == self@.columns.len(),
    {
        (self.rows_count(), self.columns_count())
    }

    /// The header names; empty when the table has none.
    pub fn headers(&self) -> (r: Vec<String>)
        ensures
            r.deep_view() == match self@.headers {
                Some(h) => h,
                None => Seq::<Seq<char>>::empty(),
            },
    {
        match &self.headers {
            Some(h) => h.clone(),
            None => Vec::new(),
        }
    }

    /// All columns, in order.
    pub fn columns(&self) -> (r: &Vec<Column>)
        ensures
            cols_model(r@) == self@.columns,
    {
        &self.columns
    }

    /// The column at an index; absent out of range, no error.
    pub fn get_column(&self, column_index: usize) -> (r: Option<&Column>)
        ensures
            r is Some <==> column_index < self@.columns.len(),
            r matches Some(c) ==> c@ == self@.columns[column_index as int],
    {
        if column_index < self.columns.len() {
            Some(&self.columns[column_index])
        } else {
            None
        }
    }
}

/// The shape invariant of every constructed table: the column count equals
/// the header count when both are present, and every column's length equals
/// the row count that `shape` reports.
pub proof fn lemma_shape_invariant(m: DataFrameModel)
    requires
        df_wf(m),
    ensures
        forall|i: int|
            0 <= i < m.columns.len() ==> col_model_len(#[trigger] m.columns[i]) == df_row_count(m),
        m.headers matches Some(h) ==> (h.len() > 0 && m.columns.len() > 0 ==> h.len()
            == m.columns.len()),
{
}

} // verus!
