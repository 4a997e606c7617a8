//! A raw dataset: header names, rows of raw text cells, and the same cells
//! decoded per column by the per-cell cascade.

use vstd::prelude::*;
use vstd::string::*;

use crate::scalar::CellValue;
use crate::series::{cell_model, CellModel};
use crate::text::{
    bool_token_value, float_token, is_float_token, is_i64_token, is_null_token, int_value,
    null_token, parse_bool_token, parse_i64,
};

verus! {

/// The cell a raw token decodes to, tried in the cascade's order: null,
/// integer, float, boolean, verbatim text.
pub open spec fn parse_cell_model(s: Seq<char>) -> CellModel {
    if is_null_token(s) {
        CellModel::N
    } else if is_i64_token(s) {
        CellModel::I(int_value(s) as i64)
    } else if is_float_token(s) {
        CellModel::F(s)
    } else if bool_token_value(s) is Some {
        CellModel::B(bool_token_value(s)->0)
    } else {
        CellModel::S(s)
    }
}

/// Decode one raw cell.
pub fn parse_cell(cell: &str) -> (r: CellValue)
    ensures
        cell_model(r) == parse_cell_model(cell@),
{
    if null_token(cell) {
        return CellValue::Null;
    }
    if let Some(val) = parse_i64(cell) {
        return CellValue::Integer(val);
    }
    if float_token(cell) {
        return CellValue::Float(String::from_str(cell));
    }
    if let Some(val) = parse_bool_token(cell) {
        return CellValue::Boolean(val);
    }
    CellValue::Str(String::from_str(cell))
}

/// The mathematical content of a dataset.
pub struct DatasetModel {
    pub headers: Seq<Seq<char>>,
    pub rows: Seq<Seq<Seq<char>>>,
    pub file_size: int,
    pub rows_count: int,
    pub cols_count: int,
    pub columns: Seq<Seq<CellModel>>,
}

/// The decoded cells of column `j`: one per row, `Null` where a row is too
/// short.
pub open spec fn dataset_column(m: DatasetModel, j: int) -> Seq<CellModel> {
    Seq::new(
        m.rows.len(),
        |i: int|
            if 0 <= j < m.rows[i].len() {
                parse_cell_model(m.rows[i][j])
            } else {
                CellModel::N
            },
    )
}

/// The raw cells of column `j`, the empty token where a row is too short.
pub open spec fn dataset_raw_column(m: DatasetModel, j: int) -> Seq<Seq<char>> {
    Seq::new(
        m.rows.len(),
        |i: int|
            if 0 <= j < m.rows[i].len() {
                m.rows[i][j]
            } else {
                Seq::empty()
            },
    )
}

/// First header equal to a name, or the header count.
pub open spec fn header_pos_from(hs: Seq<Seq<char>>, name: Seq<char>, i: int) -> int
    decreases hs.len() - i,
{
    if i < 0 || i >= hs.len() {
        hs.len() as int
    } else if hs[i] == name {
        i
    } else {
        header_pos_from(hs, name, i + 1)
    }
}

pub open spec fn header_pos(hs: Seq<Seq<char>>, name: Seq<char>) -> int {
    header_pos_from(hs, name, 0)
}

proof fn lemma_header_pos(hs: Seq<Seq<char>>, name: Seq<char>, i: int, k: int)
    requires
        0 <= i <= k <= hs.len(),
        k == hs.len() || hs[k] == name,
        forall|j: int| i <= j < k ==> hs[j] != name,
    ensures
        header_pos_from(hs, name, i) == k,
    decreases hs.len() - i,
{
    if i < hs.len() && i < k {
        lemma_header_pos(hs, name, i + 1, k);
    }
}

/// Raw rows with their headers, the decoded columns kept beside them.
#[derive(Debug, PartialEq)]
pub struct Dataset {
    headers: Vec<String>,
    rows: Vec<Vec<String>>,
    file_size: usize,
    rows_count: usize,
    cols_count: usize,
    pub columns: Vec<Vec<CellValue>>,
}

impl View for Dataset {
    type V = DatasetModel;

    closed spec fn view(&self) -> DatasetModel {
        DatasetModel {
            headers: self.headers.deep_view(),
            rows: self.rows.deep_view(),
            file_size: self.file_size as int,
            rows_count: self.rows_count as int,
            cols_count: self.cols_count as int,
            columns: Seq::new(
                self.columns@.len(),
                |j: int| self.columns@[j]@.map_values(|c: CellValue| cell_model(c)),
            ),
        }
    }
}

/// The decoded columns a dataset keeps: one per header, one cell per row.
pub open spec fn dataset_columns_wf(m: DatasetModel) -> bool {
    &&& m.columns.len() == m.headers.len()
    &&& forall|j: int| 0 <= j < m.columns.len() ==> #[trigger] m.columns[j] == dataset_column(m, j)
}

impl Dataset {
    /// Store the raw material and decode every cell, column by column.
    pub fn new(headers: Vec<String>, rows: Vec<Vec<String>>, file_size: usize) -> (r: Dataset)
        ensures
            r@.headers == headers.deep_view(),
            r@.rows == rows.deep_view(),
            r@.file_size == file_size as int,
            r@.rows_count == rows.deep_view().len(),
            r@.cols_count == headers.deep_view().len(),
            dataset_columns_wf(r@),
    {
        let rows_count: usize = rows.len();
        let cols_count: usize = headers.len();
        let ghost hd = headers.deep_view();
        let ghost rs = rows.deep_view();
        let ghost m = DatasetModel {
            headers: hd,
            rows: rs,
            file_size: file_size as int,
            rows_count: rs.len() as int,
            cols_count: hd.len() as int,
            columns: Seq::empty(),
        };
        let mut columns: Vec<Vec<CellValue>> = Vec::new();
        let mut j: usize = 0;
        while j < cols_count
            invariant
                rows_count == rs.len(),
                rows_count == rows@.len(),
                cols_count == hd.len(),
                rs == rows.deep_view(),
                m == (DatasetModel {
                    headers: hd,
                    rows: rs,
                    file_size: file_size as int,
                    rows_count: rs.len() as int,
                    cols_count: hd.len() as int,
                    columns: Seq::empty(),
                }),
                0 <= j <= cols_count,
                columns@.len() == j,
                forall|k: int|
                    0 <= k < j ==> (#[trigger] columns@[k]@).map_values(
                        |c: CellValue| cell_model(c),
                    ) == dataset_column(m, k),
            decreases cols_count - j,
        {
            let mut new_col: Vec<CellValue> = Vec::new();
            let mut i: usize = 0;
            while i < rows_count
                invariant
                    rows_count == rs.len(),
                    rows_count == rows@.len(),
                    rs == rows.deep_view(),
                    m == (DatasetModel {
                    headers: hd,
                    rows: rs,
                    file_size: file_size as int,
                    rows_count: rs.len() as int,
                    cols_count: hd.len() as int,
                    columns: Seq::empty(),
                }),
                    0 <= i <= rows_count,
                    new_col@.len() == i,
                    forall|k: int|
                        0 <= k < i ==> cell_model(#[trigger] new_col@[k]) == dataset_column(
                            m,
                            j as int,
                        )[k],
                decreases rows_count - i,
            {
                let row = &rows[i];
                proof {
                    assert(rows@[i as int].deep_view() == rs[i as int]);
                    assert(rows@[i as int]@.len() == rs[i as int].len());
                }
                let cell: CellValue = if j < row.len() {
                    proof {
                        assert(rows@[i as int]@[j as int]@ == rs[i as int][j as int]);
                    }
                    parse_cell(row[j].as_str())
                } else {
                    CellValue::Null
                };
                new_col.push(cell);
                i = i + 1;
            }
            proof {
                assert(new_col@.map_values(|c: CellValue| cell_model(c)) =~= dataset_column(
                    m,
                    j as int,
                ));
            }
            columns.push(new_col);
            j = j + 1;
        }
        let ds = Dataset { headers, rows, file_size, rows_count, cols_count, columns };
        proof {
            assert forall|k: int| 0 <= k < ds@.columns.len() implies #[trigger] ds@.columns[k]
                == dataset_column(ds@, k) by {
                assert(ds@.columns[k] == columns@[k]@.map_values(|c: CellValue| cell_model(c)));
                assert(dataset_column(ds@, k) =~= dataset_column(m, k));
            }
        }
        ds
    }

    pub fn headers(&self) -> (r: &Vec<String>)
        ensures
            r.deep_view() == self@.headers,
    {
        &self.headers
    }

    pub fn rows(&self) -> (r: &Vec<Vec<String>>)
        ensures
            r.deep_view() == self@.rows,
    {
        &self.rows
    }

    pub fn file_size(&self) -> (r: usize)
        ensures
            r as int == self@.file_size,
    {
        self.file_size
    }

    /// Stored at construction: the number of rows.
    pub fn row_count(&self) -> (r: usize)
        ensures
            r as int == self@.rows_count,
    {
        self.rows_count
    }

    /// Stored at construction: the number of headers.
    pub fn col_count(&self) -> (r: usize)
        ensures
            r as int == self@.cols_count,
    {
        self.cols_count
    }

    fn get_column(&self, column_index: usize) -> (r: Vec<&str>)
        ensures
            r.deep_view() == dataset_raw_column(self@, column_index as int),
    {
        let n: usize = self.rows.len();
        let mut result: Vec<&str> = Vec::new();
        let mut i: usize = 0;
        while i < n
            invariant
                n == self@.rows.len(),
                n == self.rows@.len(),
                self@.rows == self.rows.deep_view(),
                0 <= i <= n,
                result.deep_view().len() == i,
                forall|k: int|
                    0 <= k < i ==> #[trigger] result.deep_view()[k] == dataset_raw_column(
                        self@,
                        column_index as int,
                    )[k],
            decreases n - i,
        {
            let ghost pre = result.deep_view();
            let row = &self.rows[i];
            proof {
                assert(self.rows@[i as int].deep_view() == self@.rows[i as int]);
                assert(self.rows@[i as int]@.len() == self@.rows[i as int].len());
            }
            if column_index < row.len() {
                proof {
                    assert(self.rows@[i as int]@[column_index as int]@ == self@.rows[i as int][column_index as int]);
                }
                result.push(row[column_index].as_str());
                proof {
                    assert(result.deep_view() =~= pre.push(
                        self@.rows[i as int][column_index as int],
                    ));
                }
            } else {
                result.push("");
                proof {
                    reveal_strlit("");
                    assert(""@ =~= Seq::<char>::empty());
                    assert(result.deep_view() =~= pre.push(Seq::<char>::empty()));
                }
            }
            i = i + 1;
        }
        proof {
            assert(result.deep_view() =~= dataset_raw_column(self@, column_index as int));
        }
        result
    }

    fn get_row(&self, row_index: usize) -> (r: Option<&Vec<String>>)
        ensures
            r is Some <==> row_index < self@.rows.len(),
            r matches Some(v) ==> v.deep_view() == self@.rows[row_index as int],
    {
        if row_index < self.rows.len() {
            proof {
                assert(self.rows@[row_index as int].deep_view() == self@.rows[row_index as int]);
            }
            Some(&self.rows[row_index])
        } else {
            None
        }
    }

    /// The raw cells under the first header with this name, if any.
    pub fn get_column_by_name(&self, column_name: &str) -> (r: Option<Vec<&str>>)
        ensures
            r is Some <==> header_pos(self@.headers, column_name@) < self@.headers.len(),
            r matches Some(v) ==> v.deep_view() == dataset_raw_column(
                self@,
                header_pos(self@.headers, column_name@),
            ),
    {
        let n: usize = self.headers.len();
        let mut i: usize = 0;
        while i < n
            invariant
                n == self@.headers.len(),
                n == self.headers@.len(),
                self@.headers == self.headers.deep_view(),
                0 <= i <= n,
                forall|k: int| 0 <= k < i ==> self@.headers[k] != column_name@,
            decreases n - i,
        {
            proof {
                assert(self.headers@[i as int]@ == self@.headers[i as int]);
            }
            if crate::text::str_eq(self.headers[i].as_str(), column_name) {
                proof {
                    lemma_header_pos(self@.headers, column_name@, 0, i as int);
                }
                return Some(self.get_column(i));
            }
            i = i + 1;
        }
        proof {
            lemma_header_pos(self@.headers, column_name@, 0, n as int);
        }
        None
    }

    /// The raw cells of the column at this index, if it is in range.
    pub fn get_column_by_index(&self, column_index: usize) -> (r: Option<Vec<&str>>)
        ensures
            r is Some <==> column_index < self@.headers.len(),
            r matches Some(v) ==> v.deep_view() == dataset_raw_column(
                self@,
                column_index as int,
            ),
    {
        if column_index < self.headers.len() {
            Some(self.get_column(column_index))
        } else {
            None
        }
    }
}

} // verus!
