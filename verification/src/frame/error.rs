//! Shape errors a table construction can report: each carries the offending
//! place and the expected and actual counts.

use vstd::prelude::*;
use vstd::string::*;

use crate::text::{spec_uint_str, usize_to_string};

verus! {

#[derive(Debug, PartialEq)]
pub enum DataFrameError {
    HeadersColumnsLengthMismatch { headers: usize, columns: usize },
    ColumnsLengthMismatch { column: String, expected: usize, actual: usize },
    RowLengthMismatch { index: usize, expected: usize, actual: usize },
    CsvError(String),
    IoError(String),
}

/// The text a shape error reports.
pub open spec fn df_error_message(e: DataFrameError) -> Seq<char> {
    match e {
        DataFrameError::HeadersColumnsLengthMismatch { headers, columns } =>
            "Headers and columns have different size: headers="@ + spec_uint_str(headers as nat)
            + ", columns="@ + spec_uint_str(columns as nat),
        DataFrameError::ColumnsLengthMismatch { column, expected, actual } => "Column '"@
            + column@ + "' has length "@ + spec_uint_str(actual as nat) + " but expected "@
            + spec_uint_str(expected as nat),
        DataFrameError::IoError(msg) => "IO error: "@ + msg@,
        DataFrameError::CsvError(msg) => "CSV error: "@ + msg@,
        DataFrameError::RowLengthMismatch { index, expected, actual } => "Row "@ + spec_uint_str(
            index as nat,
        ) + " has "@ + spec_uint_str(actual as nat) + " columns but expected "@ + spec_uint_str(
            expected as nat,
        ) + " "@,
    }
}

impl DataFrameError {
    /// Render the error as text.
    pub fn message(&self) -> (r: String)
        ensures
            r@ == df_error_message(*self),
    {
        match self {
            DataFrameError::HeadersColumnsLengthMismatch { headers, columns } => {
                let mut r = String::from_str("Headers and columns have different size: headers=");
                let h = usize_to_string(*headers);
                r.append(h.as_str());
                r.append(", columns=");
                let c = usize_to_string(*columns);
                r.append(c.as_str());
                r
            },
            DataFrameError::ColumnsLengthMismatch { column, expected, actual } => {
                let mut r = String::from_str("Column '");
                r.append(column.as_str());
                r.append("' has length ");
                let a = usize_to_string(*actual);
                r.append(a.as_str());
                r.append(" but expected ");
                let e = usize_to_string(*expected);
                r.append(e.as_str());
                r
            },
            DataFrameError::IoError(msg) => {
                let mut r = String::from_str("IO error: ");
                r.append(msg.as_str());
                r
            },
            DataFrameError::CsvError(msg) => {
                let mut r = String::from_str("CSV error: ");
                r.append(msg.as_str());
                r
            },
            DataFrameError::RowLengthMismatch { index, expected, actual } => {
                let mut r = String::from_str("Row ");
                let i = usize_to_string(*index);
                r.append(i.as_str());
                r.append(" has ");
                let a = usize_to_string(*actual);
                r.append(a.as_str());
                r.append(" columns but expected ");
                let e = usize_to_string(*expected);
                r.append(e.as_str());
                r.append(" ");
                r
            },
        }
    }
}

} // verus!
