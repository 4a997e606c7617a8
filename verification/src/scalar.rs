//! Scalar values: one decoded cell of a table, and the exact rational numbers
//! that the aggregation contract reports.

use vstd::prelude::*;
use vstd::string::*;

use crate::text::{i64_to_string, spec_int_str};

verus! {

/// One decoded scalar cell. `Float` keeps the numeric text token it was read
/// from, verbatim; `Null` stands for a missing value.
#[derive(Debug, Clone, PartialEq)]
pub enum CellValue {
    Str(String),
    Float(String),
    Integer(i64),
    Boolean(bool),
    Date(String),
    Null,
}

/// What a cell renders as: `Null` as the empty string, every other tag in its
/// natural textual form.
pub open spec fn cell_display(c: CellValue) -> Seq<char> {
    match c {
        CellValue::Str(s) => s@,
        CellValue::Float(t) => t@,
        CellValue::Integer(n) => spec_int_str(n as int),
        CellValue::Boolean(b) => if b {
            "true"@
        } else {
            "false"@
        },
        CellValue::Date(d) => d@,
        CellValue::Null => Seq::<char>::empty(),
    }
}

/// The name of a cell's tag.
pub open spec fn cell_data_type(c: CellValue) -> Seq<char> {
    match c {
        CellValue::Str(_) => "string"@,
        CellValue::Float(_) => "float"@,
        CellValue::Integer(_) => "integer"@,
        CellValue::Boolean(_) => "boolean"@,
        CellValue::Date(_) => "date"@,
        CellValue::Null => "null"@,
    }
}

impl CellValue {
    pub fn is_null(&self) -> (r: bool)
        ensures
            r == (self is Null),
    {
        matches!(self, CellValue::Null)
    }

    pub fn data_type(&self) -> (r: &'static str)
        ensures
            r@ == cell_data_type(*self),
    {
        match self {
            CellValue::Str(_) => "string",
            CellValue::Float(_) => "float",
            CellValue::Integer(_) => "integer",
            CellValue::Boolean(_) => "boolean",
            CellValue::Date(_) => "date",
            CellValue::Null => "null",
        }
    }

    /// Render the cell as text.
    pub fn display_string(&self) -> (r: String)
        ensures
            r@ == cell_display(*self),
    {
        match self {
            CellValue::Str(s) => s.clone(),
            CellValue::Float(t) => t.clone(),
            CellValue::Integer(n) => i64_to_string(*n),
            CellValue::Boolean(b) => {
                if *b {
                    String::from_str("true")
                } else {
                    String::from_str("false")
                }
            },
            CellValue::Date(d) => d.clone(),
            CellValue::Null => String::new(),
        }
    }
}

/// An exact rational number: the value of an aggregate, kept as the pair of
/// the fold's numerator and denominator so that nothing is rounded.
#[derive(Debug, Clone, Copy, PartialEq, Eq, Structural)]
pub struct Ratio {
    pub num: i128,
    pub den: usize,
}

/// Well-formed rationals have a positive denominator.
pub open spec fn ratio_wf(r: Ratio) -> bool {
    r.den >= 1
}

impl Ratio {
    /// The whole number `n`.
    pub fn whole(n: i128) -> (r: Ratio)
        ensures
            r.num == n,
            r.den == 1,
    {
        Ratio { num: n, den: 1 }
    }
}

} // verus!
