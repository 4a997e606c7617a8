//! The concrete column types a table can hold.

use vstd::prelude::*;
use vstd::string::*;

verus! {

/// The semantic type of one column. Inference only produces `Integer`,
/// `Float`, `Boolean` and `Str`; the remaining tags are reserved.
#[derive(Debug, Clone, PartialEq, Eq, Structural)]
pub enum Dtype {
    Str,
    Float,
    Integer,
    Boolean,
    Date,
    DateTime,
    Null,
}

/// The name of a column type, as a report prints it.
pub open spec fn dtype_name(d: Dtype) -> Seq<char> {
    match d {
        Dtype::Str => "Str"@,
        Dtype::Float => "Float"@,
        Dtype::Integer => "Integer"@,
        Dtype::Boolean => "Boolean"@,
        Dtype::Date => "Date"@,
        Dtype::DateTime => "DateTime"@,
        Dtype::Null => "Null"@,
    }
}

impl Dtype {
    /// The type's name as text.
    pub fn name(&self) -> (r: String)
        ensures
            r@ == dtype_name(*self),
    {
        match self {
            Dtype::Str => String::from_str("Str"),
            Dtype::Float => String::from_str("Float"),
            Dtype::Integer => String::from_str("Integer"),
            Dtype::Boolean => String::from_str("Boolean"),
            Dtype::Date => String::from_str("Date"),
            Dtype::DateTime => String::from_str("DateTime"),
            Dtype::Null => String::from_str("Null"),
        }
    }
}

} // verus!
