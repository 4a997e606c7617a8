//! The chunked-aggregation view of a column: a generic contract whose result
//! type picks the aggregate family, exact integers or exact rationals.

pub mod aggregation;
pub mod columns;
