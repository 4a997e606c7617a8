//! A typed column store for tabular text data: cascading type inference,
//! nullable typed columns with a uniform aggregation contract, table shape
//! validation, fixed-width rendering and JSON export.

pub mod config;
pub mod dataframe;
pub mod frame;
pub mod json;
pub mod json_read;
pub mod parser;
pub mod render;
pub mod reporter;
pub mod scalar;
pub mod series;
pub mod text;
pub mod types;

pub use config::{parse_command, Command, Config, ConfigError};
pub use frame::DataFrame;
pub use scalar::CellValue;
pub use types::Dtype;
