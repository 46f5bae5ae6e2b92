//! Exchange layer between a columnar analytical engine and a row-oriented
//! statistical host that only offers single-cell reads and writes.

pub mod batch;
pub mod convert;
pub mod downcast;
pub mod error;
pub mod long_value;
pub mod mapping;
pub mod output;
pub mod params;
pub mod promotion;
pub mod reader;
pub mod rename;
pub mod selection;
pub mod sql_from_if;
pub mod text;
pub mod utilities;
pub mod writer;
