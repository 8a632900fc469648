//! The storage engine: columns, values, the row layout and tables.

pub mod column;
pub mod csv_source;
pub mod row;
pub mod database;
pub mod error;
pub mod key_index;
pub mod table;
pub mod value;

pub use column::Column;


pub use value::Value;
