//! Utilities: decimal text of integers and an output buffer.

pub mod decimal;
pub mod io;
pub mod strings;
