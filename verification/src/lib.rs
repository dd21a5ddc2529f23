//! Renders tabular data as fixed-width text for a terminal.

pub mod laws;
pub mod row;
pub mod style;
pub mod table;
pub mod table_cell;
pub mod width;
pub mod wrap;

pub use crate::style::{RowPosition, TableStyle};
pub use crate::table::{Table, TableBuilder};
