//! What a table of tasks shows: the words for a due date, the widths of
//! the columns and which columns there are. Writing the table to a terminal
//! is left to the caller.

pub mod formatting;
pub mod table;

pub use formatting::{get_due_text, render_checkbox};
pub use table::TableLayout;
