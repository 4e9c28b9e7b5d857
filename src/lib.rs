//! Rendering of delimiter-separated rows as an aligned table or as a
//! re-delimited stream, with optional projection of a column subset.
//!
//! Rows reach the library already split into fields. A first pass
//! ([`TableScan`]) computes the column widths and resolves the projection
//! ([`FieldsSubset`], [`FileData`]); a second pass renders each row
//! ([`TableRenderer`]) or hands back the fields to re-emit ([`reemit_row`]).

mod delimited;
mod delimiter;
mod error;
mod fields_subset;
mod options;
mod scan;
mod table;
mod text;
mod tokens;

pub use delimited::reemit_row;
pub use delimiter::{get_delimiter, get_delimiter_from_filename, get_delimiter_from_upper, get_delimiter_u8};
pub use error::AppError;
pub use fields_subset::{FieldKind, FieldsSubset, FileData, FileState, KindModel};
pub use options::{OutputFormat, RunOptions};
pub use scan::{accumulate_widths, is_big_file, TableScan, BIG_FILE_LIMIT};
pub use table::{format_border_row, format_table_row, get_table_row_total_length, render_table, TableRenderer};
pub use text::field_display_width;
pub use tokens::split_commas;
