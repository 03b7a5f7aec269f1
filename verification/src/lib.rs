//! Word diff and side-by-side layout of a review diff.

pub mod cell_laws;
pub mod columns;
pub mod comments;
pub mod context;
pub mod culling;
pub mod document_laws;
pub mod edit_script;
pub mod gap_rows;
pub mod gutter;
pub mod hunk_rows;
pub mod input_box;
pub mod laws;
pub mod line_rows;
pub mod model;
pub mod paint;
pub mod row_laws;
pub mod rows;
pub mod screen_laws;
pub mod side_by_side;
pub mod style;
pub mod text;
pub mod theme;
pub mod unicode;
pub mod viewport;
pub mod word_diff;
pub mod word_laws;
