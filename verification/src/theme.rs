//! The colors and styles of the diff panel.

use crate::style::{Color, Style};
use vstd::prelude::*;

verus! {

/// The styles and colors that rows are painted with.
#[derive(Clone, Copy, Debug, PartialEq, Eq)]
pub struct Theme {
    pub diff_context_style: Style,
    pub diff_add_style: Style,
    pub diff_del_style: Style,
    pub expanded_context_style: Style,
    pub dim_style: Style,
    pub current_line_indicator_style: Style,
    pub file_header_style: Style,
    pub search_match_style: Style,
    pub diff_add: Color,
    pub diff_del: Color,
    pub syntax_add_bg: Color,
    pub syntax_del_bg: Color,
    pub word_add_bg: Color,
    pub word_del_bg: Color,
    pub syntax_word_add_bg: Color,
    pub syntax_word_del_bg: Color,
    pub fg_secondary: Color,
}

} // verus!
