//! Text-buffer model and viewport projection of a terminal text editor.
//!
//! A `Document` holds the characters of a buffer and the records derived from
//! them (logical location, rendered position, display width). A `Context`
//! owns a document, a cursor and a scrolled viewport, and projects the
//! visible, width-correct rectangle of text.

mod character;
mod context;
mod document;
mod location;
mod log;
mod measure;
mod parse;
mod position;
mod state;
mod text;

pub use character::Character;
pub use location::{Location, Range, loc_lt, loc_le, loc_cmp, in_range, lemma_location_total_order};
pub use measure::{char_width, glyph_width, is_zero_width_control, lemma_glyph_width_bound};
pub use position::Position;
pub use parse::{
    MAX_CHARS, end_ln, end_col, end_x, record, records, has_loc, index_at, lemma_records_ordered,
    lemma_locations_unique,
};
pub use document::{
    Document, insert_text, kept, remove_text, split_lines, line_groups, visible, before_char,
    lemma_lines_content, lemma_append_then_remove, lemma_line_bounds,
};
pub use context::{
    Context, sat_sub, abs_cursor, screen_cursor, recenter, filler, clip_state, clip_line,
    rows_in_view, lemma_recenter_jumps_half_width,
};
pub use log::{Log, info, lines, split_on_newline};
pub use state::AppState;
