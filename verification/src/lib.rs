//! Verified presentation logic of a desktop editor shell: soft wrapping,
//! workbench tab state, status bar model, syntax span bookkeeping, frame
//! pacing, and the small projections around them.
use vstd::prelude::*;

pub mod text;
pub mod wrap;
pub mod status_bar;
pub mod render_schedule;
pub mod destination;
pub mod tab_state;
pub mod syntax_spans;
pub mod terminal;
pub mod icons;
pub mod render_state;
pub mod ai_presenter;
pub mod ui_nodes;
pub mod explorer;
pub mod editor_buf;
pub mod wrap_styled;
pub mod diff_markers;
pub mod editor_content;
pub mod terminal_grid;
pub mod scrollbars;
pub mod syntax_cache;

verus! {
} // verus!
