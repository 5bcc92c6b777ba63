//! Status bar panels: each builds one fragment of display segments from the
//! shared model. Left zone: workspace, document state, diagnostics. Right
//! zone: editor position, file format.
pub mod diagnostics;
pub mod document_state;
pub mod editor_position;
pub mod file_format;
pub mod workspace;
