//! Status bar: a typed view-model derived from live editor inputs, the panel
//! fragments built from it, and their assembly into left/right zones.
pub mod model;
pub mod panels;
pub mod view;

pub use model::{
    DiagnosticCounts, DocumentState, IndentStyle, LineEnding, SelectionInfo, StatusInputs,
    StatusModel,
};

pub use view::{shape_status_content, StatusBarZones, StatusView};
