//! Assembly of the panel fragments into the status bar's two zones.
use vstd::prelude::*;
use crate::status_bar::model::StatusModel;
use crate::status_bar::panels::{diagnostics, document_state, editor_position, file_format, workspace};
use crate::status_bar::model::{StatusInputs, derived_from};
use crate::text::strings_view;

verus! {

/// Left/right segment lists of the status bar.
pub struct StatusBarZones {
    pub left_segments: Vec<String>,
    pub right_segments: Vec<String>,
}

/// Renders the status bar region from a status model.
pub struct StatusView;

impl StatusView {
    /// Left: workspace, document state, diagnostics. Right: position + selection,
    /// then file format.
    pub fn zones(model: &StatusModel) -> (z: StatusBarZones)
        requires
            model.line < u64::MAX,
            model.column < u64::MAX,
        ensures
            strings_view(z.left_segments@) == workspace::workspace_segments_spec(*model)
                + document_state::document_segments_spec(*model)
                + diagnostics::diagnostics_segments_spec(*model),
            strings_view(z.right_segments@) == editor_position::position_segments_spec(*model)
                + file_format::format_segments_spec(*model),
    {
        let mut left_segments = workspace::segments(model);
        let mut doc = document_state::segments(model);
        let mut diag = diagnostics::segments(model);
        let ghost (a, b, c) = (left_segments@, doc@, diag@);
        left_segments.append(&mut doc);
        left_segments.append(&mut diag);
        let mut right_segments = editor_position::segments(model);
        let mut fmt = file_format::segments(model);
        let ghost (d, e) = (right_segments@, fmt@);
        right_segments.append(&mut fmt);
        proof {
            assert(left_segments@ =~= a + b + c);
            assert(strings_view(left_segments@) =~= strings_view(a) + strings_view(b) + strings_view(c));
            assert(right_segments@ =~= d + e);
            assert(strings_view(right_segments@) =~= strings_view(d) + strings_view(e));
        }
        StatusBarZones { left_segments, right_segments }
    }
}

/// Law: with no file open the right zone is empty (no editor position or
/// file-format fields), and a model derived from inputs without a file has
/// no file.
pub proof fn law_no_file_quiet_right_zone(m: StatusModel, inputs: StatusInputs<'_>)
    ensures
        !m.has_file ==> editor_position::position_segments_spec(m) + file_format::format_segments_spec(m)
            == Seq::<Seq<char>>::empty(),
        derived_from(m, inputs) && inputs.file_label is None ==> !m.has_file,
{
    if !m.has_file {
        assert(editor_position::position_segments_spec(m) + file_format::format_segments_spec(m)
            =~= Seq::<Seq<char>>::empty());
    }
}

/// Shape the status bar model from gathered live inputs.
pub fn shape_status_content(inputs: &StatusInputs<'_>) -> (m: StatusModel)
    ensures
        derived_from(m, *inputs),
{
    StatusModel::from_inputs(inputs)
}

} // verus!
