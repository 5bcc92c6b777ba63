//! Left-zone panel: workspace identity.
use vstd::prelude::*;
use crate::status_bar::model::StatusModel;
use crate::text::{string_of, strings_view};

verus! {

/// Workspace segment: the folder name, or "No Workspace".
pub open spec fn workspace_segments_spec(m: StatusModel) -> Seq<Seq<char>> {
    match m.workspace {
        Some(name) => seq![name@],
        None => seq!["No Workspace"@],
    }
}

/// Build the workspace segment.
pub fn segments(model: &StatusModel) -> (r: Vec<String>)
    ensures
        strings_view(r@) == workspace_segments_spec(*model),
{
    let mut out: Vec<String> = Vec::new();
    match &model.workspace {
        Some(name) => out.push(name.clone()),
        None => out.push(string_of("No Workspace")),
    }
    proof {
        assert(strings_view(out@) =~= workspace_segments_spec(*model));
    }
    out
}

} // verus!
