//! Explorer sidebar text: the header title taken from the workspace root,
//! the empty-state action or message, and the status line shown when the
//! folder picker cannot run.
use vstd::prelude::*;
use vstd::string::StringSliceAdditionalSpecFns;
use crate::destination::{file_name_of, opt_view, path_file_name};
use crate::text::{push_str, string_from_chars, string_of};

verus! {

/// Longest picker failure reason (in bytes) quoted in the status line.
pub const MAX_QUOTED_REASON: usize = 90;

/// Status line for a folder picker that cannot run: the reason quoted when it
/// is short, else a pointer to the log.
pub open spec fn unavailable_message_spec(reason: &str) -> Seq<char> {
    if reason.spec_bytes().len() > MAX_QUOTED_REASON {
        "Workspace picker unavailable \u{2014} see log for details"@
    } else {
        "Workspace picker unavailable: "@ + reason@
    }
}

/// User-facing status line for a folder picker that is unavailable.
pub fn build_unavailable_user_message(reason: &str) -> (s: String)
    ensures
        s@ == unavailable_message_spec(reason),
{
    if reason.as_bytes().len() > MAX_QUOTED_REASON {
        string_of("Workspace picker unavailable \u{2014} see log for details")
    } else {
        let mut v: Vec<char> = Vec::new();
        push_str(&mut v, "Workspace picker unavailable: ");
        push_str(&mut v, reason);
        string_from_chars(v.as_slice())
    }
}

/// Status line when the picker was dismissed without a folder.
pub fn no_folder_selected_message() -> (s: String)
    ensures
        s@ == "No folder selected"@,
{
    string_of("No folder selected")
}

/// What an empty explorer shows: with a workspace open, a quiet message;
/// without one, the button that opens a workspace.
pub struct ExplorerEmptyState {
    /// Label of the primary action button.
    pub primary_action_label: Option<String>,
    /// Quiet empty-state message.
    pub empty_message: Option<String>,
}

/// The empty state of the explorer for whether a workspace is open.
pub fn explorer_empty_state(has_workspace: bool) -> (e: ExplorerEmptyState)
    ensures
        has_workspace ==> opt_view(e.primary_action_label) is None && opt_view(e.empty_message)
            == Some("No files in workspace"@),
        !has_workspace ==> opt_view(e.primary_action_label) == Some("Open Workspace"@) && opt_view(
            e.empty_message,
        ) is None,
{
    if has_workspace {
        ExplorerEmptyState { primary_action_label: None, empty_message: Some(string_of("No files in workspace")) }
    } else {
        ExplorerEmptyState { primary_action_label: Some(string_of("Open Workspace")), empty_message: None }
    }
}

/// Header title of the explorer: the file name of the workspace root, when a
/// workspace is open and its root has one.
pub fn workspace_title(root: Option<&str>) -> (t: Option<String>)
    ensures
        opt_view(t) == match root {
            Some(r) => path_file_name(r@),
            None => None,
        },
{
    match root {
        Some(r) => file_name_of(r),
        None => None,
    }
}

/// Text of the explorer search box: the search glyph, then the query and
/// the caret; with an empty query the caret alone while focused, else the
/// placeholder.
pub open spec fn search_box_spec(query: Seq<char>, active: bool, caret_visible: bool) -> Seq<char> {
    let caret = if caret_visible { seq!['\u{258F}'] } else { Seq::empty() };
    let head = seq![' ', crate::icons::glyph::SEARCH, ' ', ' '];
    if query.len() == 0 {
        if active {
            head + caret
        } else {
            head + "Search files\u{2026}"@
        }
    } else {
        head + query + caret
    }
}

/// Search box text, whether it is drawn muted (the placeholder), and
/// whether it gets the focus ring.
pub fn search_box(query: &str, active: bool, caret_visible: bool) -> (r: (String, bool, bool))
    ensures
        r.0@ == search_box_spec(query@, active, caret_visible),
        r.1 == (query@.len() == 0 && !active),
        r.2 == active,
{
    let mut out: Vec<char> = Vec::new();
    out.push(' ');
    out.push(crate::icons::glyph::SEARCH);
    out.push(' ');
    out.push(' ');
    let ghost head = out@;
    let empty = query.is_empty();
    if empty && !active {
        push_str(&mut out, "Search files\u{2026}");
    } else {
        if !empty {
            push_str(&mut out, query);
        }
        if caret_visible {
            out.push('\u{258F}');
        }
    }
    proof {
        assert(head =~= seq![' ', crate::icons::glyph::SEARCH, ' ', ' ']);
        assert(out@ =~= search_box_spec(query@, active, caret_visible));
    }
    (string_from_chars(out.as_slice()), empty && !active, active)
}

/// The quiet hint under the search box when a loaded workspace shows no
/// rows: "No matches" while a query is typed, nothing otherwise.
pub fn no_rows_hint(has_workspace: bool, query: &str) -> (r: Option<String>)
    ensures
        r matches Some(s) ==> s@ == "  No matches"@,
        r is Some <==> (has_workspace && query@.len() > 0),
{
    if has_workspace && !query.is_empty() {
        Some(string_of("  No matches"))
    } else {
        None
    }
}

} // verus!
