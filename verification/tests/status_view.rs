use zaroxi_interface_desktop::status_bar::{
    shape_status_content, DiagnosticCounts, SelectionInfo, StatusInputs, StatusModel, StatusView,
};

fn rich_model() -> StatusModel {
    StatusModel::from_inputs(&StatusInputs {
        file_label: Some("src/main.rs"),
        workspace_name: Some("zaroxi"),
        cursor_line: 0,
        cursor_col: 0,
        text_sample: Some("fn main() {\n    let x = 1;\n}"),
        modified: true,
        parsing: false,
        readonly: false,
        selection: Some(SelectionInfo { chars: 5, lines: 1 }),
        diagnostics: Some(DiagnosticCounts { errors: 2, warnings: 1, ..Default::default() }),
    })
}

#[test]
fn open_file_renders_rich_visible_zones() {
    let z = StatusView::zones(&rich_model());
    assert!(!z.left_segments.is_empty(), "left zone must render");
    assert!(!z.right_segments.is_empty(), "right zone must render");

    let rendered = format!("{} || {}", z.left_segments.join("  "), z.right_segments.join("  "));
    for expected in [
        "zaroxi",
        "Modified",
        "E 2 W 1",
        "Ln 1, Col 1",
        "Sel 5",
        "Spaces: 4",
        "UTF-8",
        "LF",
        "Rust",
    ] {
        assert!(
            rendered.contains(expected),
            "visible status bar missing {expected:?}; rendered: {rendered:?}"
        );
    }
}

#[test]
fn no_file_shows_workspace_and_document_placeholders_only() {
    let z = StatusView::zones(&StatusModel::default());
    assert_eq!(z.left_segments, vec!["No Workspace".to_string(), "No file".to_string()]);
    assert!(z.right_segments.is_empty(), "no-file bar must not show editor/format fields");
}

#[test]
fn presenter_matches_model_derivation() {
    let inputs = StatusInputs {
        file_label: Some("a/b.py"),
        workspace_name: Some("  ws  "),
        cursor_line: 3,
        cursor_col: 4,
        text_sample: Some("\tx\r\n"),
        modified: false,
        parsing: true,
        readonly: true,
        selection: None,
        diagnostics: None,
    };
    let m = shape_status_content(&inputs);
    assert_eq!(m.workspace.as_deref(), Some("ws"));
    assert_eq!(m.language.as_deref(), Some("Python"));
    assert!(m.readonly);
}
