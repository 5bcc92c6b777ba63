use zaroxi_interface_desktop::status_bar::model::{
    detect_indent, detect_line_ending, language_label, DiagnosticCounts, DocumentState,
    IndentStyle, LineEnding, SelectionInfo, StatusInputs, StatusModel,
};

fn inputs<'a>(file_label: Option<&'a str>) -> StatusInputs<'a> {
    StatusInputs {
        file_label,
        workspace_name: None,
        cursor_line: 0,
        cursor_col: 0,
        text_sample: None,
        modified: false,
        parsing: false,
        readonly: false,
        selection: None,
        diagnostics: None,
    }
}

#[test]
fn language_label_known_and_unknown() {
    assert_eq!(language_label("src/main.rs"), "Rust");
    assert_eq!(language_label("Cargo.toml"), "TOML");
    assert_eq!(language_label("data.csv"), "csv");
    assert_eq!(language_label("Makefile"), "Plain Text");
}

#[test]
fn detect_indent_tabs_spaces_and_default() {
    assert_eq!(detect_indent("fn main() {\n\tlet x = 1;\n}"), IndentStyle::Tabs(4));
    assert_eq!(detect_indent("fn main() {\n    let x = 1;\n}"), IndentStyle::Spaces(4));
    assert_eq!(detect_indent("- a\n  - b"), IndentStyle::Spaces(2));
    assert_eq!(detect_indent("no indentation here"), IndentStyle::Spaces(4));
}

#[test]
fn detect_line_ending_variants() {
    assert_eq!(detect_line_ending("a\r\nb\r\n"), LineEnding::CrLf);
    assert_eq!(detect_line_ending("a\nb\n"), LineEnding::Lf);
    assert_eq!(detect_line_ending("a\rb"), LineEnding::Cr);
    assert_eq!(detect_line_ending("single line no terminator"), LineEnding::Lf);
}

#[test]
fn from_inputs_without_file_is_quiet() {
    let model = StatusModel::from_inputs(&inputs(None));
    assert!(!model.has_file);
    assert_eq!(model.document_state, DocumentState::NoFile);
    assert!(model.language.is_none());
    assert!(!model.modified && !model.readonly);
    assert!(model.selection.is_none());
    assert!(model.diagnostics.is_none());
}

#[test]
fn from_inputs_with_file_wires_live_state() {
    let mut i = inputs(Some("src/lib.rs"));
    i.workspace_name = Some("zaroxi");
    i.cursor_line = 4;
    i.cursor_col = 9;
    i.text_sample = Some("fn main() {\r\n\tlet x = 1;\r\n}");
    i.modified = true;
    i.parsing = true;
    i.selection = Some(SelectionInfo { chars: 12, lines: 2 });
    i.diagnostics = Some(DiagnosticCounts { errors: 1, warnings: 2, ..Default::default() });

    let model = StatusModel::from_inputs(&i);
    assert!(model.has_file);
    assert_eq!(model.document_state, DocumentState::Parsing);
    assert!(model.modified);
    assert_eq!(model.language.as_deref(), Some("Rust"));
    assert_eq!(model.workspace.as_deref(), Some("zaroxi"));
    assert_eq!(model.indent, IndentStyle::Tabs(4));
    assert_eq!(model.line_ending, LineEnding::CrLf);
    assert_eq!(model.selection, Some(SelectionInfo { chars: 12, lines: 2 }));
    assert_eq!(model.diagnostics.map(|d| (d.errors, d.warnings)), Some((1, 2)));
}

#[test]
fn empty_diagnostics_are_dropped() {
    let mut i = inputs(Some("a.rs"));
    i.diagnostics = Some(DiagnosticCounts::default());
    let model = StatusModel::from_inputs(&i);
    assert!(model.diagnostics.is_none(), "zero-count diagnostics should not show");
}
