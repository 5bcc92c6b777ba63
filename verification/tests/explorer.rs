use zaroxi_interface_desktop::explorer::{
    build_unavailable_user_message, explorer_empty_state, no_folder_selected_message, no_rows_hint,
    search_box, workspace_title,
};

#[test]
fn short_reasons_are_quoted() {
    assert_eq!(
        build_unavailable_user_message("no portal"),
        "Workspace picker unavailable: no portal"
    );
}

#[test]
fn long_reasons_point_to_the_log() {
    let long = "x".repeat(91);
    assert_eq!(
        build_unavailable_user_message(&long),
        "Workspace picker unavailable \u{2014} see log for details"
    );
    let exactly = "y".repeat(90);
    assert_eq!(
        build_unavailable_user_message(&exactly),
        format!("Workspace picker unavailable: {exactly}")
    );
}

#[test]
fn empty_state_depends_on_workspace() {
    let open = explorer_empty_state(true);
    assert_eq!(open.primary_action_label, None);
    assert_eq!(open.empty_message.as_deref(), Some("No files in workspace"));
    let none = explorer_empty_state(false);
    assert_eq!(none.primary_action_label.as_deref(), Some("Open Workspace"));
    assert_eq!(none.empty_message, None);
    assert_eq!(no_folder_selected_message(), "No folder selected");
}

#[test]
fn title_is_the_root_folder_name() {
    assert_eq!(workspace_title(Some("/home/me/zaroxi")).as_deref(), Some("zaroxi"));
    assert_eq!(workspace_title(None), None);
}

#[test]
fn search_box_shows_placeholder_caret_or_query() {
    assert_eq!(search_box("", false, true), (" \u{f002}  Search files\u{2026}".to_string(), true, false));
    assert_eq!(search_box("", true, true), (" \u{f002}  \u{258F}".to_string(), false, true));
    assert_eq!(search_box("main", true, false), (" \u{f002}  main".to_string(), false, true));
    assert_eq!(search_box("main", false, true), (" \u{f002}  main\u{258F}".to_string(), false, false));
}

#[test]
fn no_matches_hint_only_while_searching_a_workspace() {
    assert_eq!(no_rows_hint(true, "zz").as_deref(), Some("  No matches"));
    assert_eq!(no_rows_hint(true, ""), None);
    assert_eq!(no_rows_hint(false, "zz"), None);
}
