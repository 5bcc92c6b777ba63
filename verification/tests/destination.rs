use zaroxi_interface_desktop::destination::{
    cockpit_panels_for, extension_entries, format_file_tab_label, sidebar_rows,
    sidebar_selection_for, tab_title, WorkbenchDestination, WorkbenchTabEntry, WorkbenchTabId,
};

#[test]
fn rail_index_maps_to_destination() {
    assert_eq!(WorkbenchDestination::from_rail_index(0), WorkbenchDestination::Explorer);
    assert_eq!(WorkbenchDestination::from_rail_index(4), WorkbenchDestination::Extensions);
    assert_eq!(WorkbenchDestination::from_rail_index(5), WorkbenchDestination::Settings);
    assert_eq!(WorkbenchDestination::from_rail_index(99), WorkbenchDestination::Explorer);
}

#[test]
fn only_explorer_is_explorer() {
    assert!(WorkbenchDestination::Explorer.is_explorer());
    assert!(!WorkbenchDestination::Settings.is_explorer());
    assert!(!WorkbenchDestination::Extensions.is_explorer());
}

#[test]
fn placeholder_only_for_facet_destinations() {
    assert!(WorkbenchDestination::Search.placeholder().is_some());
    assert!(WorkbenchDestination::Account.placeholder().is_some());
    assert!(WorkbenchDestination::Explorer.placeholder().is_none());
    assert!(WorkbenchDestination::Settings.placeholder().is_none());
    assert!(WorkbenchDestination::Extensions.placeholder().is_none());
}

#[test]
fn extensions_sidebar_marks_selection() {
    let rows = sidebar_rows(WorkbenchDestination::Extensions, Some(1), None);
    assert!(rows[1].selected);
    assert!(rows[0].selectable);
    assert!(!rows[0].selected);
}

#[test]
fn explorer_has_no_destination_rows() {
    assert!(sidebar_rows(WorkbenchDestination::Explorer, None, None).is_empty());
}

#[test]
fn format_file_tab_disambiguates_duplicates() {
    let paths: Vec<&str> = vec!["src/main.rs", "client/main.rs", "src/lib.rs"];
    assert_eq!(format_file_tab_label("src/main.rs", &paths), "src/main.rs");
    assert_eq!(format_file_tab_label("client/main.rs", &paths), "client/main.rs");
    assert_eq!(format_file_tab_label("src/lib.rs", &paths), "lib.rs");
}

#[test]
fn format_file_tab_uses_basename_for_unique_names() {
    let paths: Vec<&str> = vec!["src/main.rs", "src/lib.rs"];
    assert_eq!(format_file_tab_label("src/main.rs", &paths), "main.rs");
    assert_eq!(format_file_tab_label("AGENTS.md", &paths), "AGENTS.md");
}

#[test]
fn panels_follow_active_tab() {
    let (s, e, p) = cockpit_panels_for(&WorkbenchTabId::SettingsSection(2));
    assert!(s.is_some() && e.is_none() && p.is_none());
    assert_eq!(s.unwrap().1, 2);

    let id = extension_entries()[2].id.clone();
    let (s, e, _p) = cockpit_panels_for(&WorkbenchTabId::ExtensionDetail(id));
    assert!(s.is_none());
    assert_eq!(e.unwrap().1, 2);

    let (_s, _e, p) =
        cockpit_panels_for(&WorkbenchTabId::DestinationRoot(WorkbenchDestination::Search));
    assert!(p.is_some());
    let (s, e, p) = cockpit_panels_for(&WorkbenchTabId::Editor);
    assert!(s.is_none() && e.is_none() && p.is_none());
}

#[test]
fn sidebar_selection_derives_from_active_tab() {
    let id = extension_entries()[1].id.clone();
    assert_eq!(sidebar_selection_for(&WorkbenchTabId::ExtensionDetail(id)), (Some(1), None));
    assert_eq!(sidebar_selection_for(&WorkbenchTabId::SettingsSection(3)), (None, Some(3)));
    assert_eq!(sidebar_selection_for(&WorkbenchTabId::Editor), (None, None));
}

#[test]
fn tab_titles_are_human_readable() {
    assert_eq!(
        tab_title(&WorkbenchTabId::DestinationRoot(WorkbenchDestination::Extensions)),
        "Extensions"
    );
    assert!(tab_title(&WorkbenchTabId::SettingsSection(0)).starts_with("Settings: "));
    let id = extension_entries()[0].id.clone();
    assert_eq!(tab_title(&WorkbenchTabId::ExtensionDetail(id)), extension_entries()[0].name);
}

#[test]
fn rail_index_round_trips_for_every_destination() {
    for i in 0..7 {
        let d = WorkbenchDestination::from_rail_index(i);
        assert_eq!(d.rail_index(), i);
    }
}

#[test]
fn sidebar_titles_name_the_destination() {
    assert_eq!(WorkbenchDestination::Extensions.title(), "Extensions");
    assert!(!WorkbenchDestination::Settings.sidebar_title().is_empty());
}

#[test]
fn only_the_welcome_entry_is_not_closable() {
    let welcome = WorkbenchTabEntry::NonFile { id: WorkbenchTabId::Welcome, title: "Welcome".to_string() };
    assert!(!welcome.closable());
    let settings = WorkbenchTabEntry::NonFile {
        id: WorkbenchTabId::DestinationRoot(WorkbenchDestination::Settings),
        title: "Settings".to_string(),
    };
    assert!(settings.closable());
}
