use zaroxi_interface_desktop::destination::{WorkbenchDestination, WorkbenchTabEntry, WorkbenchTabId};
use zaroxi_interface_desktop::tab_state::{build_unified_tabs, VisibleFileTab, WorkbenchTabState};

fn ids(s: &WorkbenchTabState) -> Vec<WorkbenchTabId> {
    s.entries().iter().map(|e| e.stable_id()).collect()
}

#[test]
fn starts_with_welcome_active() {
    let s = WorkbenchTabState::new();
    assert_eq!(ids(&s), vec![WorkbenchTabId::Welcome]);
    assert_eq!(*s.active(), WorkbenchTabId::Welcome);
    assert!(!s.is_editor_active());
}

#[test]
fn opening_dedupes_and_focuses() {
    let mut s = WorkbenchTabState::new();
    let settings = WorkbenchTabId::DestinationRoot(WorkbenchDestination::Settings);
    s.open_or_focus_non_file(settings.clone());
    s.open_or_focus_non_file(WorkbenchTabId::Editor);
    assert!(s.is_editor_active());
    s.open_or_focus_non_file(settings.clone());
    assert_eq!(ids(&s), vec![WorkbenchTabId::Welcome, settings.clone()]);
    assert_eq!(*s.active(), settings);
    assert_eq!(s.rail_reflection(), 5);
}

#[test]
fn closing_the_active_tab_activates_its_neighbour() {
    let mut s = WorkbenchTabState::new();
    let a = WorkbenchTabId::SettingsSection(1);
    let b = WorkbenchTabId::ExtensionDetail("zaroxi.git".to_string());
    s.open_or_focus_non_file(a.clone());
    s.open_or_focus_non_file(b.clone());
    assert!(s.close_tab(&b));
    assert_eq!(*s.active(), a);
    assert!(!s.close_tab(&b));
    assert!(!s.close_tab(&WorkbenchTabId::Welcome));
    assert_eq!(ids(&s), vec![a.clone()]);
    assert!(s.close_tab(&a));
    assert_eq!(*s.active(), WorkbenchTabId::Editor);
    assert!(s.entries().is_empty());
    assert_eq!(s.rail_reflection(), 0);
}

#[test]
fn focus_reports_changes() {
    let mut s = WorkbenchTabState::new();
    assert!(!s.focus_tab(&WorkbenchTabId::Welcome));
    assert!(s.focus_tab(&WorkbenchTabId::FileBuffer("buf:a".to_string())));
    assert_eq!(*s.active(), WorkbenchTabId::Editor);
    assert!(!s.focus_tab(&WorkbenchTabId::SettingsSection(0)));
}

#[test]
fn activating_destinations() {
    let mut s = WorkbenchTabState::new();
    s.activate_destination(WorkbenchDestination::Extensions);
    assert_eq!(*s.active(), WorkbenchTabId::DestinationRoot(WorkbenchDestination::Extensions));
    s.activate_destination(WorkbenchDestination::Explorer);
    assert_eq!(*s.active(), WorkbenchTabId::Editor);
}

#[test]
fn sync_rebuilds_file_tabs_in_front_without_duplicates() {
    let mut s = WorkbenchTabState::new();
    let titles = vec![
        ("src/main.rs".to_string(), "b1".to_string(), true),
        ("client/main.rs".to_string(), "b2".to_string(), false),
        ("src/main.rs".to_string(), "b3".to_string(), false),
        ("x.rs".to_string(), "b1".to_string(), false),
    ];
    s.sync_file_tabs(&titles);
    let es = s.entries();
    assert_eq!(es.len(), 3);
    match &es[0] {
        WorkbenchTabEntry::File { buffer_id, title, is_active_buffer } => {
            assert_eq!(buffer_id, "b1");
            assert_eq!(title, "src/main.rs");
            assert!(*is_active_buffer);
        }
        other => panic!("expected a file tab, got {other:?}"),
    }
    assert_eq!(es[1].stable_id(), WorkbenchTabId::FileBuffer("b2".to_string()));
    assert_eq!(es[2].stable_id(), WorkbenchTabId::Welcome);
}

#[test]
fn unified_tabs_flag_active_only_in_editor_mode() {
    let visible = vec![
        VisibleFileTab { display: "main.rs".into(), buffer_id: "b1".into(), is_active: true, is_preview: false },
        VisibleFileTab { display: "lib.rs".into(), buffer_id: "b2".into(), is_active: false, is_preview: true },
    ];
    let tabs = build_unified_tabs(&visible, &WorkbenchTabId::Editor);
    assert_eq!(tabs.len(), 2);
    assert_eq!(tabs[0].title, "main.rs");
    assert!(tabs[0].active && tabs[0].closable && !tabs[0].is_preview);
    assert_eq!(tabs[0].id, WorkbenchTabId::FileBuffer("b1".into()));
    assert!(!tabs[1].active && tabs[1].is_preview);
    let ext = WorkbenchTabId::ExtensionDetail("zaroxi.git".to_string());
    let tabs = build_unified_tabs(&visible, &ext);
    assert!(!tabs[0].active && !tabs[1].active);
}

#[test]
fn default_state_is_the_welcome_tab() {
    let s = WorkbenchTabState::default();
    assert_eq!(ids(&s), vec![WorkbenchTabId::Welcome]);
    assert_eq!(*s.active(), WorkbenchTabId::Welcome);
}

#[test]
fn closing_an_inactive_file_tab_keeps_the_active_tab() {
    let mut s = WorkbenchTabState::new();
    s.sync_file_tabs(&[("src/a.rs".to_string(), "b1".to_string(), true)]);
    let b1 = WorkbenchTabId::FileBuffer("b1".to_string());
    assert_eq!(*s.active(), WorkbenchTabId::Welcome);
    assert!(!s.close_tab(&b1), "the active tab did not change");
    assert_eq!(*s.active(), WorkbenchTabId::Welcome);
    assert_eq!(s.entries().len(), 1);
    assert!(s.entries().iter().all(|e| e.stable_id() != b1));
}

#[test]
fn focusing_a_file_while_the_editor_is_active_changes_nothing() {
    let mut s = WorkbenchTabState::new();
    s.open_or_focus_non_file(WorkbenchTabId::Editor);
    assert_eq!(*s.active(), WorkbenchTabId::Editor);
    assert!(!s.focus_tab(&WorkbenchTabId::FileBuffer("b1".to_string())));
    assert_eq!(*s.active(), WorkbenchTabId::Editor);
}
