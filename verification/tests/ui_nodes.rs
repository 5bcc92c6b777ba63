use zaroxi_interface_desktop::ui_nodes::{
    element_class, element_label, syntax_commit, UiNodeTracker, WidgetTreeFingerprint, EL_AI,
    EL_BOTTOM, EL_CHROME, EL_EDITOR, EL_GUTTER, EL_OTHER, EL_SIDE, EL_STATUS,
};

#[test]
fn block_ids_classify_into_elements() {
    assert_eq!(element_class("editor_content"), EL_EDITOR);
    assert_eq!(element_class("shell.ContentArea.0"), EL_EDITOR);
    assert_eq!(element_class("editor_gutter"), EL_GUTTER);
    assert_eq!(element_class("status_bar"), EL_STATUS);
    assert_eq!(element_class("ai_composer"), EL_AI);
    assert_eq!(element_class("left_sidebar"), EL_SIDE);
    assert_eq!(element_class("terminal_dock"), EL_BOTTOM);
    assert_eq!(element_class("toolbar"), EL_CHROME);
    assert_eq!(element_class("tab_strip"), EL_CHROME);
    assert_eq!(element_class("minimap"), EL_OTHER);
    assert_eq!(element_label(EL_SIDE), "side");
}

#[test]
fn first_frame_rebuilds_everything_then_reuses() {
    let mut t = UiNodeTracker::new();
    let fp = vec![1, 2, 3, 4, 5, 6, 7, 8];
    let present = vec![true, true, false, true, false, false, false, false];
    let d = t.diff_frame(&fp, &present, (800, 600), true);
    assert_eq!(d.rebuilt, vec![0, 1, 3]);
    assert!(d.reused.is_empty());
    assert!(!d.layout_reused);

    let mut fp2 = fp.clone();
    fp2[1] = 99;
    let d = t.diff_frame(&fp2, &present, (800, 600), true);
    assert_eq!(d.rebuilt, vec![1]);
    assert_eq!(d.reused, vec![0, 3]);
    assert!(d.layout_reused);
    assert_eq!(d.dirty, vec![false, true, false, false, false, false, false, false]);

    let d = t.diff_frame(&fp2, &present, (800, 601), true);
    assert_eq!(d.rebuilt, vec![0, 1, 3]);
    assert!(!d.layout_reused);
}

#[test]
fn untraced_frames_leave_the_tracker_alone() {
    let mut t = UiNodeTracker::new();
    let fp = vec![0; 8];
    let present = vec![true; 8];
    assert!(t.record_frame(true, &fp, &present, (10, 10), false).is_some());
    assert!(t.record_frame(false, &fp, &present, (20, 20), false).is_none());
    // The untraced frame did not retain its size: the next traced frame at
    // the new size rebuilds every node.
    let d = t.record_frame(true, &fp, &present, (20, 20), false).unwrap();
    assert_eq!(d.rebuilt.len(), 8);
    assert!(!d.layout_reused);
    let d = t.record_frame(true, &fp, &present, (20, 20), false).unwrap();
    assert!(d.rebuilt.is_empty());
    assert_eq!(d.reused.len(), 8);
}

#[test]
fn syntax_commit_counts_only_applied_and_dirty() {
    assert_eq!(syntax_commit(true, true, 40, 7), (40, 7));
    assert_eq!(syntax_commit(true, false, 40, 7), (0, 0));
    assert_eq!(syntax_commit(false, true, 40, 7), (0, 0));
}

fn fp(active: Option<&str>, lines: Option<usize>) -> WidgetTreeFingerprint {
    WidgetTreeFingerprint {
        explorer_empty_button: None,
        explorer_items_len: Some(3),
        explorer_scroll_top: 0,
        editor_lines_len: lines,
        active_file: active.map(|s| s.to_string()),
    }
}

#[test]
fn widget_tree_rebuilds_on_size_or_content_change() {
    let a = fp(Some("a.rs"), Some(10));
    let b = fp(Some("b.rs"), Some(10));
    assert!(!WidgetTreeFingerprint::rebuild_needed((1, 1), (1, 1), Some(&a), Some(&fp(Some("a.rs"), Some(10)))));
    assert!(WidgetTreeFingerprint::rebuild_needed((1, 1), (1, 1), Some(&a), Some(&b)));
    assert!(WidgetTreeFingerprint::rebuild_needed((1, 1), (2, 1), Some(&a), Some(&a)));
    assert!(WidgetTreeFingerprint::rebuild_needed((1, 1), (1, 1), None, Some(&a)));
    let r = a.reasons(&b);
    assert!(r.file_changed && !r.editor_changed && !r.explorer_changed);
}
