use zaroxi_interface_desktop::diff_markers::{diff_hunks_to_viewport, DiffHunk, DiffKind};

fn h(line: usize, kind: DiffKind) -> DiffHunk {
    DiffHunk { line, kind }
}

#[test]
fn unwrapped_markers_follow_the_scroll_line() {
    let hunks = [h(3, DiffKind::Added), h(10, DiffKind::Removed), h(1, DiffKind::Modified)];
    let out = diff_hunks_to_viewport(&hunks, false, 2, 5, &[], 0, 0);
    assert_eq!(out, vec![h(1, DiffKind::Added)]);
}

#[test]
fn wrapped_bars_cover_every_row_and_markers_the_first() {
    // Logical line 4 takes visual rows 1..=3.
    let v2l = [3, 4, 4, 4, 5];
    let hunks = [h(4, DiffKind::Modified), h(4, DiffKind::Removed), h(9, DiffKind::Removed)];
    let out = diff_hunks_to_viewport(&hunks, false, 0, 10, &v2l, 8, 1);
    assert_eq!(
        out,
        vec![h(0, DiffKind::Modified), h(1, DiffKind::Modified), h(2, DiffKind::Modified), h(0, DiffKind::Removed)]
    );
}

#[test]
fn large_files_and_empty_sets_have_no_markers() {
    assert!(diff_hunks_to_viewport(&[h(0, DiffKind::Added)], true, 0, 10, &[], 0, 0).is_empty());
    assert!(diff_hunks_to_viewport(&[], false, 0, 10, &[], 0, 0).is_empty());
}

#[test]
fn rows_past_the_viewport_are_dropped() {
    let out = diff_hunks_to_viewport(&[h(7, DiffKind::Added)], false, 2, 5, &[], 0, 0);
    assert!(out.is_empty());
    let out = diff_hunks_to_viewport(&[h(6, DiffKind::Added)], false, 2, 5, &[], 0, 0);
    assert_eq!(out, vec![h(4, DiffKind::Added)]);
}
