use zaroxi_interface_desktop::scrollbars::{needs_scroll, thumb_shown, ScrollPanel};

#[test]
fn thumb_shows_only_for_overflowing_large_regions() {
    assert!(needs_scroll(2, 0));
    assert!(!needs_scroll(1, 0));
    assert!(!needs_scroll(10, 10));
    assert!(needs_scroll(11, 10));
    assert!(thumb_shown(ScrollPanel::Editor, 100, 10, 21, 41));
    assert!(!thumb_shown(ScrollPanel::Editor, 100, 10, 20, 41));
    assert!(!thumb_shown(ScrollPanel::Sidebar, 100, 10, 300, 200));
    assert!(thumb_shown(ScrollPanel::Sidebar, 100, 10, 300, 201));
    assert!(!thumb_shown(ScrollPanel::Bottom, 5, 10, 300, 300));
}
