//! When the editor, sidebar and bottom-panel scrollbar thumbs show: only
//! when the content overflows what is visible and the region is large enough
//! to hold a thumb.
use vstd::prelude::*;

verus! {

/// Narrowest region (in pixels) that gets a scrollbar thumb.
pub const MIN_THUMB_REGION_WIDTH: u32 = 20;

/// Shortest editor or bottom-panel region (in pixels) that gets a thumb.
pub const MIN_THUMB_REGION_HEIGHT: u32 = 40;

/// Shortest sidebar region (in pixels) that gets a thumb.
pub const MIN_SIDEBAR_THUMB_HEIGHT: u32 = 200;

/// Content overflows the visible rows (at least one row counts as visible).
pub fn needs_scroll(total: usize, visible: usize) -> (b: bool)
    ensures
        b == (total > if visible > 1 { visible } else { 1 }),
{
    let v = if visible > 1 { visible } else { 1 };
    total > v
}

/// Which panel a scrollbar belongs to.
#[derive(Clone, Copy, Debug, PartialEq, Eq, Structural)]
pub enum ScrollPanel {
    Editor,
    Sidebar,
    Bottom,
}

/// Shortest region of a panel that gets a thumb.
pub open spec fn min_height_of(p: ScrollPanel) -> u32 {
    match p {
        ScrollPanel::Sidebar => MIN_SIDEBAR_THUMB_HEIGHT,
        _ => MIN_THUMB_REGION_HEIGHT,
    }
}

/// A panel shows its scrollbar thumb when its content overflows and its
/// region is wider than 20 and taller than the panel's minimum height.
pub fn thumb_shown(panel: ScrollPanel, total: usize, visible: usize, width: u32, height: u32) -> (b: bool)
    ensures
        b == ((total > if visible > 1 { visible } else { 1 }) && width > MIN_THUMB_REGION_WIDTH && height
            > min_height_of(panel)),
{
    let min_h = match panel {
        ScrollPanel::Sidebar => MIN_SIDEBAR_THUMB_HEIGHT,
        _ => MIN_THUMB_REGION_HEIGHT,
    };
    needs_scroll(total, visible) && width > MIN_THUMB_REGION_WIDTH && height > min_h
}

} // verus!
