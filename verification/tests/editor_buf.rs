use zaroxi_interface_desktop::editor_buf::{
    backspace_line_range, delete_forward_line_range, expand_tabs, insert_edit_line_range,
    raw_to_vis_col, selection_edit_line_range, sorted_selection, vis_to_raw_col, TAB_WIDTH,
};

#[test]
fn tab_expansion_replaces_tabs() {
    assert_eq!(expand_tabs("a\tb", 4), "a   b");
}

#[test]
fn tab_expansion_at_start_of_line() {
    assert_eq!(expand_tabs("\tx", 4), "    x");
}

#[test]
fn tab_expansion_at_tab_stop() {
    assert_eq!(expand_tabs("ab\tc", 4), "ab  c");
}

#[test]
fn vis_to_raw_col_tab_boundaries() {
    assert_eq!(vis_to_raw_col("a\tb", 0, 4), 0);
    assert_eq!(vis_to_raw_col("a\tb", 1, 4), 1);
    assert_eq!(vis_to_raw_col("a\tb", 3, 4), 1);
    assert_eq!(vis_to_raw_col("a\tb", 4, 4), 2);
    assert_eq!(vis_to_raw_col("a\tb", 5, 4), 3);
}

#[test]
fn raw_to_vis_col_tab_expansion() {
    assert_eq!(raw_to_vis_col("a\tb", 0, 4), 0);
    assert_eq!(raw_to_vis_col("a\tb", 1, 4), 1);
    assert_eq!(raw_to_vis_col("a\tb", 2, 4), 4);
}

#[test]
fn tab_stops_count_display_columns() {
    // 'é' is one display column, so the tab after "aé" fills to column 4.
    assert_eq!(expand_tabs("aé\tb", TAB_WIDTH), "aé  b");
    assert_eq!(expand_tabs("é\tx", 4), "é   x");
    assert_eq!(expand_tabs("", TAB_WIDTH), "");
    assert_eq!(expand_tabs("no tabs", 0), "no tabs");
}

#[test]
fn columns_map_character_indices_of_multibyte_text() {
    assert_eq!(raw_to_vis_col("éab", 2, 4), 2);
    assert_eq!(raw_to_vis_col("é\tx", 2, 4), 4);
    assert_eq!(vis_to_raw_col("éb", 1, 4), 1);
    assert_eq!(vis_to_raw_col("é\tx", 1, 4), 1);
    assert_eq!(vis_to_raw_col("é\tx", 4, 4), 2);
}

#[test]
fn selection_is_ordered_and_empty_selection_is_none() {
    assert_eq!(sorted_selection(Some(9), 3), Some((3, 9)));
    assert_eq!(sorted_selection(Some(3), 9), Some((3, 9)));
    assert_eq!(sorted_selection(Some(4), 4), None);
    assert_eq!(sorted_selection(None, 4), None);
}

#[test]
fn edit_line_ranges() {
    assert_eq!(insert_edit_line_range(None, 2, 2, false), (2, 3));
    assert_eq!(insert_edit_line_range(None, 2, 4, true), (2, 5));
    assert_eq!(insert_edit_line_range(Some((1, 6)), 2, 2, false), (1, 7));
    assert_eq!(selection_edit_line_range(3, 5), (3, 6));
    assert_eq!(backspace_line_range(3, true), (2, 4));
    assert_eq!(backspace_line_range(0, true), (0, 1));
    assert_eq!(backspace_line_range(3, false), (3, 4));
    assert_eq!(delete_forward_line_range(1, true, 3), (1, 3));
    assert_eq!(delete_forward_line_range(2, true, 3), (2, 3));
}
