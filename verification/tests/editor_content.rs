use zaroxi_interface_desktop::editor_content::{
    colorize_body_lines, colorize_rendered_text, document_read_window, editor_body_title, editor_tab_entries, editor_window_range,
    restore_trailing_empty_lines, shape_editor_content, shape_editor_window, text_store_read_plan,
    text_store_used_range, EditorBody, EditorWork,
};
use zaroxi_interface_desktop::syntax_spans::{Highlight, HighlightSpan};

fn lines(v: &[&str]) -> Vec<String> {
    v.iter().map(|s| s.to_string()).collect()
}

fn runs(v: &[(&str, Highlight)]) -> Vec<(String, Highlight)> {
    v.iter().map(|(s, h)| (s.to_string(), *h)).collect()
}

#[test]
fn window_is_overscanned_and_clamped() {
    assert_eq!(editor_window_range(Some((30, 40)), 100), Some((10, 60)));
    assert_eq!(editor_window_range(Some((5, 10)), 100), Some((0, 30)));
    assert_eq!(editor_window_range(Some((5, 10)), 12), Some((0, 12)));
    assert_eq!(editor_window_range(None, 12), None);
}

#[test]
fn body_window_text_and_range() {
    let ls = lines(&["a", "b", "c"]);
    assert_eq!(shape_editor_window(Some(&ls), 3, Some((0, 2))), ("a\nb\nc".to_string(), Some((0, 3))));
    assert_eq!(shape_editor_window(Some(&ls), 3, None), ("a\nb\nc".to_string(), None));
    assert_eq!(shape_editor_window(None, 0, None), ("No file open".to_string(), None));
    assert_eq!(shape_editor_window(None, 0, Some((0, 5))), (String::new(), None));
    // A window starting past the last line reads nothing.
    let many: Vec<String> = (0..5).map(|i| i.to_string()).collect();
    assert_eq!(shape_editor_window(Some(&many), 100, Some((40, 45))), (String::new(), None));
    assert_eq!(shape_editor_window(Some(&many), 100, Some((22, 23))), ("2\n3\n4".to_string(), Some((2, 43))));
}

#[test]
fn trailing_empty_lines_are_restored() {
    assert_eq!(restore_trailing_empty_lines("a\nb".to_string(), Some((0, 4))), "a\nb\n\n");
    assert_eq!(restore_trailing_empty_lines("a\nb".to_string(), Some((0, 2))), "a\nb");
    assert_eq!(restore_trailing_empty_lines("a".to_string(), Some((5, 3))), "a");
    assert_eq!(restore_trailing_empty_lines("a".to_string(), None), "a");
    let r = restore_trailing_empty_lines("x".to_string(), Some((10, 13)));
    assert_eq!(r.split('\n').count(), 3);
}

#[test]
fn body_title_falls_back_to_subtitle() {
    assert_eq!(editor_body_title("main.rs", "src"), "main.rs");
    assert_eq!(editor_body_title("", "src"), "src");
}

#[test]
fn tab_entries_mark_the_first_or_show_a_placeholder() {
    let t = editor_tab_entries(&[]);
    assert_eq!(t.len(), 1);
    assert_eq!(t[0].label, "No file open");
    assert!(!t[0].active);
    let t = editor_tab_entries(&lines(&["a.rs", "b.rs"]));
    assert_eq!(t.len(), 2);
    assert!(t[0].active && !t[1].active);
    assert_eq!(t[1].label, "b.rs");
}

#[test]
fn store_reads_a_window_or_the_whole_text() {
    assert_eq!(text_store_read_plan(Some((30, 40)), 100), Some((10, 60)));
    assert_eq!(text_store_read_plan(None, 5000), Some((0, 70)));
    assert_eq!(text_store_read_plan(None, 1000), None);
    assert_eq!(text_store_used_range(true, Some((10, 60)), false, 50), Some((10, 50)));
    assert_eq!(text_store_used_range(true, Some((60, 80)), true, 50), None);
    assert_eq!(text_store_used_range(false, Some((0, 70)), false, 5000), Some((0, 70)));
    assert_eq!(text_store_used_range(true, None, false, 5), None);
}

#[test]
fn body_lines_are_colored_as_a_window_or_whole() {
    let ls = lines(&["ab", "cd", "ef"]);
    let spans = [HighlightSpan { start: 3, end: 5, highlight: Highlight::Comment }];
    assert_eq!(colorize_body_lines(&ls, None, &[]), None);
    assert_eq!(colorize_body_lines(&[], None, &spans), None);
    assert_eq!(
        colorize_body_lines(&ls, Some((1, 2)), &spans),
        Some(runs(&[("cd", Highlight::Comment)]))
    );
    assert_eq!(colorize_body_lines(&ls, Some((5, 9)), &spans), None);
    assert_eq!(
        colorize_body_lines(&ls, None, &spans),
        Some(runs(&[
            ("ab", Highlight::Plain),
            ("\n", Highlight::Plain),
            ("cd", Highlight::Comment),
            ("\n", Highlight::Plain),
            ("ef", Highlight::Plain),
        ]))
    );
}

#[test]
fn rendered_text_is_colored_from_its_window_base() {
    let spans = [HighlightSpan { start: 3, end: 5, highlight: Highlight::Keyword }];
    assert_eq!(
        colorize_rendered_text("cd\nef", Some((1, 3)), 3, &spans),
        Some(runs(&[("cd", Highlight::Keyword), ("\n", Highlight::Plain), ("ef", Highlight::Plain)]))
    );
    assert_eq!(colorize_rendered_text("", None, 0, &spans), None);
    assert_eq!(colorize_rendered_text("cd", Some((2, 2)), 3, &spans), None);
    assert_eq!(colorize_rendered_text("cd", None, 0, &[]), None);
}

#[test]
fn editor_payload_from_work_content() {
    assert!(shape_editor_content(None, &[], None, None).tab_entries.is_empty());
    let work = EditorWork {
        editor_body: Some(EditorBody {
            lines: lines(&["ab", "cd"]),
            title: String::new(),
            subtitle: "sub".to_string(),
            cursor_line: 1,
            cursor_col: 2,
        }),
        editor_tabs: Some(lines(&["a.rs"])),
        editor_breadcrumb: None,
    };
    let spans = [HighlightSpan { start: 3, end: 5, highlight: Highlight::Comment }];
    let c = shape_editor_content(Some(&work), &spans, Some((0, 1)), Some(4));
    assert_eq!(c.text, "ab\ncd\n\n");
    assert_eq!(c.visible_line_range, Some((0, 4)));
    assert_eq!(c.total_lines, 4);
    assert_eq!(c.body_title, "sub");
    assert_eq!((c.cursor_line, c.cursor_col), (1, 2));
    assert_eq!(c.tab_entries.len(), 1);
    assert!(c.tab_entries[0].active);
    assert_eq!(c.breadcrumb_label, "");
    assert_eq!(
        c.spans,
        Some(runs(&[("ab", Highlight::Plain), ("\n", Highlight::Plain), ("cd", Highlight::Comment)]))
    );
    let none = EditorWork { editor_body: None, editor_tabs: None, editor_breadcrumb: Some("x".to_string()) };
    let c = shape_editor_content(Some(&none), &spans, None, None);
    assert_eq!(c.text, "No file open");
    assert_eq!(c.spans, None);
    assert_eq!(c.tab_entries[0].label, "No file open");
    assert_eq!(c.breadcrumb_label, "x");
}

#[test]
fn document_buffers_always_read_a_window() {
    assert_eq!(document_read_window(None, 10), (0, 10));
    assert_eq!(document_read_window(None, 500), (0, 70));
    assert_eq!(document_read_window(Some((30, 40)), 45), (10, 45));
}
