use zaroxi_interface_desktop::wrap::wrap_text;
use zaroxi_interface_desktop::wrap_styled::{apply_wrap, wrap_spans};

#[test]
fn plain_and_styled_paths_break_identically() {
    let line = "let path = crate/module/name_value;";
    let cpr = 12;
    let mut v2l_plain = Vec::new();
    let mut tv_plain = 0usize;
    let _ = wrap_text(line, cpr, &mut v2l_plain, 0, &mut tv_plain);

    let spans = vec![(line.to_string(), [1.0f32, 1.0, 1.0, 1.0])];
    let mut v2l_styled = Vec::new();
    let mut tv_styled = 0usize;
    let _ = wrap_spans(&spans, cpr, &mut v2l_styled, 0, &mut tv_styled);

    assert_eq!(v2l_plain, v2l_styled);
    assert_eq!(tv_plain, tv_styled);
}

#[test]
fn styled_rows_break_at_the_plain_rows() {
    let spans = vec![("ab cd".to_string(), 1u8), ("\n".to_string(), 2u8), ("x".to_string(), 3u8)];
    let mut v2l = Vec::new();
    let mut tv = 0usize;
    let out = wrap_spans(&spans, 3, &mut v2l, 5, &mut tv);
    let expected: Vec<(String, u8)> = vec![
        ("a", 1), ("b", 1), (" ", 1), ("\n", 1), ("c", 1), ("d", 1), ("\n", 2), ("x", 3),
    ]
    .into_iter()
    .map(|(s, c)| (s.to_string(), c))
    .collect();
    assert_eq!(out, expected);
    assert_eq!(v2l, vec![5, 5, 6]);
    assert_eq!(tv, 3);
}

#[test]
fn without_width_runs_pass_through() {
    let spans = vec![("a".to_string(), 0u8), ("\n".to_string(), 0u8), ("b".to_string(), 0u8)];
    let mut v2l = vec![1];
    let mut tv = 1usize;
    let out = wrap_spans(&spans, 0, &mut v2l, 7, &mut tv);
    assert_eq!(out, spans);
    assert_eq!(v2l, vec![1, 7, 8]);
    assert_eq!(tv, 3);
}

#[test]
fn stream_of_empty_runs_records_its_line_twice() {
    let spans = vec![(String::new(), 0u8)];
    let mut v2l = Vec::new();
    let mut tv = 0usize;
    let out = wrap_spans(&spans, 4, &mut v2l, 2, &mut tv);
    assert!(out.is_empty());
    assert_eq!(v2l, vec![2, 2]);
    assert_eq!(tv, 2);
}

#[test]
fn apply_wrap_counts_rows_above_the_scroll_line() {
    let r = apply_wrap::<u8>("hello world foo\nx", None, 8, 10, 11);
    assert_eq!(r.text, "hello \nworld \nfoo\nx");
    assert_eq!(r.visual_to_logical, vec![10, 10, 10, 11]);
    assert_eq!(r.total_visual, 4);
    assert_eq!(r.visual_offset, 3);
    assert!(r.spans.is_none());
}

#[test]
fn apply_wrap_without_width_keeps_text_and_spans() {
    let spans = vec![("a".to_string(), 1u8), ("\n".to_string(), 1u8), ("b".to_string(), 2u8)];
    let r = apply_wrap("a\nb", Some(&spans), 0, 4, 6);
    assert_eq!(r.text, "a\nb");
    assert_eq!(r.spans, Some(spans.clone()));
    assert_eq!(r.visual_to_logical, vec![4, 5]);
    assert_eq!(r.total_visual, 2);
    assert_eq!(r.visual_offset, 2);
    let r = apply_wrap("", Some(&spans), 5, 4, 2);
    assert_eq!(r.visual_to_logical, vec![4]);
    assert_eq!(r.visual_offset, 0);
}

#[test]
fn apply_wrap_wraps_spans_on_the_text_plan() {
    let spans = vec![("ab cd".to_string(), 7u8)];
    let r = apply_wrap("ab cd", Some(&spans), 3, 0, 0);
    assert_eq!(r.text, "ab \ncd");
    let joined: String = r.spans.unwrap().into_iter().map(|(t, _)| t).collect();
    assert_eq!(joined, "ab \ncd");
}
