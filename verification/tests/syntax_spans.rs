use zaroxi_interface_desktop::syntax_spans::{
    colorize_source_runs, colorize_window_runs, common_prefix_len, common_suffix_len,
    coverage_end, line_runs, rebase_spans_to_window, remap_good_spans_across_edit, safe_slice,
    spans_fingerprint, validate_spans_for_source, Highlight, HighlightSpan,
};

fn runs(v: &[(&str, Highlight)]) -> Vec<(String, Highlight)> {
    v.iter().map(|(s, h)| (s.to_string(), *h)).collect()
}

fn span(start: usize, end: usize, highlight: Highlight) -> HighlightSpan {
    HighlightSpan { start, end, highlight }
}

#[test]
fn safe_slice_rejects_ill_formed_ranges() {
    assert_eq!(safe_slice("héllo", 0, 1), "h");
    assert_eq!(safe_slice("héllo", 1, 3), "é");
    assert_eq!(safe_slice("héllo", 1, 2), "");
    assert_eq!(safe_slice("héllo", 3, 2), "");
    assert_eq!(safe_slice("héllo", 0, 99), "");
}

#[test]
fn common_prefix_snaps_to_char_boundary() {
    assert_eq!(common_prefix_len("abcdef", "abcxyz"), 3);
    assert_eq!(common_prefix_len("", "abc"), 0);
    // 'é' is C3 A9 and 'è' is C3 A8: one shared byte, not a whole char.
    assert_eq!(common_prefix_len("aé", "aè"), 1);
}

#[test]
fn common_suffix_respects_prefix_and_boundaries() {
    assert_eq!(common_suffix_len("abcdef", "abXdef", 2), 3);
    // Without the prefix limit the whole text would match.
    assert_eq!(common_suffix_len("aaaa", "aaa", 3), 0);
    assert_eq!(common_suffix_len("xé", "yè", 0), 0);
}

#[test]
fn coverage_end_is_highest_end() {
    assert_eq!(coverage_end(&[]), 0);
    let spans = [span(0, 4, Highlight::Keyword), span(10, 12, Highlight::String), span(5, 7, Highlight::Comment)];
    assert_eq!(coverage_end(&spans), 12);
}

#[test]
fn validation_keeps_only_spans_valid_for_the_text() {
    let src = "let é = 1;";
    let spans = [
        span(0, 3, Highlight::Keyword),
        span(4, 5, Highlight::Variable),
        span(4, 6, Highlight::Variable),
        span(7, 7, Highlight::Operator),
        span(9, 40, Highlight::Number),
    ];
    assert_eq!(validate_spans_for_source(&spans, src), vec![spans[0], spans[2]]);
}

#[test]
fn remap_keeps_prefix_shifts_suffix_and_blanks_edited_line() {
    let old = "let a = 1;\nlet b = 2;\nlet c = 3;";
    let new = "let a = 1;\nlet bb = 2;\nlet c = 3;";
    let spans = [
        span(0, 3, Highlight::Keyword),
        span(11, 14, Highlight::Keyword),
        span(19, 20, Highlight::Number),
        span(22, 25, Highlight::Keyword),
    ];
    let out = remap_good_spans_across_edit(old, new, &spans);
    // Edited line 2 ([11, 22) in new coordinates) stays plain; line 3 moves by one.
    assert_eq!(out, vec![span(0, 3, Highlight::Keyword), span(23, 26, Highlight::Keyword)]);
}

#[test]
fn remap_splits_a_span_straddling_the_hole() {
    let old = "ab\ncd\nef";
    let new = "ab\ncX\nef";
    let spans = [span(0, 8, Highlight::Comment)];
    let out = remap_good_spans_across_edit(old, new, &spans);
    // The span overlaps the change in old coordinates, so it is dropped.
    assert!(out.is_empty());
    let spans = [span(0, 2, Highlight::Comment), span(6, 8, Highlight::String), span(1, 2, Highlight::Type)];
    let out = remap_good_spans_across_edit(old, new, &spans);
    assert_eq!(out, vec![span(0, 2, Highlight::Comment), span(1, 2, Highlight::Type), span(6, 8, Highlight::String)]);
}

#[test]
fn remap_trims_same_line_prefix_span_to_outside_the_hole() {
    let old = "abc def";
    let new = "abc dXf";
    let spans = [span(0, 3, Highlight::Keyword)];
    // The whole single line is the hole, so nothing survives.
    assert!(remap_good_spans_across_edit(old, new, &spans).is_empty());
}

#[test]
fn fingerprint_is_order_sensitive() {
    let a = [span(0, 1, Highlight::Keyword), span(2, 3, Highlight::String)];
    let b = [span(2, 3, Highlight::String), span(0, 1, Highlight::Keyword)];
    assert_ne!(spans_fingerprint(&a), spans_fingerprint(&b));
    assert_eq!(spans_fingerprint(&a), spans_fingerprint(&a));
    // Empty set: FNV-1a of the single value 0.
    assert_eq!(spans_fingerprint(&[]), (0xcbf29ce484222325u64 ^ 0).wrapping_mul(0x100000001b3));
}

#[test]
fn line_runs_color_only_covered_bytes() {
    let src = "let x = 1;";
    let spans = [span(0, 3, Highlight::Keyword), span(8, 9, Highlight::Number)];
    assert_eq!(
        line_runs(src, 0, src, &spans),
        runs(&[("let", Highlight::Keyword), (" x = ", Highlight::Plain), ("1", Highlight::Number), (";", Highlight::Plain)])
    );
    assert_eq!(line_runs("plain", 0, "plain", &[]), runs(&[("plain", Highlight::Plain)]));
}

#[test]
fn colorize_source_puts_newlines_between_lines() {
    let lines = vec!["ab".to_string(), "cd".to_string()];
    let spans = [span(0, 2, Highlight::String), span(3, 5, Highlight::Comment), span(4, 9, Highlight::Type)];
    assert_eq!(
        colorize_source_runs(&lines, &spans),
        runs(&[("ab", Highlight::String), ("\n", Highlight::Plain), ("cd", Highlight::Comment)])
    );
    let plain = vec!["a".to_string(), "b".to_string()];
    assert_eq!(
        colorize_source_runs(&plain, &[]),
        runs(&[("a", Highlight::Plain), ("\n", Highlight::Plain), ("b", Highlight::Plain)])
    );
    assert!(colorize_source_runs(&[], &[]).is_empty());
}

#[test]
fn colorize_window_rebases_spans() {
    let window = vec!["cd".to_string()];
    let spans = [span(0, 2, Highlight::String), span(3, 5, Highlight::Comment)];
    assert_eq!(
        colorize_window_runs(&window, 3, &spans),
        runs(&[("cd", Highlight::Comment)])
    );
    assert_eq!(rebase_spans_to_window(&spans, 1, 3), vec![span(0, 1, Highlight::String), span(2, 3, Highlight::Comment)]);
}
