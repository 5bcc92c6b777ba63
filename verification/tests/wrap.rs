use zaroxi_interface_desktop::wrap::{plan_line_wrap, wrap_text, wrapped_caret_subrow_col};

fn wrapped_rows(line: &str, cpr: usize) -> Vec<String> {
    let mut v2l = Vec::new();
    let mut tv = 0usize;
    let out = wrap_text(line, cpr, &mut v2l, 0, &mut tv);
    assert_eq!(v2l.len(), tv);
    out.split('\n').map(|s| s.to_string()).collect()
}

#[test]
fn wraps_at_space_before_breaking_a_word() {
    let rows = wrapped_rows("hello world foo", 8);
    assert_eq!(rows, vec!["hello ", "world ", "foo"]);
    for r in &rows {
        assert!(r.chars().count() <= 8, "row {r:?} exceeds width");
    }
}

#[test]
fn falls_back_to_char_break_only_for_oversized_token() {
    let rows = wrapped_rows("supercalifragilistic", 8);
    assert_eq!(rows, vec!["supercal", "ifragili", "stic"]);
    for r in &rows {
        assert!(r.chars().count() <= 8);
    }
}

#[test]
fn breaks_after_soft_separators_in_paths() {
    let rows = wrapped_rows("aaa/bbb/ccc", 5);
    assert_eq!(rows, vec!["aaa/", "bbb/", "ccc"]);
}

#[test]
fn snake_and_kebab_break_at_underscore_and_hyphen() {
    assert_eq!(wrapped_rows("alpha_beta_gamma", 7), vec!["alpha_", "beta_", "gamma"]);
    assert_eq!(wrapped_rows("one-two-three", 5), vec!["one-", "two-", "three"]);
}

#[test]
fn short_line_is_not_wrapped() {
    assert_eq!(wrapped_rows("fn main() {}", 80), vec!["fn main() {}"]);
}

#[test]
fn continuation_rows_stay_within_wrap_width() {
    let src = "The quick brown fox jumps over the lazy dog near the riverbank.";
    let cpr = 20;
    let rows = wrapped_rows(src, cpr);
    for r in &rows {
        assert!(r.chars().count() <= cpr, "row {r:?} exceeds {cpr}");
    }
    assert_eq!(rows.join(""), src);
}

#[test]
fn caret_subrow_tracks_word_wrapped_rows() {
    let line = "hello world foo";
    assert_eq!(wrapped_caret_subrow_col(line, 8, 0), (0, 0));
    assert_eq!(wrapped_caret_subrow_col(line, 8, 6), (1, 0));
    assert_eq!(wrapped_caret_subrow_col(line, 8, 8), (1, 2));
    assert_eq!(wrapped_caret_subrow_col(line, 8, 12), (2, 0));
    assert_eq!(wrapped_caret_subrow_col(line, 8, 15), (2, 3));
}

#[test]
fn caret_subrow_zero_when_not_wrapping() {
    assert_eq!(wrapped_caret_subrow_col("anything", 0, 5), (0, 5));
}

#[test]
fn multi_line_text_records_logical_line_of_each_row() {
    let mut v2l = vec![9usize];
    let mut tv = 1usize;
    let out = wrap_text("ab cd\nx", 3, &mut v2l, 4, &mut tv);
    assert_eq!(out, "ab \ncd\nx");
    assert_eq!(v2l, vec![9, 4, 4, 5]);
    assert_eq!(tv, 4);
}

#[test]
fn plan_of_empty_line_is_one_empty_row() {
    assert_eq!(plan_line_wrap("", 4), vec![(0, 0)]);
    assert_eq!(plan_line_wrap("abcdef", 4), vec![(0, 0), (4, 4)]);
    assert_eq!(plan_line_wrap("ab cd", 3), vec![(0, 0), (3, 3)]);
}
