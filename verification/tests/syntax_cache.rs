use zaroxi_interface_desktop::syntax_cache::{colorize_source_incremental, LineSyntaxCache};
use zaroxi_interface_desktop::syntax_spans::{colorize_source_runs, spans_fingerprint, Highlight, HighlightSpan};

fn lines(v: &[&str]) -> Vec<String> {
    v.iter().map(|s| s.to_string()).collect()
}

#[test]
fn incremental_colorizing_matches_a_full_pass_and_reuses_the_cache() {
    let ls = lines(&["ab", "cd"]);
    let spans = [HighlightSpan { start: 3, end: 5, highlight: Highlight::Comment }];
    let mut cache = LineSyntaxCache::new();
    let first = colorize_source_incremental(&ls, &spans, &mut cache, &[7, 9], &[0, 0]);
    assert_eq!(first, colorize_source_runs(&ls, &spans));
    let fp = spans_fingerprint(&spans);
    assert!(cache.get(0, 7 ^ fp).is_some());
    assert!(cache.get(1, 9 ^ fp).is_some());

    // Unchanged hashes reuse the cached runs.
    let second = colorize_source_incremental(&ls, &spans, &mut cache, &[7, 9], &[7, 9]);
    assert_eq!(second, first);

    // A cached entry is what a reused line shows.
    cache.insert(0, 7 ^ fp, vec![("AB".to_string(), Highlight::Keyword)]);
    let third = colorize_source_incremental(&ls, &spans, &mut cache, &[7, 9], &[7, 9]);
    assert_eq!(third[0], ("AB".to_string(), Highlight::Keyword));
    // A changed hash colors the line afresh.
    let fourth = colorize_source_incremental(&ls, &spans, &mut cache, &[8, 9], &[7, 9]);
    assert_eq!(fourth, first);
}
