use zaroxi_interface_desktop::render_state::{
    compute_lines_hash, compute_per_line_hashes, editor_cache_key, editor_cache_valid,
    editor_render_owner_key, should_use_editor_cache,
};

#[test]
fn owner_key_distinguishes_files_sources_and_normalizes_prefix() {
    assert_ne!(
        editor_render_owner_key(Some("/a.rs"), false),
        editor_render_owner_key(Some("/b.rs"), false),
    );
    assert_ne!(
        editor_render_owner_key(Some("/a.rs"), false),
        editor_render_owner_key(Some("/a.rs"), true),
    );
    assert_eq!(
        editor_render_owner_key(Some("buf:/a.rs"), false),
        editor_render_owner_key(Some("/a.rs"), false),
    );
}

#[test]
fn owner_key_exact_text() {
    assert_eq!(editor_render_owner_key(Some("buf:/a.rs"), true), "/a.rs\u{1}large");
    assert_eq!(editor_render_owner_key(None, false), "<none>\u{1}rope");
}

fn lines(v: &[&str]) -> Vec<String> {
    v.iter().map(|s| s.to_string()).collect()
}

fn key_for(ls: &[String], owner: Option<&str>, generation: u64) -> u64 {
    let h = compute_lines_hash(Some(ls));
    editor_cache_key(h, Some((0, ls.len())), false, 1, owner, generation)
}

#[test]
fn same_geometry_different_file_forces_rebuild() {
    let ls = lines(&["fn main() {}", "// same shape"]);
    let key_a = key_for(&ls, Some("/a.rs"), 0);
    let key_a2 = key_for(&ls, Some("/a.rs"), 0);
    assert_eq!(key_a, key_a2, "same file + geometry must reuse");
    let key_b = key_for(&ls, Some("/b.rs"), 0);
    assert_ne!(key_a, key_b, "different file with same geometry must rebuild");
}

#[test]
fn content_generation_bump_forces_rebuild_same_path() {
    let ls = lines(&["x"]);
    let k0 = key_for(&ls, Some("/a.rs"), 0);
    let k1 = key_for(&ls, Some("/a.rs"), 1);
    assert_ne!(k0, k1, "content_generation epoch must invalidate the cache key");
}

#[test]
fn same_path_same_epoch_reuses() {
    let ls = lines(&["a", "b", "c"]);
    let k0 = key_for(&ls, Some("/a.rs"), 3);
    let k1 = key_for(&ls, Some("/a.rs"), 3);
    assert_eq!(k0, k1, "same path + same epoch must reuse the payload");
    assert!(editor_cache_valid(k1, k0, 2, 2));
    assert!(!editor_cache_valid(k1, k0, 2, 3));
}

#[test]
fn lines_hash_is_polynomial_over_byte_lengths() {
    assert_eq!(compute_lines_hash(None), 0);
    let ls = lines(&["ab", "", "é"]);
    // ((0*31 + 2)*31 + 0)*31 + 2
    assert_eq!(compute_lines_hash(Some(&ls)), (2 * 31) * 31 + 2);
}

#[test]
fn per_line_hashes_are_fnv1a() {
    assert!(compute_per_line_hashes(None).is_empty());
    let ls = lines(&["", "a"]);
    let h = compute_per_line_hashes(Some(&ls));
    assert_eq!(h, vec![0xcbf29ce484222325, 0xaf63dc4c8601ec8c]);
}

#[test]
fn cache_is_used_only_for_nonzero_matching_hash() {
    assert!(should_use_editor_cache(5, 5));
    assert!(!should_use_editor_cache(0, 0));
    assert!(!should_use_editor_cache(5, 6));
}

#[test]
fn cache_key_folds_large_file_version() {
    let ls = lines(&["a"]);
    let h = compute_lines_hash(Some(&ls));
    let k1 = editor_cache_key(h, None, true, 1, Some("/a.rs"), 0);
    let k2 = editor_cache_key(h, None, true, 2, Some("/a.rs"), 0);
    assert_ne!(k1, k2);
    let r1 = editor_cache_key(h, None, false, 1, Some("/a.rs"), 0);
    let r2 = editor_cache_key(h, None, false, 2, Some("/a.rs"), 0);
    assert_eq!(r1, r2);
}

#[test]
fn buffer_prefix_keeps_the_cache_key() {
    let ls = lines(&["x"]);
    assert_eq!(key_for(&ls, Some("buf:/a.rs"), 3), key_for(&ls, Some("/a.rs"), 3));
}
