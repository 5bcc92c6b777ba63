use zaroxi_interface_desktop::icons::{chevron, directory_icon, file_icon, glyph, glyph_prefix};

#[test]
fn extension_icons_resolve() {
    assert_eq!(file_icon("main.rs"), glyph::RUST);
    assert_eq!(file_icon("README.md"), glyph::MARKDOWN);
    assert_eq!(file_icon("config.yaml"), glyph::YAML);
    assert_eq!(file_icon("data.json"), glyph::JSON);
    assert_eq!(file_icon("script.sh"), glyph::SHELL);
    assert_eq!(file_icon("photo.PNG"), glyph::IMAGE);
    assert_eq!(file_icon("bundle.tar.gz"), glyph::ARCHIVE);
    assert_eq!(file_icon("app.tsx"), glyph::REACT);
    assert_eq!(file_icon("mod.cpp"), glyph::CPP);
}

#[test]
fn special_files_resolve_case_insensitively() {
    assert_eq!(file_icon("Cargo.toml"), glyph::RUST);
    assert_eq!(file_icon("cargo.lock"), glyph::RUST);
    assert_eq!(file_icon(".gitignore"), glyph::GIT);
    assert_eq!(file_icon("flake.nix"), glyph::NIX);
    assert_eq!(file_icon(".envrc"), glyph::CONFIG);
    assert_eq!(file_icon("README"), glyph::MARKDOWN);
}

#[test]
fn unknown_and_extensionless_fall_back_to_generic_file() {
    assert_eq!(file_icon("mystery.qwerty"), glyph::FILE);
    assert_eq!(file_icon("LICENSE"), glyph::FILE);
    assert_eq!(file_icon("noext"), glyph::FILE);
}

#[test]
fn glyph_prefix_aligns_file_icon_column_with_directories() {
    let dir = glyph_prefix(true, false, "src");
    let mut dir_chars = dir.chars();
    assert_eq!(dir_chars.next(), Some(glyph::CHEVRON_COLLAPSED));
    assert_eq!(dir_chars.next(), Some(' '));
    assert_eq!(dir_chars.next(), Some(glyph::FOLDER));

    let file = glyph_prefix(false, false, "main.rs");
    let mut file_chars = file.chars();
    assert_eq!(file_chars.next(), Some(' '));
    assert_eq!(file_chars.next(), Some(' '));
    assert_eq!(file_chars.next(), Some(glyph::RUST));
}

#[test]
fn directory_glyphs_follow_expansion() {
    assert_eq!(directory_icon(true), glyph::FOLDER_OPEN);
    assert_eq!(directory_icon(false), glyph::FOLDER);
    assert_eq!(chevron(true), glyph::CHEVRON_EXPANDED);
    assert_eq!(chevron(false), glyph::CHEVRON_COLLAPSED);
    assert_eq!(glyph_prefix(true, true, "x"), "\u{25BC} \u{f07c}");
}

#[test]
fn dotted_names_use_their_last_extension() {
    assert_eq!(file_icon("archive.TAR.ZST"), glyph::ARCHIVE);
    assert_eq!(file_icon(".bashrc.sh"), glyph::SHELL);
    assert_eq!(file_icon("trailing."), glyph::FILE);
    assert_eq!(file_icon("Cargo.lock"), glyph::RUST);
    assert_eq!(file_icon("other.lock"), glyph::LOCK);
}
