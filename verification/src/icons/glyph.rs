//! Glyph code points of the file tree (Nerd Font icons and geometric
//! disclosure triangles); swapping the icon set means editing only these.
use vstd::prelude::*;

verus! {

/// Expanded directory disclosure (a one-cell down triangle).
pub const CHEVRON_EXPANDED: char = '\u{25BC}';

/// Collapsed directory disclosure (a one-cell right triangle).
pub const CHEVRON_COLLAPSED: char = '\u{25B6}';

/// Closed directory.
pub const FOLDER: char = '\u{f07b}';

/// Open directory.
pub const FOLDER_OPEN: char = '\u{f07c}';

/// Magnifying glass for the search box.
pub const SEARCH: char = '\u{f002}';

/// Generic file.
pub const FILE: char = '\u{f15b}';

/// Source fallback.
pub const CODE: char = '\u{f121}';

/// Configuration fallback.
pub const CONFIG: char = '\u{f013}';

/// Plain-text and documentation fallback.
pub const TEXT: char = '\u{f15c}';

/// Image and media fallback.
pub const IMAGE: char = '\u{f1c5}';

/// Archive and binary fallback.
pub const ARCHIVE: char = '\u{f1c6}';

/// Rust.
pub const RUST: char = '\u{e7a8}';

/// Git.
pub const GIT: char = '\u{e702}';

/// Nix.
pub const NIX: char = '\u{f313}';

/// Markdown.
pub const MARKDOWN: char = '\u{f48a}';

/// JSON.
pub const JSON: char = '\u{e60b}';

/// YAML and TOML.
pub const YAML: char = '\u{e615}';

/// Lock files.
pub const LOCK: char = '\u{f023}';

/// Shell scripts.
pub const SHELL: char = '\u{f489}';

/// JavaScript.
pub const JAVASCRIPT: char = '\u{e74e}';

/// TypeScript.
pub const TYPESCRIPT: char = '\u{e628}';

/// JSX and TSX.
pub const REACT: char = '\u{e7ba}';

/// HTML.
pub const HTML: char = '\u{e736}';

/// CSS.
pub const CSS: char = '\u{e749}';

/// Sass.
pub const SASS: char = '\u{e74b}';

/// Python.
pub const PYTHON: char = '\u{e73c}';

/// Go.
pub const GO: char = '\u{e724}';

/// Java and Kotlin.
pub const JAVA: char = '\u{e738}';

/// C.
pub const C: char = '\u{e61e}';

/// C++.
pub const CPP: char = '\u{e61d}';

/// PDF.
pub const PDF: char = '\u{f1c1}';

/// npm.
pub const NPM: char = '\u{e71e}';

/// Docker.
pub const DOCKER: char = '\u{f308}';

} // verus!
