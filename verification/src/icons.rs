//! Explorer row iconography: the disclosure chevron of directories and a
//! type icon for files, chosen by special file name, then extension, then the
//! generic file glyph; matching ignores ASCII case.
use vstd::prelude::*;
use crate::text::{after_last_of, after_last_of_exec, chars_eq_str, chars_of, string_from_chars, sub_chars, lemma_after_last_of_bounds};

pub mod glyph;

verus! {

/// Directory icon: open when expanded.
pub fn directory_icon(expanded: bool) -> (c: char)
    ensures
        c == (if expanded { glyph::FOLDER_OPEN } else { glyph::FOLDER }),
{
    if expanded {
        glyph::FOLDER_OPEN
    } else {
        glyph::FOLDER
    }
}

/// Disclosure chevron of a directory.
pub fn chevron(expanded: bool) -> (c: char)
    ensures
        c == (if expanded { glyph::CHEVRON_EXPANDED } else { glyph::CHEVRON_COLLAPSED }),
{
    if expanded {
        glyph::CHEVRON_EXPANDED
    } else {
        glyph::CHEVRON_COLLAPSED
    }
}

/// ASCII lower case of `c`; other characters are unchanged.
pub open spec fn ascii_lower(c: char) -> char {
    if 'A' <= c <= 'Z' {
        ((c as int) + 32) as char
    } else {
        c
    }
}

/// ASCII lower case of every character of `s`.
pub open spec fn lower(s: Seq<char>) -> Seq<char> {
    s.map_values(|c: char| ascii_lower(c))
}

fn to_ascii_lower(s: &str) -> (r: Vec<char>)
    ensures
        r@ == lower(s@),
{
    let v = chars_of(s);
    let mut r: Vec<char> = Vec::with_capacity(v.len());
    let mut i: usize = 0;
    while i < v.len()
        invariant
            i <= v@.len(),
            r@ == lower(v@.take(i as int)),
        decreases v@.len() - i,
    {
        let c = v[i];
        let l = if 'A' <= c && c <= 'Z' {
            ((c as u8) + 32) as char
        } else {
            c
        };
        r.push(l);
        proof {
            assert(lower(v@.take(i + 1)) =~= lower(v@.take(i as int)).push(ascii_lower(c)));
        }
        i += 1;
    }
    proof {
        assert(v@.take(v@.len() as int) =~= v@);
    }
    r
}

/// Icon of a special file, by its whole lower-case name.
pub open spec fn special_file_icon(n: Seq<char>) -> Option<char> {
    if n == "cargo.toml"@ || n == "cargo.lock"@ {
        Some(glyph::RUST)
    } else if n == ".gitignore"@ || n == ".gitattributes"@ || n == ".gitmodules"@ || n == ".gitconfig"@ {
        Some(glyph::GIT)
    } else if n == "flake.nix"@ || n == "flake.lock"@ || n == "shell.nix"@ || n == "default.nix"@ {
        Some(glyph::NIX)
    } else if n == "package.json"@ || n == "package-lock.json"@ || n == ".npmrc"@ {
        Some(glyph::NPM)
    } else if n == "dockerfile"@ || n == ".dockerignore"@ || n == "docker-compose.yml"@ || n == "docker-compose.yaml"@ {
        Some(glyph::DOCKER)
    } else if n == "readme"@ || n == "readme.md"@ || n == "readme.txt"@ {
        Some(glyph::MARKDOWN)
    } else if n == ".envrc"@ || n == ".env"@ || n == "makefile"@ || n == "justfile"@ || n == ".editorconfig"@ {
        Some(glyph::CONFIG)
    } else {
        None
    }
}

/// Icon of a file extension (lower case).
pub open spec fn extension_icon(n: Seq<char>) -> Option<char> {
    if n == "rs"@ {
        Some(glyph::RUST)
    } else if n == "toml"@ {
        Some(glyph::YAML)
    } else if n == "md"@ || n == "markdown"@ {
        Some(glyph::MARKDOWN)
    } else if n == "txt"@ || n == "text"@ {
        Some(glyph::TEXT)
    } else if n == "json"@ || n == "jsonc"@ {
        Some(glyph::JSON)
    } else if n == "yaml"@ || n == "yml"@ {
        Some(glyph::YAML)
    } else if n == "nix"@ {
        Some(glyph::NIX)
    } else if n == "lock"@ {
        Some(glyph::LOCK)
    } else if n == "sh"@ || n == "bash"@ || n == "zsh"@ || n == "fish"@ {
        Some(glyph::SHELL)
    } else if n == "js"@ || n == "mjs"@ || n == "cjs"@ {
        Some(glyph::JAVASCRIPT)
    } else if n == "ts"@ {
        Some(glyph::TYPESCRIPT)
    } else if n == "jsx"@ || n == "tsx"@ {
        Some(glyph::REACT)
    } else if n == "html"@ || n == "htm"@ {
        Some(glyph::HTML)
    } else if n == "css"@ {
        Some(glyph::CSS)
    } else if n == "scss"@ || n == "sass"@ {
        Some(glyph::SASS)
    } else if n == "py"@ || n == "pyi"@ || n == "pyw"@ {
        Some(glyph::PYTHON)
    } else if n == "go"@ {
        Some(glyph::GO)
    } else if n == "java"@ || n == "kt"@ || n == "kts"@ {
        Some(glyph::JAVA)
    } else if n == "c"@ || n == "h"@ {
        Some(glyph::C)
    } else if n == "cpp"@ || n == "cc"@ || n == "cxx"@ || n == "hpp"@ || n == "hh"@ || n == "hxx"@ {
        Some(glyph::CPP)
    } else if n == "svg"@ || n == "png"@ || n == "jpg"@ || n == "jpeg"@ || n == "webp"@ || n == "gif"@ || n == "bmp"@ || n == "ico"@ {
        Some(glyph::IMAGE)
    } else if n == "pdf"@ {
        Some(glyph::PDF)
    } else if n == "zip"@ || n == "tar"@ || n == "gz"@ || n == "tgz"@ || n == "xz"@ || n == "bz2"@ || n == "7z"@ || n == "rar"@ || n == "zst"@ {
        Some(glyph::ARCHIVE)
    } else {
        None
    }
}

/// Whether `n` holds a `.`.
pub open spec fn has_dot(n: Seq<char>) -> bool {
    exists|i: int| 0 <= i < n.len() && n[i] == '.'
}

/// What follows the last `.` of `n`.
pub open spec fn after_last_dot(n: Seq<char>) -> Seq<char> {
    n.subrange(after_last_of(n, '.', '.'), n.len() as int)
}

/// Icon of a file by name: special name, then extension, then the generic
/// file glyph.
pub open spec fn file_icon_spec(name: Seq<char>) -> char {
    let l = lower(name);
    match special_file_icon(l) {
        Some(c) => c,
        None => if has_dot(l) {
            match extension_icon(after_last_dot(l)) {
                Some(c) => c,
                None => glyph::FILE,
            }
        } else {
            glyph::FILE
        },
    }
}

/// Table lookup of `special_file_icon`.
fn special_icon_of(n: &[char]) -> (r: Option<char>)
    ensures
        r == special_file_icon(n@),
{
    if chars_eq_str(n, "cargo.toml") || chars_eq_str(n, "cargo.lock") {
        return Some(glyph::RUST);
    }
    if chars_eq_str(n, ".gitignore") || chars_eq_str(n, ".gitattributes") || chars_eq_str(n, ".gitmodules") || chars_eq_str(n, ".gitconfig") {
        return Some(glyph::GIT);
    }
    if chars_eq_str(n, "flake.nix") || chars_eq_str(n, "flake.lock") || chars_eq_str(n, "shell.nix") || chars_eq_str(n, "default.nix") {
        return Some(glyph::NIX);
    }
    if chars_eq_str(n, "package.json") || chars_eq_str(n, "package-lock.json") || chars_eq_str(n, ".npmrc") {
        return Some(glyph::NPM);
    }
    if chars_eq_str(n, "dockerfile") || chars_eq_str(n, ".dockerignore") || chars_eq_str(n, "docker-compose.yml") || chars_eq_str(n, "docker-compose.yaml") {
        return Some(glyph::DOCKER);
    }
    if chars_eq_str(n, "readme") || chars_eq_str(n, "readme.md") || chars_eq_str(n, "readme.txt") {
        return Some(glyph::MARKDOWN);
    }
    if chars_eq_str(n, ".envrc") || chars_eq_str(n, ".env") || chars_eq_str(n, "makefile") || chars_eq_str(n, "justfile") || chars_eq_str(n, ".editorconfig") {
        return Some(glyph::CONFIG);
    }
    None
}

/// Table lookup of `extension_icon`.
fn extension_icon_of(n: &[char]) -> (r: Option<char>)
    ensures
        r == extension_icon(n@),
{
    if chars_eq_str(n, "rs") {
        return Some(glyph::RUST);
    }
    if chars_eq_str(n, "toml") {
        return Some(glyph::YAML);
    }
    if chars_eq_str(n, "md") || chars_eq_str(n, "markdown") {
        return Some(glyph::MARKDOWN);
    }
    if chars_eq_str(n, "txt") || chars_eq_str(n, "text") {
        return Some(glyph::TEXT);
    }
    if chars_eq_str(n, "json") || chars_eq_str(n, "jsonc") {
        return Some(glyph::JSON);
    }
    if chars_eq_str(n, "yaml") || chars_eq_str(n, "yml") {
        return Some(glyph::YAML);
    }
    if chars_eq_str(n, "nix") {
        return Some(glyph::NIX);
    }
    if chars_eq_str(n, "lock") {
        return Some(glyph::LOCK);
    }
    if chars_eq_str(n, "sh") || chars_eq_str(n, "bash") || chars_eq_str(n, "zsh") || chars_eq_str(n, "fish") {
        return Some(glyph::SHELL);
    }
    if chars_eq_str(n, "js") || chars_eq_str(n, "mjs") || chars_eq_str(n, "cjs") {
        return Some(glyph::JAVASCRIPT);
    }
    if chars_eq_str(n, "ts") {
        return Some(glyph::TYPESCRIPT);
    }
    if chars_eq_str(n, "jsx") || chars_eq_str(n, "tsx") {
        return Some(glyph::REACT);
    }
    if chars_eq_str(n, "html") || chars_eq_str(n, "htm") {
        return Some(glyph::HTML);
    }
    if chars_eq_str(n, "css") {
        return Some(glyph::CSS);
    }
    if chars_eq_str(n, "scss") || chars_eq_str(n, "sass") {
        return Some(glyph::SASS);
    }
    if chars_eq_str(n, "py") || chars_eq_str(n, "pyi") || chars_eq_str(n, "pyw") {
        return Some(glyph::PYTHON);
    }
    if chars_eq_str(n, "go") {
        return Some(glyph::GO);
    }
    if chars_eq_str(n, "java") || chars_eq_str(n, "kt") || chars_eq_str(n, "kts") {
        return Some(glyph::JAVA);
    }
    if chars_eq_str(n, "c") || chars_eq_str(n, "h") {
        return Some(glyph::C);
    }
    if chars_eq_str(n, "cpp") || chars_eq_str(n, "cc") || chars_eq_str(n, "cxx") || chars_eq_str(n, "hpp") || chars_eq_str(n, "hh") || chars_eq_str(n, "hxx") {
        return Some(glyph::CPP);
    }
    if chars_eq_str(n, "svg") || chars_eq_str(n, "png") || chars_eq_str(n, "jpg") || chars_eq_str(n, "jpeg") || chars_eq_str(n, "webp") || chars_eq_str(n, "gif") || chars_eq_str(n, "bmp") || chars_eq_str(n, "ico") {
        return Some(glyph::IMAGE);
    }
    if chars_eq_str(n, "pdf") {
        return Some(glyph::PDF);
    }
    if chars_eq_str(n, "zip") || chars_eq_str(n, "tar") || chars_eq_str(n, "gz") || chars_eq_str(n, "tgz") || chars_eq_str(n, "xz") || chars_eq_str(n, "bz2") || chars_eq_str(n, "7z") || chars_eq_str(n, "rar") || chars_eq_str(n, "zst") {
        return Some(glyph::ARCHIVE);
    }
    None
}

/// Type icon of a file by name, ignoring ASCII case: exact special name, then
/// extension, then the generic file glyph.
pub fn file_icon(name: &str) -> (c: char)
    ensures
        c == file_icon_spec(name@),
{
    let l = to_ascii_lower(name);
    match special_icon_of(l.as_slice()) {
        Some(c) => {
            return c;
        },
        None => {},
    }
    let k = after_last_of_exec(l.as_slice(), '.', '.');
    proof {
        lemma_after_last_of_bounds(l@, '.', '.');
    }
    if k == 0 {
        proof {
            assert(!has_dot(l@));
        }
        return glyph::FILE;
    }
    proof {
        assert(l@[k - 1] == '.');
        assert(has_dot(l@));
    }
    let e = sub_chars(l.as_slice(), k, l.len());
    match extension_icon_of(e.as_slice()) {
        Some(c) => c,
        None => glyph::FILE,
    }
}

/// Disclosure and type-icon column of a tree row: chevron, space and folder
/// for directories; two spaces and the type icon for files, so both icons sit
/// at the same column.
pub open spec fn glyph_prefix_spec(is_dir: bool, expanded: bool, name: Seq<char>) -> Seq<char> {
    if is_dir {
        seq![
            if expanded { glyph::CHEVRON_EXPANDED } else { glyph::CHEVRON_COLLAPSED },
            ' ',
            if expanded { glyph::FOLDER_OPEN } else { glyph::FOLDER },
        ]
    } else {
        seq![' ', ' ', file_icon_spec(name)]
    }
}

/// The glyph column text of a tree row.
pub fn glyph_prefix(is_dir: bool, expanded: bool, name: &str) -> (s: String)
    ensures
        s@ == glyph_prefix_spec(is_dir, expanded, name@),
{
    let mut v: Vec<char> = Vec::with_capacity(3);
    if is_dir {
        v.push(chevron(expanded));
        v.push(' ');
        v.push(directory_icon(expanded));
    } else {
        v.push(' ');
        v.push(' ');
        v.push(file_icon(name));
    }
    proof {
        assert(v@ =~= glyph_prefix_spec(is_dir, expanded, name@));
    }
    string_from_chars(v.as_slice())
}

/// Law: the type icon of a file sits at the same column (the third
/// character) as the folder icon of a directory.
pub proof fn law_icon_column_aligned(expanded: bool, name: Seq<char>)
    ensures
        glyph_prefix_spec(true, expanded, name).len() == 3,
        glyph_prefix_spec(false, expanded, name).len() == 3,
        glyph_prefix_spec(true, expanded, name)[2] == (if expanded { glyph::FOLDER_OPEN } else { glyph::FOLDER }),
        glyph_prefix_spec(false, expanded, name)[2] == file_icon_spec(name),
{
}

proof fn lemma_dot_ext(stem: Seq<char>, x: Seq<char>)
    requires
        forall|i: int| 0 <= i < x.len() ==> x[i] != '.',
    ensures
        after_last_of(stem + seq!['.'] + x, '.', '.') == stem.len() + 1,
        after_last_dot(stem + seq!['.'] + x) == x,
        has_dot(stem + seq!['.'] + x),
    decreases x.len(),
{
    let s = stem + seq!['.'] + x;
    if x.len() > 0 {
        assert(s.drop_last() =~= stem + seq!['.'] + x.drop_last());
        assert(s.last() == x[x.len() - 1]);
        lemma_dot_ext(stem, x.drop_last());
    } else {
        assert(s.last() == '.');
    }
    assert(s.subrange(stem.len() as int + 1, s.len() as int) =~= x);
    assert(s[stem.len() as int] == '.');
}

/// Law: a file that is no special file gets its icon from the extension
/// after its last `.`, compared in lower case, by a fixed table: each
/// language or kind of file has its own glyph (a `.py` file the Python
/// glyph, a `.go` file the Go glyph, ...), and an unknown extension the
/// generic file glyph.
pub proof fn law_icon_by_extension(stem: Seq<char>, ext: Seq<char>)
    requires
        forall|i: int| 0 <= i < ext.len() ==> ext[i] != '.',
        special_file_icon(lower(stem + seq!['.'] + ext)) is None,
    ensures
        (lower(ext) == seq!['r', 's']) ==> file_icon_spec(stem + seq!['.'] + ext) == glyph::RUST,
        (lower(ext) == seq!['t', 'o', 'm', 'l']) ==> file_icon_spec(stem + seq!['.'] + ext) == glyph::YAML,
        (lower(ext) == seq!['m', 'd'] || lower(ext) == seq!['m', 'a', 'r', 'k', 'd', 'o', 'w', 'n']) ==> file_icon_spec(stem + seq!['.'] + ext) == glyph::MARKDOWN,
        (lower(ext) == seq!['t', 'x', 't'] || lower(ext) == seq!['t', 'e', 'x', 't']) ==> file_icon_spec(stem + seq!['.'] + ext) == glyph::TEXT,
        (lower(ext) == seq!['j', 's', 'o', 'n'] || lower(ext) == seq!['j', 's', 'o', 'n', 'c']) ==> file_icon_spec(stem + seq!['.'] + ext) == glyph::JSON,
        (lower(ext) == seq!['y', 'a', 'm', 'l'] || lower(ext) == seq!['y', 'm', 'l']) ==> file_icon_spec(stem + seq!['.'] + ext) == glyph::YAML,
        (lower(ext) == seq!['n', 'i', 'x']) ==> file_icon_spec(stem + seq!['.'] + ext) == glyph::NIX,
        (lower(ext) == seq!['l', 'o', 'c', 'k']) ==> file_icon_spec(stem + seq!['.'] + ext) == glyph::LOCK,
        (lower(ext) == seq!['s', 'h'] || lower(ext) == seq!['b', 'a', 's', 'h'] || lower(ext) == seq!['z', 's', 'h'] || lower(ext) == seq!['f', 'i', 's', 'h']) ==> file_icon_spec(stem + seq!['.'] + ext) == glyph::SHELL,
        (lower(ext) == seq!['j', 's'] || lower(ext) == seq!['m', 'j', 's'] || lower(ext) == seq!['c', 'j', 's']) ==> file_icon_spec(stem + seq!['.'] + ext) == glyph::JAVASCRIPT,
        (lower(ext) == seq!['t', 's']) ==> file_icon_spec(stem + seq!['.'] + ext) == glyph::TYPESCRIPT,
        (lower(ext) == seq!['j', 's', 'x'] || lower(ext) == seq!['t', 's', 'x']) ==> file_icon_spec(stem + seq!['.'] + ext) == glyph::REACT,
        (lower(ext) == seq!['h', 't', 'm', 'l'] || lower(ext) == seq!['h', 't', 'm']) ==> file_icon_spec(stem + seq!['.'] + ext) == glyph::HTML,
        (lower(ext) == seq!['c', 's', 's']) ==> file_icon_spec(stem + seq!['.'] + ext) == glyph::CSS,
        (lower(ext) == seq!['s', 'c', 's', 's'] || lower(ext) == seq!['s', 'a', 's', 's']) ==> file_icon_spec(stem + seq!['.'] + ext) == glyph::SASS,
        (lower(ext) == seq!['p', 'y'] || lower(ext) == seq!['p', 'y', 'i'] || lower(ext) == seq!['p', 'y', 'w']) ==> file_icon_spec(stem + seq!['.'] + ext) == glyph::PYTHON,
        (lower(ext) == seq!['g', 'o']) ==> file_icon_spec(stem + seq!['.'] + ext) == glyph::GO,
        (lower(ext) == seq!['j', 'a', 'v', 'a'] || lower(ext) == seq!['k', 't'] || lower(ext) == seq!['k', 't', 's']) ==> file_icon_spec(stem + seq!['.'] + ext) == glyph::JAVA,
        (lower(ext) == seq!['c'] || lower(ext) == seq!['h']) ==> file_icon_spec(stem + seq!['.'] + ext) == glyph::C,
        (lower(ext) == seq!['c', 'p', 'p'] || lower(ext) == seq!['c', 'c'] || lower(ext) == seq!['c', 'x', 'x'] || lower(ext) == seq!['h', 'p', 'p'] || lower(ext) == seq!['h', 'h'] || lower(ext) == seq!['h', 'x', 'x']) ==> file_icon_spec(stem + seq!['.'] + ext) == glyph::CPP,
        (lower(ext) == seq!['s', 'v', 'g'] || lower(ext) == seq!['p', 'n', 'g'] || lower(ext) == seq!['j', 'p', 'g'] || lower(ext) == seq!['j', 'p', 'e', 'g'] || lower(ext) == seq!['w', 'e', 'b', 'p'] || lower(ext) == seq!['g', 'i', 'f'] || lower(ext) == seq!['b', 'm', 'p'] || lower(ext) == seq!['i', 'c', 'o']) ==> file_icon_spec(stem + seq!['.'] + ext) == glyph::IMAGE,
        (lower(ext) == seq!['p', 'd', 'f']) ==> file_icon_spec(stem + seq!['.'] + ext) == glyph::PDF,
        (lower(ext) == seq!['z', 'i', 'p'] || lower(ext) == seq!['t', 'a', 'r'] || lower(ext) == seq!['g', 'z'] || lower(ext) == seq!['t', 'g', 'z'] || lower(ext) == seq!['x', 'z'] || lower(ext) == seq!['b', 'z', '2'] || lower(ext) == seq!['7', 'z'] || lower(ext) == seq!['r', 'a', 'r'] || lower(ext) == seq!['z', 's', 't']) ==> file_icon_spec(stem + seq!['.'] + ext) == glyph::ARCHIVE,
        (lower(ext) != seq!['r', 's'] && lower(ext) != seq!['t', 'o', 'm', 'l'] && lower(ext) != seq!['m', 'd'] && lower(ext) != seq!['m', 'a', 'r', 'k', 'd', 'o', 'w', 'n'] && lower(ext) != seq!['t', 'x', 't'] && lower(ext) != seq!['t', 'e', 'x', 't'] && lower(ext) != seq!['j', 's', 'o', 'n'] && lower(ext) != seq!['j', 's', 'o', 'n', 'c'] && lower(ext) != seq!['y', 'a', 'm', 'l'] && lower(ext) != seq!['y', 'm', 'l'] && lower(ext) != seq!['n', 'i', 'x'] && lower(ext) != seq!['l', 'o', 'c', 'k'] && lower(ext) != seq!['s', 'h'] && lower(ext) != seq!['b', 'a', 's', 'h'] && lower(ext) != seq!['z', 's', 'h'] && lower(ext) != seq!['f', 'i', 's', 'h'] && lower(ext) != seq!['j', 's'] && lower(ext) != seq!['m', 'j', 's'] && lower(ext) != seq!['c', 'j', 's'] && lower(ext) != seq!['t', 's'] && lower(ext) != seq!['j', 's', 'x'] && lower(ext) != seq!['t', 's', 'x'] && lower(ext) != seq!['h', 't', 'm', 'l'] && lower(ext) != seq!['h', 't', 'm'] && lower(ext) != seq!['c', 's', 's'] && lower(ext) != seq!['s', 'c', 's', 's'] && lower(ext) != seq!['s', 'a', 's', 's'] && lower(ext) != seq!['p', 'y'] && lower(ext) != seq!['p', 'y', 'i'] && lower(ext) != seq!['p', 'y', 'w'] && lower(ext) != seq!['g', 'o'] && lower(ext) != seq!['j', 'a', 'v', 'a'] && lower(ext) != seq!['k', 't'] && lower(ext) != seq!['k', 't', 's'] && lower(ext) != seq!['c'] && lower(ext) != seq!['h'] && lower(ext) != seq!['c', 'p', 'p'] && lower(ext) != seq!['c', 'c'] && lower(ext) != seq!['c', 'x', 'x'] && lower(ext) != seq!['h', 'p', 'p'] && lower(ext) != seq!['h', 'h'] && lower(ext) != seq!['h', 'x', 'x'] && lower(ext) != seq!['s', 'v', 'g'] && lower(ext) != seq!['p', 'n', 'g'] && lower(ext) != seq!['j', 'p', 'g'] && lower(ext) != seq!['j', 'p', 'e', 'g'] && lower(ext) != seq!['w', 'e', 'b', 'p'] && lower(ext) != seq!['g', 'i', 'f'] && lower(ext) != seq!['b', 'm', 'p'] && lower(ext) != seq!['i', 'c', 'o'] && lower(ext) != seq!['p', 'd', 'f'] && lower(ext) != seq!['z', 'i', 'p'] && lower(ext) != seq!['t', 'a', 'r'] && lower(ext) != seq!['g', 'z'] && lower(ext) != seq!['t', 'g', 'z'] && lower(ext) != seq!['x', 'z'] && lower(ext) != seq!['b', 'z', '2'] && lower(ext) != seq!['7', 'z'] && lower(ext) != seq!['r', 'a', 'r'] && lower(ext) != seq!['z', 's', 't']) ==> file_icon_spec(stem + seq!['.'] + ext) == glyph::FILE,
{
    let name = stem + seq!['.'] + ext;
    let x = lower(ext);
    assert(lower(name) =~= lower(stem) + seq!['.'] + x);
    assert forall|i: int| 0 <= i < x.len() implies x[i] != '.' by {
        assert(ext[i] != '.');
    }
    lemma_dot_ext(lower(stem), x);
    reveal_strlit("rs");
    assert("rs"@ =~= seq!['r', 's']);
    reveal_strlit("toml");
    assert("toml"@ =~= seq!['t', 'o', 'm', 'l']);
    reveal_strlit("md");
    assert("md"@ =~= seq!['m', 'd']);
    reveal_strlit("markdown");
    assert("markdown"@ =~= seq!['m', 'a', 'r', 'k', 'd', 'o', 'w', 'n']);
    reveal_strlit("txt");
    assert("txt"@ =~= seq!['t', 'x', 't']);
    reveal_strlit("text");
    assert("text"@ =~= seq!['t', 'e', 'x', 't']);
    reveal_strlit("json");
    assert("json"@ =~= seq!['j', 's', 'o', 'n']);
    reveal_strlit("jsonc");
    assert("jsonc"@ =~= seq!['j', 's', 'o', 'n', 'c']);
    reveal_strlit("yaml");
    assert("yaml"@ =~= seq!['y', 'a', 'm', 'l']);
    reveal_strlit("yml");
    assert("yml"@ =~= seq!['y', 'm', 'l']);
    reveal_strlit("nix");
    assert("nix"@ =~= seq!['n', 'i', 'x']);
    reveal_strlit("lock");
    assert("lock"@ =~= seq!['l', 'o', 'c', 'k']);
    reveal_strlit("sh");
    assert("sh"@ =~= seq!['s', 'h']);
    reveal_strlit("bash");
    assert("bash"@ =~= seq!['b', 'a', 's', 'h']);
    reveal_strlit("zsh");
    assert("zsh"@ =~= seq!['z', 's', 'h']);
    reveal_strlit("fish");
    assert("fish"@ =~= seq!['f', 'i', 's', 'h']);
    reveal_strlit("js");
    assert("js"@ =~= seq!['j', 's']);
    reveal_strlit("mjs");
    assert("mjs"@ =~= seq!['m', 'j', 's']);
    reveal_strlit("cjs");
    assert("cjs"@ =~= seq!['c', 'j', 's']);
    reveal_strlit("ts");
    assert("ts"@ =~= seq!['t', 's']);
    reveal_strlit("jsx");
    assert("jsx"@ =~= seq!['j', 's', 'x']);
    reveal_strlit("tsx");
    assert("tsx"@ =~= seq!['t', 's', 'x']);
    reveal_strlit("html");
    assert("html"@ =~= seq!['h', 't', 'm', 'l']);
    reveal_strlit("htm");
    assert("htm"@ =~= seq!['h', 't', 'm']);
    reveal_strlit("css");
    assert("css"@ =~= seq!['c', 's', 's']);
    reveal_strlit("scss");
    assert("scss"@ =~= seq!['s', 'c', 's', 's']);
    reveal_strlit("sass");
    assert("sass"@ =~= seq!['s', 'a', 's', 's']);
    reveal_strlit("py");
    assert("py"@ =~= seq!['p', 'y']);
    reveal_strlit("pyi");
    assert("pyi"@ =~= seq!['p', 'y', 'i']);
    reveal_strlit("pyw");
    assert("pyw"@ =~= seq!['p', 'y', 'w']);
    reveal_strlit("go");
    assert("go"@ =~= seq!['g', 'o']);
    reveal_strlit("java");
    assert("java"@ =~= seq!['j', 'a', 'v', 'a']);
    reveal_strlit("kt");
    assert("kt"@ =~= seq!['k', 't']);
    reveal_strlit("kts");
    assert("kts"@ =~= seq!['k', 't', 's']);
    reveal_strlit("c");
    assert("c"@ =~= seq!['c']);
    reveal_strlit("h");
    assert("h"@ =~= seq!['h']);
    reveal_strlit("cpp");
    assert("cpp"@ =~= seq!['c', 'p', 'p']);
    reveal_strlit("cc");
    assert("cc"@ =~= seq!['c', 'c']);
    reveal_strlit("cxx");
    assert("cxx"@ =~= seq!['c', 'x', 'x']);
    reveal_strlit("hpp");
    assert("hpp"@ =~= seq!['h', 'p', 'p']);
    reveal_strlit("hh");
    assert("hh"@ =~= seq!['h', 'h']);
    reveal_strlit("hxx");
    assert("hxx"@ =~= seq!['h', 'x', 'x']);
    reveal_strlit("svg");
    assert("svg"@ =~= seq!['s', 'v', 'g']);
    reveal_strlit("png");
    assert("png"@ =~= seq!['p', 'n', 'g']);
    reveal_strlit("jpg");
    assert("jpg"@ =~= seq!['j', 'p', 'g']);
    reveal_strlit("jpeg");
    assert("jpeg"@ =~= seq!['j', 'p', 'e', 'g']);
    reveal_strlit("webp");
    assert("webp"@ =~= seq!['w', 'e', 'b', 'p']);
    reveal_strlit("gif");
    assert("gif"@ =~= seq!['g', 'i', 'f']);
    reveal_strlit("bmp");
    assert("bmp"@ =~= seq!['b', 'm', 'p']);
    reveal_strlit("ico");
    assert("ico"@ =~= seq!['i', 'c', 'o']);
    reveal_strlit("pdf");
    assert("pdf"@ =~= seq!['p', 'd', 'f']);
    reveal_strlit("zip");
    assert("zip"@ =~= seq!['z', 'i', 'p']);
    reveal_strlit("tar");
    assert("tar"@ =~= seq!['t', 'a', 'r']);
    reveal_strlit("gz");
    assert("gz"@ =~= seq!['g', 'z']);
    reveal_strlit("tgz");
    assert("tgz"@ =~= seq!['t', 'g', 'z']);
    reveal_strlit("xz");
    assert("xz"@ =~= seq!['x', 'z']);
    reveal_strlit("bz2");
    assert("bz2"@ =~= seq!['b', 'z', '2']);
    reveal_strlit("7z");
    assert("7z"@ =~= seq!['7', 'z']);
    reveal_strlit("rar");
    assert("rar"@ =~= seq!['r', 'a', 'r']);
    reveal_strlit("zst");
    assert("zst"@ =~= seq!['z', 's', 't']);
}

} // verus!
