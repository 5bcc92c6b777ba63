//! Status bar presentation model.
use vstd::prelude::*;
use crate::text::{
    after_last_of, after_last_of_exec, chars_eq_str, chars_of, dec, lemma_after_last_of_bounds,
    push_decimal, push_str, split_nl, split_nl_chars, string_from_chars, string_of, sub_chars,
    trim, trim_chars,
};

verus! {

/// Transient document/editor state surfaced on the left of the status bar.
#[derive(Clone, Copy, Debug, PartialEq, Eq, Structural)]
pub enum DocumentState {
    /// No file is open.
    NoFile,
    /// A file is open and idle.
    Ready,
    /// A background syntax parse is in flight for the current buffer.
    Parsing,
}

/// Indentation style of the active document.
#[derive(Clone, Copy, Debug, PartialEq, Eq, Structural)]
pub enum IndentStyle {
    /// Soft tabs: `size` spaces per indent level.
    Spaces(usize),
    /// Hard tabs rendered at `width` columns.
    Tabs(usize),
}

pub open spec fn indent_label_spec(i: IndentStyle) -> Seq<char> {
    match i {
        IndentStyle::Spaces(n) => "Spaces: "@ + dec(n as nat),
        IndentStyle::Tabs(n) => "Tabs: "@ + dec(n as nat),
    }
}

impl IndentStyle {
    /// Short, IDE-style label (e.g. `Spaces: 4`, `Tabs: 4`).
    pub fn label(&self) -> (s: String)
        ensures
            s@ == indent_label_spec(*self),
    {
        let mut v: Vec<char> = Vec::new();
        match self {
            IndentStyle::Spaces(n) => {
                push_str(&mut v, "Spaces: ");
                push_decimal(&mut v, *n as u64);
            },
            IndentStyle::Tabs(n) => {
                push_str(&mut v, "Tabs: ");
                push_decimal(&mut v, *n as u64);
            },
        }
        string_from_chars(v.as_slice())
    }
}

/// Document line-ending convention, detected from the raw buffer head.
#[derive(Clone, Copy, Debug, PartialEq, Eq, Structural)]
pub enum LineEnding {
    /// `\n`
    Lf,
    /// `\r\n`
    CrLf,
    /// `\r`
    Cr,
}

pub open spec fn line_ending_label_spec(e: LineEnding) -> Seq<char> {
    match e {
        LineEnding::Lf => "LF"@,
        LineEnding::CrLf => "CRLF"@,
        LineEnding::Cr => "CR"@,
    }
}

impl LineEnding {
    /// Short label used in the status bar.
    pub fn label(&self) -> (s: &'static str)
        ensures
            s@ == line_ending_label_spec(*self),
    {
        match self {
            LineEnding::Lf => "LF",
            LineEnding::CrLf => "CRLF",
            LineEnding::Cr => "CR",
        }
    }
}

/// Compact selection summary (only present while a selection is active).
#[derive(Clone, Copy, Debug, PartialEq, Eq, Structural)]
pub struct SelectionInfo {
    /// Number of selected characters.
    pub chars: usize,
    /// Number of lines the selection spans (>= 1).
    pub lines: usize,
}

/// Compact diagnostics counts for the active buffer.
#[derive(Clone, Copy, Debug, PartialEq, Eq, Structural)]
pub struct DiagnosticCounts {
    pub errors: u32,
    pub warnings: u32,
    pub infos: u32,
    pub hints: u32,
}

impl Default for DiagnosticCounts {
    fn default() -> (d: Self)
        ensures
            d == (DiagnosticCounts { errors: 0, warnings: 0, infos: 0, hints: 0 }),
    {
        DiagnosticCounts { errors: 0, warnings: 0, infos: 0, hints: 0 }
    }
}

pub open spec fn diagnostics_any(d: DiagnosticCounts) -> bool {
    d.errors > 0 || d.warnings > 0 || d.infos > 0 || d.hints > 0
}

impl DiagnosticCounts {
    /// Whether anything worth showing is present.
    pub fn any(&self) -> (b: bool)
        ensures
            b == diagnostics_any(*self),
    {
        self.errors > 0 || self.warnings > 0 || self.infos > 0 || self.hints > 0
    }
}

/// Raw inputs gathered by the app each frame, from which a [`StatusModel`] is
/// derived.
pub struct StatusInputs<'a> {
    /// Active document label (path or display name) — `Some` whenever a
    /// document is open.
    pub file_label: Option<&'a str>,
    /// Workspace folder name, if any.
    pub workspace_name: Option<&'a str>,
    /// 0-based caret line/column.
    pub cursor_line: usize,
    pub cursor_col: usize,
    /// Small leading raw slice of the document (line endings preserved).
    pub text_sample: Option<&'a str>,
    /// Whether the buffer has unsaved edits since it was loaded.
    pub modified: bool,
    /// Whether a background syntax parse is currently pending.
    pub parsing: bool,
    /// Whether the document is read-only.
    pub readonly: bool,
    /// Active selection summary, when a selection is present.
    pub selection: Option<SelectionInfo>,
    /// Diagnostics counts, only when a provider is ready.
    pub diagnostics: Option<DiagnosticCounts>,
}

/// Typed, render-ready view-model for the status bar.
#[derive(Clone, Debug)]
pub struct StatusModel {
    /// Workspace/project folder name, when a workspace is open.
    pub workspace: Option<String>,
    /// Transient document state (idle/parsing).
    pub document_state: DocumentState,
    /// Whether the document has unsaved edits.
    pub modified: bool,
    /// Whether the document is read-only.
    pub readonly: bool,
    /// Caret line (0-based; displayed as 1-based).
    pub line: usize,
    /// Caret column (0-based; displayed as 1-based).
    pub column: usize,
    /// Active selection summary, if any.
    pub selection: Option<SelectionInfo>,
    /// Indentation style of the active document.
    pub indent: IndentStyle,
    /// Text encoding label (UTF-8 only for now).
    pub encoding: &'static str,
    /// Line-ending convention.
    pub line_ending: LineEnding,
    /// Language / file-type label, when a file is open.
    pub language: Option<String>,
    /// Diagnostics counts, when a provider is ready and reports any.
    pub diagnostics: Option<DiagnosticCounts>,
    /// Whether an editable file is currently active.
    pub has_file: bool,
    /// Active document's display name (basename), when a file is open.
    pub file_name: Option<String>,
}

pub open spec fn opt_string_view(o: Option<String>) -> Option<Seq<char>> {
    match o {
        Some(s) => Some(s@),
        None => None,
    }
}

impl Default for StatusModel {
    fn default() -> (m: Self)
        ensures
            m.workspace is None,
            m.document_state == DocumentState::NoFile,
            !m.modified,
            !m.readonly,
            m.line == 0,
            m.column == 0,
            m.selection is None,
            m.indent == IndentStyle::Spaces(4),
            m.encoding@ == "UTF-8"@,
            m.line_ending == LineEnding::Lf,
            m.language is None,
            m.diagnostics is None,
            !m.has_file,
            m.file_name is None,
    {
        StatusModel {
            workspace: None,
            document_state: DocumentState::NoFile,
            modified: false,
            readonly: false,
            line: 0,
            column: 0,
            selection: None,
            indent: IndentStyle::Spaces(4),
            encoding: "UTF-8",
            line_ending: LineEnding::Lf,
            language: None,
            diagnostics: None,
            has_file: false,
            file_name: None,
        }
    }
}

/// Display basename of a path or name: the part after the last `/` or `\`,
/// or the whole label when that part is empty.
pub open spec fn file_basename_spec(p: Seq<char>) -> Seq<char> {
    let tail = p.subrange(after_last_of(p, '/', '\\'), p.len() as int);
    if tail.len() > 0 {
        tail
    } else {
        p
    }
}

/// Language / file-type label of a path: by the text after its last `.`.
pub open spec fn language_label_spec(p: Seq<char>) -> Seq<char> {
    let k = after_last_of(p, '.', '.');
    let ext = p.subrange(k, p.len() as int);
    if k == 0 || ext.len() == 0 {
        "Plain Text"@
    } else if ext == "rs"@ {
        "Rust"@
    } else if ext == "toml"@ {
        "TOML"@
    } else if ext == "md"@ {
        "Markdown"@
    } else if ext == "json"@ {
        "JSON"@
    } else if ext == "py"@ {
        "Python"@
    } else if ext == "js"@ {
        "JavaScript"@
    } else if ext == "ts"@ {
        "TypeScript"@
    } else if ext == "txt"@ {
        "Text"@
    } else {
        ext
    }
}

/// Number of leading `' '` characters of `l`.
pub open spec fn lead_spaces(l: Seq<char>) -> int
    decreases l.len(),
{
    if l.len() == 0 || l[0] != ' ' {
        0
    } else {
        1 + lead_spaces(l.drop_first())
    }
}

/// Indentation of the first indented line among `ls[k..]`.
pub open spec fn indent_from(ls: Seq<Seq<char>>, k: int) -> IndentStyle
    decreases ls.len() - k,
{
    if k < 0 || k >= ls.len() {
        IndentStyle::Spaces(4)
    } else if ls[k].len() > 0 && ls[k][0] == '\t' {
        IndentStyle::Tabs(4)
    } else if ls[k].len() > 0 && ls[k][0] == ' ' {
        if lead_spaces(ls[k]) == 2 {
            IndentStyle::Spaces(2)
        } else {
            IndentStyle::Spaces(4)
        }
    } else {
        indent_from(ls, k + 1)
    }
}

/// Indentation style of a text sample: decided by its first line that starts
/// with a tab (hard tabs) or a space (two leading spaces: 2, otherwise 4);
/// `Spaces(4)` when no line is indented.
pub open spec fn detect_indent_spec(s: Seq<char>) -> IndentStyle {
    indent_from(split_nl(s), 0)
}

/// Line ending given by the first `'\r'` or `'\n'` at or after `i`.
pub open spec fn line_ending_from(s: Seq<char>, i: int) -> LineEnding
    decreases s.len() - i,
{
    if i < 0 || i >= s.len() {
        LineEnding::Lf
    } else if s[i] == '\r' {
        if i + 1 < s.len() && s[i + 1] == '\n' {
            LineEnding::CrLf
        } else {
            LineEnding::Cr
        }
    } else if s[i] == '\n' {
        LineEnding::Lf
    } else {
        line_ending_from(s, i + 1)
    }
}

pub open spec fn detect_line_ending_spec(s: Seq<char>) -> LineEnding {
    line_ending_from(s, 0)
}

/// Extract the display basename from an active-file label (path or name).
pub fn file_basename(path: &str) -> (r: String)
    ensures
        r@ == file_basename_spec(path@),
{
    let v = chars_of(path);
    let k = after_last_of_exec(v.as_slice(), '/', '\\');
    proof {
        lemma_after_last_of_bounds(v@, '/', '\\');
    }
    if k < v.len() {
        let tail = sub_chars(v.as_slice(), k, v.len());
        string_from_chars(tail.as_slice())
    } else {
        string_from_chars(v.as_slice())
    }
}

/// Map an active file path to a short, human-friendly language label.
pub fn language_label(path: &str) -> (r: String)
    ensures
        r@ == language_label_spec(path@),
{
    let v = chars_of(path);
    let k = after_last_of_exec(v.as_slice(), '.', '.');
    proof {
        lemma_after_last_of_bounds(v@, '.', '.');
    }
    if k == 0 || k == v.len() {
        return string_of("Plain Text");
    }
    let ext = sub_chars(v.as_slice(), k, v.len());
    let e = ext.as_slice();
    if chars_eq_str(e, "rs") {
        string_of("Rust")
    } else if chars_eq_str(e, "toml") {
        string_of("TOML")
    } else if chars_eq_str(e, "md") {
        string_of("Markdown")
    } else if chars_eq_str(e, "json") {
        string_of("JSON")
    } else if chars_eq_str(e, "py") {
        string_of("Python")
    } else if chars_eq_str(e, "js") {
        string_of("JavaScript")
    } else if chars_eq_str(e, "ts") {
        string_of("TypeScript")
    } else if chars_eq_str(e, "txt") {
        string_of("Text")
    } else {
        string_from_chars(e)
    }
}

fn count_lead_spaces(l: &Vec<char>) -> (n: usize)
    ensures
        n as int == lead_spaces(l@),
{
    let mut i: usize = 0;
    proof {
        assert(l@.subrange(0, l@.len() as int) =~= l@);
    }
    while i < l.len() && l[i] == ' '
        invariant
            i <= l@.len(),
            lead_spaces(l@) == i + lead_spaces(l@.subrange(i as int, l@.len() as int)),
        decreases l.len() - i,
    {
        proof {
            let r = l@.subrange(i as int, l@.len() as int);
            assert(r.drop_first() =~= l@.subrange(i + 1, l@.len() as int));
        }
        i = i + 1;
    }
    proof {
        let r = l@.subrange(i as int, l@.len() as int);
        if i < l@.len() {
            assert(r[0] == l@[i as int]);
        }
    }
    i
}

/// Detect the indentation style from the first indented line in `sample`.
pub fn detect_indent(sample: &str) -> (r: IndentStyle)
    ensures
        r == detect_indent_spec(sample@),
{
    let v = chars_of(sample);
    let lines = split_nl_chars(v.as_slice());
    let ghost ls = lines@.map_values(|l: Vec<char>| l@);
    let mut k: usize = 0;
    while k < lines.len()
        invariant
            ls == lines@.map_values(|l: Vec<char>| l@),
            ls == split_nl(sample@),
            k <= lines@.len(),
            indent_from(ls, 0) == indent_from(ls, k as int),
        decreases lines.len() - k,
    {
        let line = &lines[k];
        assert(line@ == ls[k as int]);
        if line.len() > 0 && line[0] == '\t' {
            return IndentStyle::Tabs(4);
        }
        if line.len() > 0 && line[0] == ' ' {
            let leading = count_lead_spaces(line);
            let unit = if leading == 2 {
                2
            } else {
                4
            };
            return IndentStyle::Spaces(unit);
        }
        k = k + 1;
    }
    IndentStyle::Spaces(4)
}

/// Detect the line-ending convention from the first terminator in `sample`.
pub fn detect_line_ending(sample: &str) -> (r: LineEnding)
    ensures
        r == detect_line_ending_spec(sample@),
{
    let v = chars_of(sample);
    let mut i: usize = 0;
    while i < v.len()
        invariant
            v@ == sample@,
            i <= v@.len(),
            line_ending_from(v@, 0) == line_ending_from(v@, i as int),
        decreases v.len() - i,
    {
        if v[i] == '\r' {
            if i + 1 < v.len() && v[i + 1] == '\n' {
                return LineEnding::CrLf;
            }
            return LineEnding::Cr;
        }
        if v[i] == '\n' {
            return LineEnding::Lf;
        }
        i = i + 1;
    }
    LineEnding::Lf
}

/// `m` is the model derived from `inputs`.
pub open spec fn derived_from(m: StatusModel, inputs: StatusInputs<'_>) -> bool {
    &&& m.has_file == (inputs.file_label is Some)
    &&& opt_string_view(m.language) == match inputs.file_label {
        Some(p) => Some(language_label_spec(p@)),
        None => None,
    }
    &&& m.indent == match inputs.text_sample {
        Some(s) => detect_indent_spec(s@),
        None => IndentStyle::Spaces(4),
    }
    &&& m.line_ending == match inputs.text_sample {
        Some(s) => detect_line_ending_spec(s@),
        None => LineEnding::Lf,
    }
    &&& m.document_state == if inputs.file_label is None {
        DocumentState::NoFile
    } else if inputs.parsing {
        DocumentState::Parsing
    } else {
        DocumentState::Ready
    }
    &&& m.diagnostics == match inputs.diagnostics {
        Some(d) => if diagnostics_any(d) {
            Some(d)
        } else {
            None
        },
        None => None,
    }
    &&& opt_string_view(m.workspace) == match inputs.workspace_name {
        Some(w) => if trim(w@).len() > 0 {
            Some(trim(w@))
        } else {
            None
        },
        None => None,
    }
    &&& opt_string_view(m.file_name) == match inputs.file_label {
        Some(p) => Some(file_basename_spec(p@)),
        None => None,
    }
    &&& m.modified == (inputs.file_label is Some && inputs.modified)
    &&& m.readonly == (inputs.file_label is Some && inputs.readonly)
    &&& m.line == inputs.cursor_line
    &&& m.column == inputs.cursor_col
    &&& m.selection == if inputs.file_label is Some {
        inputs.selection
    } else {
        None
    }
    &&& m.encoding@ == "UTF-8"@
}

impl StatusModel {
    /// Derive the model from the gathered live inputs.
    pub fn from_inputs(inputs: &StatusInputs<'_>) -> (m: Self)
        ensures
            derived_from(m, *inputs),
    {
        let has_file = inputs.file_label.is_some();
        let language = match inputs.file_label {
            Some(p) => Some(language_label(p)),
            None => None,
        };
        let indent = match inputs.text_sample {
            Some(s) => detect_indent(s),
            None => IndentStyle::Spaces(4),
        };
        let line_ending = match inputs.text_sample {
            Some(s) => detect_line_ending(s),
            None => LineEnding::Lf,
        };
        let document_state = if !has_file {
            DocumentState::NoFile
        } else if inputs.parsing {
            DocumentState::Parsing
        } else {
            DocumentState::Ready
        };
        // Diagnostics are only surfaced when a provider actually reports some.
        let diagnostics = match inputs.diagnostics {
            Some(d) => if d.any() {
                Some(d)
            } else {
                None
            },
            None => None,
        };
        // A blank/whitespace workspace name counts as "no workspace".
        let workspace = match inputs.workspace_name {
            Some(w) => {
                let wv = chars_of(w);
                let t = trim_chars(wv.as_slice());
                if t.len() > 0 {
                    Some(string_from_chars(t.as_slice()))
                } else {
                    None
                }
            },
            None => None,
        };
        let file_name = match inputs.file_label {
            Some(p) => Some(file_basename(p)),
            None => None,
        };
        StatusModel {
            workspace,
            document_state,
            modified: has_file && inputs.modified,
            readonly: has_file && inputs.readonly,
            line: inputs.cursor_line,
            column: inputs.cursor_col,
            selection: if has_file {
                inputs.selection
            } else {
                None
            },
            indent,
            encoding: "UTF-8",
            line_ending,
            language,
            diagnostics,
            has_file,
            file_name,
        }
    }
}

proof fn lemma_after_dot(stem: Seq<char>, x: Seq<char>)
    requires
        forall|i: int| 0 <= i < x.len() ==> x[i] != '.',
    ensures
        after_last_of(stem + seq!['.'] + x, '.', '.') == stem.len() + 1,
        (stem + seq!['.'] + x).subrange(stem.len() as int + 1, (stem + seq!['.'] + x).len() as int) == x,
    decreases x.len(),
{
    let s = stem + seq!['.'] + x;
    if x.len() > 0 {
        assert(s.drop_last() =~= stem + seq!['.'] + x.drop_last());
        assert(s.last() == x[x.len() - 1]);
        lemma_after_dot(stem, x.drop_last());
    } else {
        assert(s.last() == '.');
    }
    assert(s.subrange(stem.len() as int + 1, s.len() as int) =~= x);
}

/// Law: the language label is read off the extension after the last `.`,
/// by a fixed table: whatever the rest of the path, `.rs` is Rust, `.toml`
/// TOML, `.md` Markdown, `.json` JSON, `.py` Python, `.js` JavaScript, `.ts`
/// TypeScript and `.txt` Text; any other extension (without a `.`) is shown
/// as it is.
pub proof fn law_language_by_extension(stem: Seq<char>, ext: Seq<char>)
    requires
        ext.len() > 0,
        forall|i: int| 0 <= i < ext.len() ==> ext[i] != '.',
    ensures
        ext == seq!['r', 's'] ==> language_label_spec(stem + seq!['.'] + ext) == seq!['R', 'u', 's', 't'],
        ext == seq!['t', 'o', 'm', 'l'] ==> language_label_spec(stem + seq!['.'] + ext) == seq!['T', 'O', 'M', 'L'],
        ext == seq!['m', 'd'] ==> language_label_spec(stem + seq!['.'] + ext) == seq![
            'M', 'a', 'r', 'k', 'd', 'o', 'w', 'n',
        ],
        ext == seq!['j', 's', 'o', 'n'] ==> language_label_spec(stem + seq!['.'] + ext) == seq!['J', 'S', 'O', 'N'],
        ext == seq!['p', 'y'] ==> language_label_spec(stem + seq!['.'] + ext) == seq![
            'P', 'y', 't', 'h', 'o', 'n',
        ],
        ext == seq!['j', 's'] ==> language_label_spec(stem + seq!['.'] + ext) == seq![
            'J', 'a', 'v', 'a', 'S', 'c', 'r', 'i', 'p', 't',
        ],
        ext == seq!['t', 's'] ==> language_label_spec(stem + seq!['.'] + ext) == seq![
            'T', 'y', 'p', 'e', 'S', 'c', 'r', 'i', 'p', 't',
        ],
        ext == seq!['t', 'x', 't'] ==> language_label_spec(stem + seq!['.'] + ext) == seq!['T', 'e', 'x', 't'],
        ext != seq!['r', 's'] && ext != seq!['t', 'o', 'm', 'l'] && ext != seq!['m', 'd'] && ext != seq![
            'j', 's', 'o', 'n',
        ] && ext != seq!['p', 'y'] && ext != seq!['j', 's'] && ext != seq!['t', 's'] && ext != seq!['t', 'x', 't']
            ==> language_label_spec(stem + seq!['.'] + ext) == ext,
{
    lemma_after_dot(stem, ext);
    reveal_strlit("rs");
    reveal_strlit("toml");
    reveal_strlit("md");
    reveal_strlit("json");
    reveal_strlit("py");
    reveal_strlit("js");
    reveal_strlit("ts");
    reveal_strlit("txt");
    reveal_strlit("Rust");
    reveal_strlit("TOML");
    reveal_strlit("Markdown");
    reveal_strlit("JSON");
    reveal_strlit("Python");
    reveal_strlit("JavaScript");
    reveal_strlit("TypeScript");
    reveal_strlit("Text");
    assert("rs"@ =~= seq!['r', 's']);
    assert("toml"@ =~= seq!['t', 'o', 'm', 'l']);
    assert("md"@ =~= seq!['m', 'd']);
    assert("json"@ =~= seq!['j', 's', 'o', 'n']);
    assert("py"@ =~= seq!['p', 'y']);
    assert("js"@ =~= seq!['j', 's']);
    assert("ts"@ =~= seq!['t', 's']);
    assert("txt"@ =~= seq!['t', 'x', 't']);
    assert("Rust"@ =~= seq!['R', 'u', 's', 't']);
    assert("TOML"@ =~= seq!['T', 'O', 'M', 'L']);
    assert("Markdown"@ =~= seq!['M', 'a', 'r', 'k', 'd', 'o', 'w', 'n']);
    assert("JSON"@ =~= seq!['J', 'S', 'O', 'N']);
    assert("Python"@ =~= seq!['P', 'y', 't', 'h', 'o', 'n']);
    assert("JavaScript"@ =~= seq!['J', 'a', 'v', 'a', 'S', 'c', 'r', 'i', 'p', 't']);
    assert("TypeScript"@ =~= seq!['T', 'y', 'p', 'e', 'S', 'c', 'r', 'i', 'p', 't']);
    assert("Text"@ =~= seq!['T', 'e', 'x', 't']);
}

} // verus!
