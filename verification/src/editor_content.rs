//! Editor content shaping that needs no text store: the overscanned line
//! window around the viewport, the window text of the editor-body lines,
//! restoring trailing empty lines a window read dropped, the body title, the
//! tab entries, and which colorizing pass applies to the rendered text.
use vstd::prelude::*;
use crate::syntax_spans::{
    colorize_lines, colorize_source_runs, colorize_window_runs, joined_len, lines_extent, rebase_spans,
    runs_view, valid_spans, HighlightSpan, Run,
};
use crate::text::{chars_of, join_nl, split_nl, split_nl_chars, string_from_chars, string_of, strings_view};
use vstd::utf8::encode_utf8;

verus! {

/// Lines rendered above and below the visible range.
pub const OVERSCAN_LINES: usize = 20;

/// Line count above which a text store without a visible range is read as a
/// default window instead of whole.
pub const LARGE_LINE_COUNT: usize = 1000;

/// Visible line count assumed for the default window.
pub const DEFAULT_VISIBLE_LINES: usize = 50;

/// The visible range `[s, e)` widened by the overscan on both sides, the
/// start saturating at 0 and the end clamped to `total` lines.
pub open spec fn window_of(s: int, e: int, total: int) -> (int, int) {
    (
        if s >= OVERSCAN_LINES { s - OVERSCAN_LINES } else { 0 },
        if e + OVERSCAN_LINES <= total { e + OVERSCAN_LINES } else { total },
    )
}

/// The overscanned window around a visible range, if there is one.
pub fn editor_window_range(visible: Option<(usize, usize)>, total_lines: usize) -> (r: Option<(usize, usize)>)
    requires
        match visible {
            Some((_, e)) => e + OVERSCAN_LINES <= usize::MAX,
            None => true,
        },
    ensures
        match visible {
            Some((s, e)) => r == Some(
                (window_of(s as int, e as int, total_lines as int).0 as usize, window_of(
                    s as int,
                    e as int,
                    total_lines as int,
                ).1 as usize),
            ),
            None => r is None,
        },
{
    match visible {
        Some((s, e)) => {
            let start = if s >= OVERSCAN_LINES { s - OVERSCAN_LINES } else { 0 };
            let end = if e + OVERSCAN_LINES <= total_lines { e + OVERSCAN_LINES } else { total_lines };
            Some((start, end))
        },
        None => None,
    }
}

/// Lines `[start, end)` of `lines` joined with newlines.
pub fn join_lines(lines: &[String], start: usize, end: usize) -> (r: String)
    requires
        start <= end <= lines@.len(),
    ensures
        r@ == join_nl(strings_view(lines@).subrange(start as int, end as int)),
{
    let ghost ls = strings_view(lines@).subrange(start as int, end as int);
    let mut out: Vec<char> = Vec::new();
    let mut i: usize = start;
    while i < end
        invariant
            start <= i <= end <= lines@.len(),
            ls == strings_view(lines@).subrange(start as int, end as int),
            out@ == join_nl(ls.take(i - start)),
        decreases end - i,
    {
        proof {
            assert(ls.take(i - start + 1).drop_last() =~= ls.take(i - start));
            assert(ls[i - start] == lines@[i as int]@);
        }
        if i > start {
            out.push('\n');
        }
        let lc = chars_of(lines[i].as_str());
        let ghost before = out@;
        let mut k: usize = 0;
        while k < lc.len()
            invariant
                k <= lc@.len(),
                out@ == before + lc@.take(k as int),
            decreases lc@.len() - k,
        {
            out.push(lc[k]);
            proof {
                assert(lc@.take(k + 1) =~= lc@.take(k as int).push(lc@[k as int]));
            }
            k += 1;
        }
        proof {
            assert(lc@.take(k as int) =~= lc@);
            if i == start {
                assert(ls.take(1) =~= seq![ls[0]]);
            }
            assert(out@ =~= join_nl(ls.take(i - start + 1)));
        }
        i += 1;
    }
    proof {
        assert(ls.take(end - start) =~= ls);
    }
    string_from_chars(out.as_slice())
}

/// Window text of the editor-body lines: with a visible range, the lines of
/// the overscanned window that exist (empty when the window starts past the
/// last line or there is no body); without one, all lines (or "No file open"
/// when there is no body).
pub open spec fn body_window_text(body: Option<Seq<Seq<char>>>, total: int, visible: Option<(usize, usize)>) -> Seq<
    char,
> {
    match visible {
        Some((s, e)) => {
            let (ws, we) = window_of(s as int, e as int, total);
            match body {
                Some(ls) => if ws < ls.len() {
                    join_nl(ls.subrange(ws, if we <= ls.len() { we } else { ls.len() as int }))
                } else {
                    Seq::empty()
                },
                None => Seq::empty(),
            }
        },
        None => match body {
            Some(ls) => join_nl(ls),
            None => "No file open"@,
        },
    }
}

/// The window read from the editor-body lines never starts after it ends.
pub open spec fn body_window_defined(body: Option<Seq<Seq<char>>>, total: int, visible: Option<(usize, usize)>) -> bool {
    match (visible, body) {
        (Some((s, e)), Some(ls)) => {
            let (ws, we) = window_of(s as int, e as int, total);
            ws < ls.len() ==> ws <= we
        },
        _ => true,
    }
}

/// Window text and line range of the editor-body lines (the path without a
/// text store). The range is the overscanned window, or `None` when the
/// text is empty or there is no visible range.
pub fn shape_editor_window(body_lines: Option<&[String]>, total_lines: usize, visible: Option<(usize, usize)>) -> (r: (
    String,
    Option<(usize, usize)>,
))
    requires
        match visible {
            Some((_, e)) => e + OVERSCAN_LINES <= usize::MAX,
            None => true,
        },
        body_window_defined(
            match body_lines {
                Some(l) => Some(strings_view(l@)),
                None => None,
            },
            total_lines as int,
            visible,
        ),
    ensures
        ({
            let body = match body_lines {
                Some(l) => Some(strings_view(l@)),
                None => None,
            };
            let text = body_window_text(body, total_lines as int, visible);
            &&& r.0@ == text
            &&& r.1 == match visible {
                Some((s, e)) => if text.len() == 0 {
                    None
                } else {
                    Some(
                        (window_of(s as int, e as int, total_lines as int).0 as usize, window_of(
                            s as int,
                            e as int,
                            total_lines as int,
                        ).1 as usize),
                    )
                },
                None => None,
            }
        }),
{
    match editor_window_range(visible, total_lines) {
        Some((start, end)) => {
            let text = match body_lines {
                Some(ls) => if start < ls.len() {
                    let e = if end <= ls.len() { end } else { ls.len() };
                    join_lines(ls, start, e)
                } else {
                    String::new()
                },
                None => String::new(),
            };
            if text.as_str().is_empty() {
                (text, None)
            } else {
                (text, Some((start, end)))
            }
        },
        None => {
            let text = match body_lines {
                Some(ls) => join_lines(ls, 0, ls.len()),
                None => string_of("No file open"),
            };
            proof {
                if let Some(ls) = body_lines {
                    assert(strings_view(ls@).subrange(0, ls@.len() as int) =~= strings_view(ls@));
                }
            }
            (text, None)
        },
    }
}

/// `n` newlines.
pub open spec fn newlines(n: int) -> Seq<char> {
    Seq::new(if n > 0 { n as nat } else { 0 }, |i: int| '\n')
}

proof fn lemma_split_nl_len(s: Seq<char>)
    ensures
        split_nl(s).len() == crate::text::count_char(s, '\n') + 1,
        crate::text::count_char(s, '\n') >= 0,
    decreases s.len(),
{
    if s.len() > 0 {
        lemma_split_nl_len(s.drop_last());
        let prev = split_nl(s.drop_last());
        if s.last() != '\n' {
            assert(prev.update(prev.len() - 1, prev.last().push(s.last())).len() == prev.len());
        }
    } else {
        assert(seq![Seq::<char>::empty()].len() == 1);
    }
}

/// The text with newlines appended until it has as many lines as the range
/// `[s, e)` spans (a window read drops the trailing empty lines).
pub open spec fn restored_text(text: Seq<char>, range: Option<(usize, usize)>) -> Seq<char> {
    match range {
        Some((s, e)) => text + newlines((if e >= s { e - s } else { 0 }) - split_nl(text).len()),
        None => text,
    }
}

/// Restore the trailing empty lines a window read dropped, so the text has
/// as many lines as its line range.
pub fn restore_trailing_empty_lines(text: String, range: Option<(usize, usize)>) -> (r: String)
    ensures
        r@ == restored_text(text@, range),
{
    match range {
        Some((s, e)) => {
            let expected = if e >= s { e - s } else { 0 };
            let v = chars_of(text.as_str());
            let mut nl: usize = 0;
            let mut i: usize = 0;
            while i < v.len()
                invariant
                    i <= v@.len(),
                    nl == crate::text::count_char(v@.take(i as int), '\n'),
                    nl <= i,
                decreases v@.len() - i,
            {
                proof {
                    assert(v@.take(i + 1).drop_last() =~= v@.take(i as int));
                }
                if v[i] == '\n' {
                    nl = nl + 1;
                }
                i += 1;
            }
            proof {
                assert(v@.take(i as int) =~= v@);
                lemma_split_nl_len(text@);
            }
            let need: usize = if expected >= 1 && expected - 1 > nl { expected - 1 - nl } else { 0 };
            let mut out = v;
            let ghost base = out@;
            let mut k: usize = 0;
            while k < need
                invariant
                    k <= need,
                    out@ == base + newlines(k as int),
                decreases need - k,
            {
                out.push('\n');
                proof {
                    assert(out@ =~= base + newlines(k + 1));
                }
                k += 1;
            }
            proof {
                assert(base == text@);
                assert(nl + 1 == split_nl(text@).len());
                assert(out@ =~= restored_text(text@, range));
            }
            string_from_chars(out.as_slice())
        },
        None => text,
    }
}

/// The body title: the title, or the subtitle when the title is empty.
pub fn editor_body_title(title: &str, subtitle: &str) -> (r: String)
    ensures
        r@ == if title@.len() == 0 {
            subtitle@
        } else {
            title@
        },
{
    let t = string_of(title);
    if title.is_empty() {
        string_of(subtitle)
    } else {
        t
    }
}

/// A tab of the editor's tab strip.
#[derive(Clone, Debug, PartialEq, Eq)]
pub struct TabEntry {
    pub label: String,
    pub active: bool,
}

/// `r` is the tab strip for `labels`: one tab per label, the first active;
/// a single inactive "No file open" tab when there are none.
pub open spec fn tab_entries_for(r: Seq<TabEntry>, labels: Seq<Seq<char>>) -> bool {
    &&& labels.len() == 0 ==> r.len() == 1 && r[0].label@ == "No file open"@ && !r[0].active
    &&& labels.len() > 0 ==> r.len() == labels.len() && forall|i: int|
        0 <= i < labels.len() ==> (#[trigger] r[i]).label@ == labels[i] && r[i].active == (i == 0)
}

/// The editor's tab strip: one tab per label, the first active; a single
/// inactive "No file open" tab when there are none.
pub fn editor_tab_entries(labels: &[String]) -> (r: Vec<TabEntry>)
    ensures
        tab_entries_for(r@, strings_view(labels@)),
{
    let mut out: Vec<TabEntry> = Vec::new();
    if labels.len() == 0 {
        out.push(TabEntry { label: string_of("No file open"), active: false });
        return out;
    }
    let mut i: usize = 0;
    while i < labels.len()
        invariant
            i <= labels@.len(),
            out@.len() == i,
            forall|j: int| 0 <= j < i ==> (#[trigger] out@[j]).label@ == labels@[j]@ && out@[j].active == (j == 0),
        decreases labels@.len() - i,
    {
        out.push(TabEntry { label: string_of(labels[i].as_str()), active: i == 0 });
        i += 1;
    }
    out
}

/// What to read from a text store: a line window, or the whole text. With
/// a visible range the overscanned window is read; without one, a large
/// text is read as a default window from its top and a small one whole.
pub open spec fn store_read_plan(visible: Option<(usize, usize)>, total: int) -> Option<(int, int)> {
    match visible {
        Some((s, e)) => Some(window_of(s as int, e as int, total)),
        None => if total > LARGE_LINE_COUNT {
            Some(
                (
                    0,
                    if DEFAULT_VISIBLE_LINES + OVERSCAN_LINES <= total {
                        DEFAULT_VISIBLE_LINES + OVERSCAN_LINES
                    } else {
                        total
                    },
                ),
            )
        } else {
            None
        },
    }
}

/// The line window to read from a text store (`None`: read it whole).
pub fn text_store_read_plan(visible: Option<(usize, usize)>, total_lines: usize) -> (r: Option<(usize, usize)>)
    requires
        match visible {
            Some((_, e)) => e + OVERSCAN_LINES <= usize::MAX,
            None => true,
        },
    ensures
        match store_read_plan(visible, total_lines as int) {
            Some((a, b)) => r == Some((a as usize, b as usize)),
            None => r is None,
        },
{
    match visible {
        Some(_) => editor_window_range(visible, total_lines),
        None => if total_lines > LARGE_LINE_COUNT {
            let end = if DEFAULT_VISIBLE_LINES + OVERSCAN_LINES <= total_lines {
                DEFAULT_VISIBLE_LINES + OVERSCAN_LINES
            } else {
                total_lines
            };
            Some((0, end))
        } else {
            None
        },
    }
}

/// The line window read from a large-file document buffer: the overscanned
/// window around the visible range, or the default window from its top
/// whatever its size.
pub fn document_read_window(visible: Option<(usize, usize)>, total_lines: usize) -> (r: (usize, usize))
    requires
        match visible {
            Some((_, e)) => e + OVERSCAN_LINES <= usize::MAX,
            None => true,
        },
    ensures
        r == match visible {
            Some((s, e)) => (window_of(s as int, e as int, total_lines as int).0 as usize, window_of(
                s as int,
                e as int,
                total_lines as int,
            ).1 as usize),
            None => (0usize, if DEFAULT_VISIBLE_LINES + OVERSCAN_LINES <= total_lines {
                (DEFAULT_VISIBLE_LINES + OVERSCAN_LINES) as usize
            } else {
                total_lines
            }),
        },
{
    match editor_window_range(visible, total_lines) {
        Some(w) => w,
        None => {
            let end = if DEFAULT_VISIBLE_LINES + OVERSCAN_LINES <= total_lines {
                DEFAULT_VISIBLE_LINES + OVERSCAN_LINES
            } else {
                total_lines
            };
            (0, end)
        },
    }
}

/// Line range of the text read from a store: for a visible-range window,
/// `None` when the read was empty and the window starts past the last line,
/// else the window with its end clamped to the line count; a default window
/// is used as it is; a whole read has no range.
pub fn text_store_used_range(
    visible_given: bool,
    window: Option<(usize, usize)>,
    read_is_empty: bool,
    total_lines: usize,
) -> (r: Option<(usize, usize)>)
    ensures
        r == match window {
            Some((a, b)) => if !visible_given {
                Some((a, b))
            } else if read_is_empty && a >= total_lines {
                None
            } else {
                Some((a, if b <= total_lines { b } else { total_lines }))
            },
            None => None,
        },
{
    match window {
        Some((a, b)) => if !visible_given {
            Some((a, b))
        } else if read_is_empty && a >= total_lines {
            None
        } else {
            Some((a, if b <= total_lines { b } else { total_lines }))
        },
        None => None,
    }
}

/// Colored runs of lines `ls` taken as a text of their own, with the spans
/// rebased from byte `base` of the full text and clipped to the lines.
pub open spec fn window_runs(ls: Seq<Seq<char>>, base: int, spans: Seq<HighlightSpan>) -> Seq<(Seq<u8>, crate::syntax_spans::Highlight)> {
    let src = encode_utf8(join_nl(ls));
    colorize_lines(ls, 0, 0, src, valid_spans(src, rebase_spans(spans, base, joined_len(ls))))
}

/// Colored runs of lines `ls` colored by the spans valid for their text.
pub open spec fn source_runs(ls: Seq<Seq<char>>, spans: Seq<HighlightSpan>) -> Seq<(Seq<u8>, crate::syntax_spans::Highlight)> {
    let src = encode_utf8(join_nl(ls));
    colorize_lines(ls, 0, 0, src, valid_spans(src, spans))
}

proof fn lemma_extent_add(a: Seq<Seq<char>>, b: Seq<Seq<char>>)
    ensures
        lines_extent(a + b) == lines_extent(a) + lines_extent(b),
        lines_extent(b) >= 0,
    decreases b.len(),
{
    if b.len() > 0 {
        assert((a + b).drop_last() =~= a + b.drop_last());
        lemma_extent_add(a, b.drop_last());
    } else {
        assert(a + b =~= a);
    }
}

proof fn lemma_extent_split(ls: Seq<Seq<char>>, s: int, e: int)
    requires
        0 <= s <= e <= ls.len(),
    ensures
        lines_extent(ls.take(s)) + lines_extent(ls.subrange(s, e)) <= lines_extent(ls),
{
    lemma_extent_add(ls.take(s), ls.subrange(s, e));
    lemma_extent_add(ls.take(s) + ls.subrange(s, e), ls.subrange(e, ls.len() as int));
    assert(ls.take(s) + ls.subrange(s, e) + ls.subrange(e, ls.len() as int) =~= ls);
}

/// Copies of lines `[start, end)`.
fn copy_lines(lines: &[String], start: usize, end: usize) -> (r: Vec<String>)
    requires
        start <= end <= lines@.len(),
    ensures
        strings_view(r@) == strings_view(lines@).subrange(start as int, end as int),
{
    let mut out: Vec<String> = Vec::new();
    let mut i: usize = start;
    while i < end
        invariant
            start <= i <= end <= lines@.len(),
            strings_view(out@) == strings_view(lines@).subrange(start as int, i as int),
        decreases end - i,
    {
        let c = lines[i].clone();
        let ghost o = out@;
        out.push(c);
        proof {
            assert(strings_view(out@) =~= strings_view(o).push(c@));
            assert(strings_view(lines@).subrange(start as int, i + 1) =~= strings_view(lines@).subrange(
                start as int,
                i as int,
            ).push(lines@[i as int]@));
        }
        i += 1;
    }
    out
}

/// Coloring of the editor-body lines (the path without a text store):
/// nothing without spans or lines; for a line range, the lines of the range
/// that exist, colored as a window whose base is the byte offset of its
/// first line; without a range, all lines.
pub open spec fn body_colorizing(ls: Seq<Seq<char>>, used: Option<(usize, usize)>, spans: Seq<HighlightSpan>) -> Option<
    Seq<(Seq<u8>, crate::syntax_spans::Highlight)>,
> {
    if spans.len() == 0 || ls.len() == 0 {
        None
    } else {
        match used {
            Some((s, e)) => {
                let a = if s <= ls.len() { s as int } else { ls.len() as int };
                let b = if e <= ls.len() { e as int } else { ls.len() as int };
                if a >= b {
                    None
                } else {
                    Some(window_runs(ls.subrange(a, b), lines_extent(ls.take(a)), spans))
                }
            },
            None => Some(source_runs(ls, spans)),
        }
    }
}

/// Colorize the editor-body lines for the rendered window.
pub fn colorize_body_lines(lines: &[String], used: Option<(usize, usize)>, spans: &[HighlightSpan]) -> (r: Option<Vec<Run>>)
    requires
        lines_extent(strings_view(lines@)) <= usize::MAX,
    ensures
        match body_colorizing(strings_view(lines@), used, spans@) {
            Some(x) => r matches Some(v) && runs_view(v@) == x,
            None => r is None,
        },
{
    let ghost ls = strings_view(lines@);
    if spans.len() == 0 || lines.len() == 0 {
        return None;
    }
    match used {
        Some((s, e)) => {
            let n = lines.len();
            let a = if s <= n { s } else { n };
            let b = if e <= n { e } else { n };
            if a >= b {
                return None;
            }
            proof {
                lemma_extent_split(ls, a as int, b as int);
                lemma_extent_add(ls.take(a as int), ls.subrange(a as int, b as int));
                assert(lines_extent(ls.take(a as int)) <= lines_extent(ls));
                lemma_extent_add(Seq::empty(), ls.take(0));
                assert(ls.take(0) =~= Seq::<Seq<char>>::empty());
            }
            let mut base: usize = 0;
            let mut i: usize = 0;
            while i < a
                invariant
                    i <= a <= lines@.len(),
                    ls == strings_view(lines@),
                    lines_extent(ls.take(a as int)) <= usize::MAX,
                    base == lines_extent(ls.take(i as int)),
                decreases a - i,
            {
                proof {
                    assert(ls.take(i + 1).drop_last() =~= ls.take(i as int));
                    assert(ls[i as int] == lines@[i as int]@);
                    lemma_extent_add(ls.take(i + 1), ls.take(a as int).subrange(i + 1, a as int));
                    assert(ls.take(i + 1) + ls.take(a as int).subrange(i + 1, a as int) =~= ls.take(a as int));
                }
                base = base + lines[i].as_str().as_bytes().len() + 1;
                i += 1;
            }
            let window = copy_lines(lines, a, b);
            let out = colorize_window_runs(window.as_slice(), base, spans);
            Some(out)
        },
        None => Some(colorize_source_runs(lines, spans)),
    }
}

/// The rendered text split into its lines.
fn text_lines(text: &str) -> (r: Vec<String>)
    ensures
        strings_view(r@) == split_nl(text@),
{
    let v = chars_of(text);
    let parts = split_nl_chars(v.as_slice());
    let mut out: Vec<String> = Vec::new();
    let mut i: usize = 0;
    while i < parts.len()
        invariant
            i <= parts@.len(),
            parts@.map_values(|l: Vec<char>| l@) == split_nl(text@),
            strings_view(out@) == parts@.map_values(|l: Vec<char>| l@).take(i as int),
        decreases parts@.len() - i,
    {
        let s = string_from_chars(parts[i].as_slice());
        let ghost o = out@;
        out.push(s);
        proof {
            assert(strings_view(out@) =~= strings_view(o).push(s@));
            assert(parts@.map_values(|l: Vec<char>| l@).take(i + 1) =~= parts@.map_values(|l: Vec<char>| l@).take(
                i as int,
            ).push(parts@[i as int]@));
        }
        i += 1;
    }
    proof {
        assert(parts@.map_values(|l: Vec<char>| l@).take(i as int) =~= parts@.map_values(|l: Vec<char>| l@));
    }
    out
}

/// Coloring of the text read from a text store, which is the single source
/// the spans were parsed from: nothing without spans or text; for a line
/// range, the rendered lines colored as a window based at `base`; without
/// one, the whole text.
pub open spec fn store_colorizing(text: Seq<char>, used: Option<(usize, usize)>, base: int, spans: Seq<HighlightSpan>) -> Option<
    Seq<(Seq<u8>, crate::syntax_spans::Highlight)>,
> {
    if spans.len() == 0 || text.len() == 0 {
        None
    } else {
        match used {
            Some((s, e)) => if s >= e {
                None
            } else {
                Some(window_runs(split_nl(text), base, spans))
            },
            None => Some(source_runs(split_nl(text), spans)),
        }
    }
}

/// Colorize the text read from a text store; `window_base` is the byte
/// offset of the first rendered line in the full text.
pub fn colorize_rendered_text(text: &str, used: Option<(usize, usize)>, window_base: usize, spans: &[HighlightSpan]) -> (r:
    Option<Vec<Run>>)
    requires
        window_base + lines_extent(split_nl(text@)) <= usize::MAX,
    ensures
        match store_colorizing(text@, used, window_base as int, spans@) {
            Some(x) => r matches Some(v) && runs_view(v@) == x,
            None => r is None,
        },
{
    if spans.len() == 0 || text.is_empty() {
        return None;
    }
    let ls = text_lines(text);
    proof {
        lemma_extent_add(Seq::empty(), split_nl(text@));
        assert(Seq::<Seq<char>>::empty() + split_nl(text@) =~= split_nl(text@));
    }
    match used {
        Some((s, e)) => if s >= e {
            None
        } else {
            Some(colorize_window_runs(ls.as_slice(), window_base, spans))
        },
        None => Some(colorize_source_runs(ls.as_slice(), spans)),
    }
}

proof fn lemma_split_nl_newlines(text: Seq<char>, k: nat)
    ensures
        split_nl(text + newlines(k as int)).len() == split_nl(text).len() + k,
    decreases k,
{
    if k == 0 {
        assert(text + newlines(0) =~= text);
    } else {
        lemma_split_nl_newlines(text, (k - 1) as nat);
        let t = text + newlines(k as int);
        assert(t.drop_last() =~= text + newlines(k - 1));
        assert(t.last() == '\n');
    }
}

/// Law: a restored window text has exactly as many lines as its line range
/// spans, unless it already had more.
pub proof fn law_restored_text_fills_the_range(text: Seq<char>, s: usize, e: usize)
    ensures
        split_nl(restored_text(text, Some((s, e)))).len() == if (if e >= s { e - s } else { 0 }) > split_nl(
            text,
        ).len() {
            (if e >= s { e - s } else { 0 }) as int
        } else {
            split_nl(text).len() as int
        },
{
    let want: int = if e >= s { e - s } else { 0 };
    let k: int = want - split_nl(text).len();
    if k > 0 {
        lemma_split_nl_newlines(text, k as nat);
    } else {
        lemma_split_nl_newlines(text, 0);
        assert(newlines(k) =~= newlines(0));
    }
}

/// The editor body of the work content.
pub struct EditorBody {
    pub lines: Vec<String>,
    pub title: String,
    pub subtitle: String,
    pub cursor_line: usize,
    pub cursor_col: usize,
}

/// What the workbench hands the editor.
pub struct EditorWork {
    pub editor_body: Option<EditorBody>,
    pub editor_tabs: Option<Vec<String>>,
    pub editor_breadcrumb: Option<String>,
}

/// The editor payload before soft wrapping (which `apply_wrap` performs on
/// `text` and `spans`).
pub struct EditorContent {
    pub tab_entries: Vec<TabEntry>,
    pub breadcrumb_label: String,
    pub text: String,
    pub spans: Option<Vec<Run>>,
    pub cursor_line: usize,
    pub cursor_col: usize,
    pub body_title: String,
    pub total_lines: usize,
    pub visible_line_range: Option<(usize, usize)>,
}

/// The empty payload (no work content).
pub open spec fn is_empty_content(c: EditorContent) -> bool {
    &&& c.tab_entries@.len() == 0
    &&& c.breadcrumb_label@.len() == 0
    &&& c.text@.len() == 0
    &&& c.spans is None
    &&& c.cursor_line == 0
    &&& c.cursor_col == 0
    &&& c.body_title@.len() == 0
    &&& c.total_lines == 0
    &&& c.visible_line_range is None
}

/// Body lines of the work content, if it has a body.
pub open spec fn body_lines_of(w: EditorWork) -> Option<Seq<Seq<char>>> {
    match w.editor_body {
        Some(b) => Some(strings_view(b.lines@)),
        None => None,
    }
}

/// Line count: the override, else the body's line count, else 0.
pub open spec fn total_of(w: EditorWork, total_override: Option<usize>) -> int {
    match total_override {
        Some(n) => n as int,
        None => match w.editor_body {
            Some(b) => b.lines@.len() as int,
            None => 0,
        },
    }
}

/// The work content can be shaped for the visible range: the window fits
/// in `usize`, never starts after it ends, and the body's text is
/// addressable by byte offsets.
pub open spec fn work_shapeable(w: EditorWork, total_override: Option<usize>, visible: Option<(usize, usize)>) -> bool {
    &&& match visible {
        Some((_, e)) => e + OVERSCAN_LINES <= usize::MAX,
        None => true,
    }
    &&& body_window_defined(body_lines_of(w), total_of(w, total_override), visible)
    &&& match w.editor_body {
        Some(b) => lines_extent(strings_view(b.lines@)) <= usize::MAX,
        None => true,
    }
}

/// Line range used for the body window: the overscanned window when the
/// window text is not empty.
pub open spec fn body_range(text: Seq<char>, total: int, visible: Option<(usize, usize)>) -> Option<(usize, usize)> {
    match visible {
        Some((s, e)) => if text.len() == 0 {
            None
        } else {
            Some((window_of(s as int, e as int, total).0 as usize, window_of(s as int, e as int, total).1 as usize))
        },
        None => None,
    }
}

/// Shape the editor payload from the work content, without a text store:
/// the window text of the body lines (trailing empty lines restored), its
/// coloring, the body title, cursor, tab strip and breadcrumb; the empty
/// payload when there is no work content.
pub fn shape_editor_content(
    work: Option<&EditorWork>,
    spans: &[HighlightSpan],
    visible: Option<(usize, usize)>,
    total_override: Option<usize>,
) -> (c: EditorContent)
    requires
        match work {
            Some(w) => work_shapeable(*w, total_override, visible),
            None => true,
        },
    ensures
        match work {
            None => is_empty_content(c),
            Some(w) => {
                let total = total_of(*w, total_override);
                let text0 = body_window_text(body_lines_of(*w), total, visible);
                let range = body_range(text0, total, visible);
                &&& c.total_lines == total
                &&& c.visible_line_range == range
                &&& c.text@ == restored_text(text0, range)
                &&& match w.editor_body {
                    Some(b) => match body_colorizing(strings_view(b.lines@), range, spans@) {
                        Some(x) => c.spans matches Some(v) && runs_view(v@) == x,
                        None => c.spans is None,
                    },
                    None => c.spans is None,
                }
                &&& match w.editor_body {
                    Some(b) => c.cursor_line == b.cursor_line && c.cursor_col == b.cursor_col && c.body_title@
                        == if b.title@.len() == 0 {
                        b.subtitle@
                    } else {
                        b.title@
                    },
                    None => c.cursor_line == 0 && c.cursor_col == 0 && c.body_title@.len() == 0,
                }
                &&& tab_entries_for(
                    c.tab_entries@,
                    match w.editor_tabs {
                        Some(v) => strings_view(v@),
                        None => Seq::empty(),
                    },
                )
                &&& c.breadcrumb_label@ == match w.editor_breadcrumb {
                    Some(b) => b@,
                    None => Seq::empty(),
                }
            },
        },
{
    let w = match work {
        Some(w) => w,
        None => {
            return EditorContent {
                tab_entries: Vec::new(),
                breadcrumb_label: String::new(),
                text: String::new(),
                spans: None,
                cursor_line: 0,
                cursor_col: 0,
                body_title: String::new(),
                total_lines: 0,
                visible_line_range: None,
            };
        },
    };
    let total = match total_override {
        Some(n) => n,
        None => match &w.editor_body {
            Some(b) => b.lines.len(),
            None => 0,
        },
    };
    let (text0, range) = match &w.editor_body {
        Some(b) => shape_editor_window(Some(b.lines.as_slice()), total, visible),
        None => shape_editor_window(None, total, visible),
    };
    let text = restore_trailing_empty_lines(text0, range);
    let (colored, cursor_line, cursor_col, body_title) = match &w.editor_body {
        Some(b) => (
            colorize_body_lines(b.lines.as_slice(), range, spans),
            b.cursor_line,
            b.cursor_col,
            editor_body_title(b.title.as_str(), b.subtitle.as_str()),
        ),
        None => (None, 0, 0, String::new()),
    };
    let tab_entries = match &w.editor_tabs {
        Some(v) => editor_tab_entries(v.as_slice()),
        None => editor_tab_entries(&[]),
    };
    let breadcrumb_label = match &w.editor_breadcrumb {
        Some(b) => string_of(b.as_str()),
        None => String::new(),
    };
    EditorContent {
        tab_entries,
        breadcrumb_label,
        text,
        spans: colored,
        cursor_line,
        cursor_col,
        body_title,
        total_lines: total,
        visible_line_range: range,
    }
}

} // verus!
