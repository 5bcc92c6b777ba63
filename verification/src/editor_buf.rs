//! Editor buffer arithmetic that does not need the text store: tab expansion
//! and the mapping between raw and tab-expanded (visual) columns of a line,
//! the ordered selection range, and the logical-line ranges an edit touches.
use vstd::prelude::*;
use crate::text::{chars_of, string_from_chars};

verus! {

/// Display width of a tab stop.
pub const TAB_WIDTH: usize = 4;

/// `n` spaces.
pub open spec fn spaces(n: int) -> Seq<char> {
    Seq::new(n as nat, |i: int| ' ')
}

/// `s` with each tab replaced by the spaces up to the next multiple of `w`
/// display columns (characters) of the expanded text so far.
pub open spec fn expand_tabs_spec(s: Seq<char>, w: nat) -> Seq<char>
    decreases s.len(),
{
    if s.len() == 0 {
        Seq::empty()
    } else {
        let p = expand_tabs_spec(s.drop_last(), w);
        if s.last() == '\t' {
            p + spaces(w as int - (p.len() as int) % (w as int))
        } else {
            p.push(s.last())
        }
    }
}

/// A line with tabs turned into spaces up to the next tab stop, counted in
/// display columns.
pub fn expand_tabs(raw: &str, tab_width: usize) -> (s: String)
    requires
        tab_width > 0 || !raw@.contains('\t'),
    ensures
        s@ == expand_tabs_spec(raw@, tab_width as nat),
{
    let v = chars_of(raw);
    let mut out: Vec<char> = Vec::new();
    let mut i: usize = 0;
    while i < v.len()
        invariant
            v@ == raw@,
            tab_width > 0 || !raw@.contains('\t'),
            i <= v@.len(),
            out@ == expand_tabs_spec(v@.take(i as int), tab_width as nat),
        decreases v@.len() - i,
    {
        let c = v[i];
        let ghost p = out@;
        proof {
            assert(v@.take(i + 1).drop_last() =~= v@.take(i as int));
        }
        if c == '\t' {
            proof {
                assert(raw@[i as int] == '\t');
            }
            let n = tab_width - (out.len() % tab_width);
            let mut k: usize = 0;
            while k < n
                invariant
                    k <= n,
                    out@ == p + spaces(k as int),
                decreases n - k,
            {
                out.push(' ');
                proof {
                    assert(out@ =~= p + spaces(k + 1));
                }
                k += 1;
            }
        } else {
            out.push(c);
        }
        i += 1;
    }
    proof {
        assert(v@.take(v@.len() as int) =~= v@);
    }
    string_from_chars(out.as_slice())
}

/// Visual column reached from char `k` (at visual column `vis`) once every
/// char before index `raw_idx` is laid out: a tab advances to the next
/// multiple of `w`, any other char by one.
pub open spec fn raw_to_vis_from(s: Seq<char>, k: int, vis: int, raw_idx: int, w: int) -> int
    decreases s.len() - k,
{
    if k < 0 || k >= s.len() || k >= raw_idx {
        vis
    } else {
        let nv = if s[k] == '\t' {
            vis + (w - vis % w)
        } else {
            vis + 1
        };
        raw_to_vis_from(s, k + 1, nv, raw_idx, w)
    }
}

/// Visual column of char index `raw_idx` of a line.
pub open spec fn raw_to_vis_spec(s: Seq<char>, raw_idx: int, w: int) -> int {
    raw_to_vis_from(s, 0, 0, raw_idx, w)
}

/// No tab of `s` lies before char index `raw_idx`.
pub open spec fn no_tab_before(s: Seq<char>, raw_idx: int) -> bool {
    forall|j: int| 0 <= j < s.len() && j < raw_idx ==> s[j] != '\t'
}

proof fn lemma_raw_to_vis_mono(s: Seq<char>, k: int, vis: int, raw_idx: int, w: int)
    requires
        0 <= k <= s.len(),
        w > 0 || no_tab_before(s, raw_idx),
    ensures
        raw_to_vis_from(s, k, vis, raw_idx, w) >= vis,
    decreases s.len() - k,
{
    if k < s.len() && k < raw_idx {
        let nv = if s[k] == '\t' {
            vis + (w - vis % w)
        } else {
            vis + 1
        };
        if s[k] == '\t' {
            assert(w > 0);
            assert(vis % w < w) by (nonlinear_arith)
                requires
                    w > 0,
            ;
        }
        lemma_raw_to_vis_mono(s, k + 1, nv, raw_idx, w);
    }
}

/// Map a raw character index within a line to its visual (tab-expanded)
/// column.
pub fn raw_to_vis_col(raw: &str, raw_idx: usize, tab_width: usize) -> (vis: usize)
    requires
        tab_width > 0 || no_tab_before(raw@, raw_idx as int),
        raw_to_vis_spec(raw@, raw_idx as int, tab_width as int) <= usize::MAX,
    ensures
        vis as int == raw_to_vis_spec(raw@, raw_idx as int, tab_width as int),
{
    let v = chars_of(raw);
    let mut vis: usize = 0;
    let mut k: usize = 0;
    let ghost total = raw_to_vis_spec(raw@, raw_idx as int, tab_width as int);
    while k < v.len() && k < raw_idx
        invariant
            v@ == raw@,
            tab_width > 0 || no_tab_before(raw@, raw_idx as int),
            total <= usize::MAX,
            k <= v@.len(),
            raw_to_vis_from(v@, k as int, vis as int, raw_idx as int, tab_width as int) == total,
        decreases v@.len() - k,
    {
        let c = v[k];
        proof {
            if c == '\t' && tab_width == 0 {
                assert(raw@[k as int] != '\t');
            }
        }
        let ghost nv: int = if c == '\t' {
            vis + (tab_width - vis % tab_width)
        } else {
            vis + 1
        };
        proof {
            lemma_raw_to_vis_mono(v@, k as int + 1, nv, raw_idx as int, tab_width as int);
        }
        if c == '\t' {
            vis = vis + (tab_width - (vis % tab_width));
        } else {
            vis = vis + 1;
        }
        k += 1;
    }
    vis
}

/// Char index of the char under visual column `target`, walking from char
/// `k` at visual column `vis`: a tab covers the columns up to the next
/// multiple of `w`; past the end, the number of chars.
pub open spec fn vis_to_raw_from(s: Seq<char>, k: int, vis: int, target: int, w: int) -> int
    decreases s.len() - k,
{
    if k < 0 || k >= s.len() {
        s.len() as int
    } else if s[k] == '\t' {
        let sp = w - vis % w;
        if vis + sp > target {
            k
        } else {
            vis_to_raw_from(s, k + 1, vis + sp, target, w)
        }
    } else if vis >= target {
        k
    } else {
        vis_to_raw_from(s, k + 1, vis + 1, target, w)
    }
}

/// Raw char index under visual column `vis_col` of a line (the char count
/// past the end).
pub open spec fn vis_to_raw_spec(s: Seq<char>, vis_col: int, w: int) -> int {
    if vis_col == 0 {
        0
    } else {
        vis_to_raw_from(s, 0, 0, vis_col, w)
    }
}

/// The walk from column 0 reaches a tab only with a positive tab width.
pub open spec fn vis_walk_defined(s: Seq<char>, vis_col: int, w: int) -> bool {
    w > 0 || vis_col == 0 || forall|j: int| 0 <= j < s.len() && j <= vis_col ==> s[j] != '\t'
}

/// Map a visual column of a line to the raw character index under it; a
/// column past the end gives the number of chars of the line.
pub fn vis_to_raw_col(raw: &str, vis_col: usize, tab_width: usize) -> (r: usize)
    requires
        vis_walk_defined(raw@, vis_col as int, tab_width as int),
    ensures
        r as int == vis_to_raw_spec(raw@, vis_col as int, tab_width as int),
{
    if vis_col == 0 {
        return 0;
    }
    let v = chars_of(raw);
    let mut vis: usize = 0;
    let mut k: usize = 0;
    let ghost goal = vis_to_raw_spec(raw@, vis_col as int, tab_width as int);
    while k < v.len()
        invariant
            v@ == raw@,
            vis_col > 0,
            vis_walk_defined(raw@, vis_col as int, tab_width as int),
            k <= v@.len(),
            tab_width == 0 ==> vis == k,
            vis <= vis_col,
            goal == vis_to_raw_spec(raw@, vis_col as int, tab_width as int),
            vis_to_raw_from(v@, k as int, vis as int, vis_col as int, tab_width as int) == goal,
        decreases v@.len() - k,
    {
        let c = v[k];
        if c == '\t' {
            proof {
                if tab_width == 0 {
                    assert(raw@[k as int] != '\t');
                }
            }
            proof {
                assert(vis % tab_width < tab_width) by (nonlinear_arith)
                    requires
                        tab_width > 0,
                ;
            }
            let sp = tab_width - (vis % tab_width);
            if vis >= vis_col || sp > vis_col - vis {
                return k;
            }
            vis = vis + sp;
        } else {
            if vis >= vis_col {
                return k;
            }
            vis = vis + 1;
        }
        k += 1;
    }
    v.len()
}

/// The selected char range `(start, end)` with `start < end`, for an anchor
/// and a caret; nothing without an anchor or for an empty selection.
pub fn sorted_selection(anchor: Option<usize>, caret: usize) -> (r: Option<(usize, usize)>)
    ensures
        r == match anchor {
            Some(a) => if a == caret {
                None
            } else if a < caret {
                Some((a, caret))
            } else {
                Some((caret, a))
            },
            None => None,
        },
{
    match anchor {
        Some(a) => if a == caret {
            None
        } else if a < caret {
            Some((a, caret))
        } else {
            Some((caret, a))
        },
        None => None,
    }
}

/// Logical lines `[first, last_exclusive)` touched by inserting text at
/// `insert_line`, after replacing a selection spanning lines
/// `selected_lines` (first and last, inclusive) if there was one. The
/// insertion reaches `new_line`, the caret's line after it, when the text
/// holds a newline, else it stays on `insert_line`.
pub fn insert_edit_line_range(
    selected_lines: Option<(usize, usize)>,
    insert_line: usize,
    new_line: usize,
    text_has_newline: bool,
) -> (r: (usize, usize))
    requires
        insert_line < usize::MAX,
        new_line < usize::MAX,
        match selected_lines {
            Some((_, el)) => el < usize::MAX,
            None => true,
        },
    ensures
        ({
            let insert_end = if text_has_newline { new_line + 1 } else { insert_line + 1 };
            match selected_lines {
                Some((sl, el)) => r == (
                    if sl < insert_line { sl } else { insert_line },
                    if el + 1 > insert_end { (el + 1) as usize } else { insert_end as usize },
                ),
                None => r == (insert_line, insert_end as usize),
            }
        }),
{
    let insert_end = if text_has_newline { new_line + 1 } else { insert_line + 1 };
    match selected_lines {
        Some((sl, el)) => {
            let start = if sl < insert_line { sl } else { insert_line };
            let end = if el + 1 > insert_end { el + 1 } else { insert_end };
            (start, end)
        },
        None => (insert_line, insert_end),
    }
}

/// Logical lines touched by deleting a selection that spans lines
/// `start_line` to `end_line` (inclusive).
pub fn selection_edit_line_range(start_line: usize, end_line: usize) -> (r: (usize, usize))
    requires
        end_line < usize::MAX,
    ensures
        r == (start_line, (end_line + 1) as usize),
{
    (start_line, end_line + 1)
}

/// Logical lines touched by a backspace of the char at `line`: deleting a
/// line's first char joins it to the line before.
pub fn backspace_line_range(line: usize, is_line_start: bool) -> (r: (usize, usize))
    requires
        line < usize::MAX,
    ensures
        r == (if is_line_start && line > 0 { (line - 1) as usize } else { line }, (line + 1) as usize),
{
    let start = if is_line_start && line > 0 { line - 1 } else { line };
    (start, line + 1)
}

/// Logical lines touched by a forward delete of the char at `line`:
/// deleting a line's end joins the next line, when there is one.
pub fn delete_forward_line_range(line: usize, is_line_end: bool, line_count: usize) -> (r: (usize, usize))
    requires
        line + 2 <= usize::MAX,
    ensures
        r == (line, if is_line_end && line + 1 < line_count { (line + 2) as usize } else { (line + 1) as usize }),
{
    let end = if is_line_end && line + 1 < line_count { line + 2 } else { line + 1 };
    (line, end)
}

/// Law: expanded text holds no tab, and text without tabs is left as it
/// is.
pub proof fn law_expansion_strips_tabs(s: Seq<char>, w: nat)
    requires
        w > 0,
    ensures
        !expand_tabs_spec(s, w).contains('\t'),
        !s.contains('\t') ==> expand_tabs_spec(s, w) == s,
    decreases s.len(),
{
    if s.len() > 0 {
        let d = s.drop_last();
        law_expansion_strips_tabs(d, w);
        let p = expand_tabs_spec(d, w);
        if s.last() == '\t' {
            let q = p + spaces(w as int - (p.len() as int) % (w as int));
            assert forall|i: int| 0 <= i < q.len() implies q[i] != '\t' by {
                if i < p.len() {
                    assert(q[i] == p[i]);
                    assert(!p.contains('\t'));
                    if p[i] == '\t' {
                        assert(p.contains('\t'));
                    }
                }
            }
        } else {
            let q = p.push(s.last());
            assert forall|i: int| 0 <= i < q.len() implies q[i] != '\t' by {
                if i < p.len() {
                    if p[i] == '\t' {
                        assert(p.contains('\t'));
                    }
                }
            }
            if !s.contains('\t') {
                assert forall|i: int| 0 <= i < d.len() implies d[i] != '\t' by {
                    assert(s[i] == d[i]);
                    if d[i] == '\t' {
                        assert(s.contains('\t'));
                    }
                }
                assert(!d.contains('\t'));
                assert(q =~= s);
            }
        }
        if s.last() == '\t' {
            assert(s.contains('\t')) by {
                assert(s[s.len() - 1] == '\t');
            }
        }
    }
}

proof fn lemma_round_up(a: int, w: int)
    requires
        w > 0,
        a >= 0,
    ensures
        (a + (w - a % w)) % w == 0,
        1 <= w - a % w <= w,
{
    vstd::arithmetic::div_mod::lemma_fundamental_div_mod(a, w);
    vstd::arithmetic::div_mod::lemma_mod_bound(a, w);
    assert(a + (w - a % w) == w * (a / w + 1)) by (nonlinear_arith)
        requires
            a == w * (a / w) + a % w,
    ;
    vstd::arithmetic::div_mod::lemma_mod_multiples_basic(a / w + 1, w);
    assert(w * (a / w + 1) == (a / w + 1) * w) by (nonlinear_arith);
}

/// Law: tab stops are measured on the expanded text. Each tab of the line is
/// replaced by between 1 and `w` spaces appended to the expansion of what
/// precedes it, and the expansion up to and including that tab ends on a
/// multiple of `w` display columns; any other character is copied as is.
pub proof fn law_tabs_reach_the_next_stop(s: Seq<char>, w: nat, j: int)
    requires
        w > 0,
        0 <= j < s.len(),
    ensures
        s[j] == '\t' ==> {
            let before = expand_tabs_spec(s.take(j), w);
            let after = expand_tabs_spec(s.take(j + 1), w);
            &&& (after.len() as int) % (w as int) == 0
            &&& before.len() < after.len() <= before.len() + w
            &&& after.take(before.len() as int) == before
            &&& forall|i: int| before.len() <= i < after.len() ==> after[i] == ' '
        },
        s[j] != '\t' ==> expand_tabs_spec(s.take(j + 1), w) == expand_tabs_spec(s.take(j), w).push(s[j]),
{
    let t = s.take(j + 1);
    assert(t.drop_last() =~= s.take(j));
    assert(t.last() == s[j]);
    let p = expand_tabs_spec(s.take(j), w);
    if s[j] == '\t' {
        lemma_round_up(p.len() as int, w as int);
        let q = p + spaces(w as int - (p.len() as int) % (w as int));
        assert(q.take(p.len() as int) =~= p);
    }
}

} // verus!
