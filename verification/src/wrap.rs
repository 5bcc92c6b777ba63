//! Soft wrapping of editor lines at word boundaries.
//!
//! A logical line is split into visual rows no wider than `chars_per_row`
//! tab-expanded columns. The row plan prefers breaking after whitespace, then
//! after a soft separator (`/`, `\`, `-`, `_`), and only falls back to a
//! character break for a single token wider than the row.
use vstd::prelude::*;
use crate::text::{chars_of, string_from_chars, split_nl, join_nl, count_char, strip_cr};

verus! {

/// Tab width used for wrap column math.
pub const WRAP_TAB_WIDTH: usize = 4;

/// Columns taken by `c` when it starts at column `col`.
pub open spec fn char_width(c: char, col: int) -> int {
    if c == '\t' {
        4 - col % 4
    } else {
        1
    }
}

/// Tab-expanded column reached after the first `k` characters of `s`.
pub open spec fn vis_col(s: Seq<char>, k: int) -> int
    decreases k,
{
    if k <= 0 {
        0
    } else {
        let p = vis_col(s, k - 1);
        p + char_width(s[k - 1], p)
    }
}

pub open spec fn is_ws(c: char) -> bool {
    c == ' ' || c == '\t'
}

pub open spec fn is_soft(c: char) -> bool {
    c == '/' || c == '\\' || c == '-' || c == '_'
}

/// Largest `b` in `(lo, hi]` such that `s[b - 1]` is whitespace, or `lo` when
/// there is none.
pub open spec fn last_ws_opp(s: Seq<char>, lo: int, hi: int) -> int
    decreases hi - lo,
{
    if hi <= lo {
        lo
    } else if is_ws(s[hi - 1]) {
        hi
    } else {
        last_ws_opp(s, lo, hi - 1)
    }
}

/// Largest `b` in `(lo, hi]` such that `s[b - 1]` is a soft separator, or
/// `lo` when there is none.
pub open spec fn last_soft_opp(s: Seq<char>, lo: int, hi: int) -> int
    decreases hi - lo,
{
    if hi <= lo {
        lo
    } else if is_soft(s[hi - 1]) {
        hi
    } else {
        last_soft_opp(s, lo, hi - 1)
    }
}

/// Placing character `i` on the row that starts at `lo` would exceed the row.
pub open spec fn overflows(s: Seq<char>, cpr: int, lo: int, i: int) -> bool {
    i > lo && vis_col(s, i + 1) - vis_col(s, lo) > cpr
}

/// Least `i` in `[j, s.len())` that overflows the row starting at `lo`, or
/// `s.len()` when none does.
pub open spec fn first_overflow_from(s: Seq<char>, cpr: int, lo: int, j: int) -> int
    decreases s.len() - j,
{
    if j >= s.len() {
        s.len() as int
    } else if overflows(s, cpr, lo, j) {
        j
    } else {
        first_overflow_from(s, cpr, lo, j + 1)
    }
}

/// Where the next row begins when character `i` overflows the row at `lo`:
/// after the last whitespace, else after the last soft separator, else at `i`.
pub open spec fn break_point(s: Seq<char>, lo: int, i: int) -> int {
    let w = last_ws_opp(s, lo, i);
    if w > lo {
        w
    } else {
        let t = last_soft_opp(s, lo, i);
        if t > lo {
            t
        } else {
            i
        }
    }
}

/// Row starts `(char_start, col_start)` from the row starting at `lo` to the
/// end of the line.
pub open spec fn plan_from(s: Seq<char>, cpr: int, lo: int) -> Seq<(int, int)>
    decreases s.len() - lo,
{
    let i = first_overflow_from(s, cpr, lo, lo);
    if 0 <= lo && i < s.len() {
        proof {
            lemma_first_overflow_bounds(s, cpr, lo, lo);
            lemma_break_point_bounds(s, lo, i);
        }
        seq![(lo, vis_col(s, lo))] + plan_from(s, cpr, break_point(s, lo, i))
    } else {
        seq![(lo, vis_col(s, lo))]
    }
}

/// The row plan of a logical line: one `(char_start, col_start)` per visual
/// row. Without a positive row width, or for an empty line, a single row.
pub open spec fn wrap_plan(s: Seq<char>, cpr: int) -> Seq<(int, int)> {
    if cpr <= 0 || s.len() == 0 {
        seq![(0int, 0int)]
    } else {
        plan_from(s, cpr, 0)
    }
}

pub open spec fn rows_view(rows: Seq<(usize, usize)>) -> Seq<(int, int)> {
    rows.map_values(|p: (usize, usize)| (p.0 as int, p.1 as int))
}

// ---------------------------------------------------------------------------
// Lemmas about the plan.

pub proof fn lemma_vis_col_bounds(s: Seq<char>, k: int)
    requires
        0 <= k,
    ensures
        k <= vis_col(s, k) <= 4 * k,
    decreases k,
{
    if k > 0 {
        lemma_vis_col_bounds(s, k - 1);
    }
}

pub proof fn lemma_vis_col_mono(s: Seq<char>, a: int, b: int)
    requires
        0 <= a <= b,
    ensures
        vis_col(s, b) - vis_col(s, a) >= b - a,
    decreases b - a,
{
    if a < b {
        lemma_vis_col_mono(s, a, b - 1);
    }
}

pub proof fn lemma_first_overflow_bounds(s: Seq<char>, cpr: int, lo: int, j: int)
    requires
        0 <= j,
    ensures
        j <= first_overflow_from(s, cpr, lo, j) || first_overflow_from(s, cpr, lo, j) == s.len(),
        first_overflow_from(s, cpr, lo, j) <= s.len() || j >= s.len(),
        first_overflow_from(s, cpr, lo, j) < s.len() ==> overflows(s, cpr, lo, first_overflow_from(s, cpr, lo, j)),
        first_overflow_from(s, cpr, lo, j) < s.len() ==> first_overflow_from(s, cpr, lo, j) > lo,
    decreases s.len() - j,
{
    if j < s.len() && !overflows(s, cpr, lo, j) {
        lemma_first_overflow_bounds(s, cpr, lo, j + 1);
    }
}

pub proof fn lemma_last_ws_bounds(s: Seq<char>, lo: int, hi: int)
    requires
        lo <= hi,
    ensures
        lo <= last_ws_opp(s, lo, hi) <= hi,
        last_ws_opp(s, lo, hi) > lo ==> is_ws(s[last_ws_opp(s, lo, hi) - 1]),
    decreases hi - lo,
{
    if hi > lo && !is_ws(s[hi - 1]) {
        lemma_last_ws_bounds(s, lo, hi - 1);
    }
}

pub proof fn lemma_last_soft_bounds(s: Seq<char>, lo: int, hi: int)
    requires
        lo <= hi,
    ensures
        lo <= last_soft_opp(s, lo, hi) <= hi,
        last_soft_opp(s, lo, hi) > lo ==> is_soft(s[last_soft_opp(s, lo, hi) - 1]),
    decreases hi - lo,
{
    if hi > lo && !is_soft(s[hi - 1]) {
        lemma_last_soft_bounds(s, lo, hi - 1);
    }
}

pub proof fn lemma_break_point_bounds(s: Seq<char>, lo: int, i: int)
    requires
        lo < i,
    ensures
        lo < break_point(s, lo, i) <= i,
{
    lemma_last_ws_bounds(s, lo, i);
    lemma_last_soft_bounds(s, lo, i);
}

/// With no overflow anywhere in `[j, k)`, the search from `j` and from `k`
/// agree.
proof fn lemma_first_overflow_skip(s: Seq<char>, cpr: int, lo: int, j: int, k: int)
    requires
        0 <= j <= k,
        forall|m: int| j <= m < k && m < s.len() ==> !overflows(s, cpr, lo, m),
    ensures
        first_overflow_from(s, cpr, lo, j) == first_overflow_from(s, cpr, lo, k),
    decreases k - j,
{
    if j < k && j < s.len() {
        lemma_first_overflow_skip(s, cpr, lo, j + 1, k);
    }
}

/// Nothing before the first overflow overflows.
proof fn lemma_first_overflow_none_before(s: Seq<char>, cpr: int, lo: int, j: int)
    requires
        0 <= j,
    ensures
        forall|m: int| j <= m < first_overflow_from(s, cpr, lo, j) && m < s.len() ==> !overflows(s, cpr, lo, m),
    decreases s.len() - j,
{
    if j < s.len() && !overflows(s, cpr, lo, j) {
        lemma_first_overflow_none_before(s, cpr, lo, j + 1);
    }
}


// ---------------------------------------------------------------------------
// Executable wrapping.

/// Columns taken by `ch` when it starts at column `col`.
pub fn wrap_char_col_width(ch: char, col: usize) -> (w: usize)
    ensures
        w == char_width(ch, col as int),
        1 <= w <= 4,
{
    if ch == '\t' {
        WRAP_TAB_WIDTH - (col % WRAP_TAB_WIDTH)
    } else {
        1
    }
}

/// A break may occur after whitespace.
pub fn is_ws_break(ch: char) -> (b: bool)
    ensures
        b == is_ws(ch),
{
    ch == ' ' || ch == '\t'
}

/// A break may also occur after a soft structural separator.
pub fn is_soft_break(ch: char) -> (b: bool)
    ensures
        b == is_soft(ch),
{
    ch == '/' || ch == '\\' || ch == '-' || ch == '_'
}

/// Row plan of a line given as characters.
pub fn plan_line_wrap_chars(chars: &Vec<char>, chars_per_row: usize) -> (rows: Vec<(usize, usize)>)
    requires
        chars@.len() <= usize::MAX / 8,
    ensures
        rows_view(rows@) == wrap_plan(chars@, chars_per_row as int),
{
    let ghost s = chars@;
    let ghost cpr = chars_per_row as int;
    let mut rows: Vec<(usize, usize)> = Vec::new();
    rows.push((0, 0));
    if chars_per_row == 0 || chars.len() == 0 {
        proof {
            assert(rows_view(rows@) =~= seq![(0int, 0int)]);
        }
        return rows;
    }
    let n = chars.len();
    let mut line_col: usize = 0;
    let mut row_start_col: usize = 0;
    let mut last_ws: Option<(usize, usize)> = None;
    let mut last_soft: Option<(usize, usize)> = None;
    let mut i: usize = 0;
    proof {
        assert(rows_view(rows@) =~= seq![(0int, 0int)]);
        assert(rows_view(rows@).drop_last() + plan_from(s, cpr, 0) =~= plan_from(s, cpr, 0));
    }
    while i < n
        invariant
            s == chars@,
            n == s.len(),
            n <= usize::MAX / 8,
            cpr == chars_per_row as int,
            cpr > 0,
            rows@.len() >= 1,
            ({
                let lo = rows@.last().0 as int;
                &&& 0 <= lo <= i <= n
                &&& lo < n
                &&& rows@.last().1 as int == vis_col(s, lo)
                &&& row_start_col as int == vis_col(s, lo)
                &&& line_col as int == vis_col(s, i as int)
                &&& wrap_plan(s, cpr) == rows_view(rows@).drop_last() + plan_from(s, cpr, lo)
                &&& first_overflow_from(s, cpr, lo, lo) == first_overflow_from(s, cpr, lo, i as int)
                &&& (match last_ws {
                    Some((c, col)) => c as int == last_ws_opp(s, lo, i as int) && c as int > lo
                        && col as int == vis_col(s, c as int),
                    None => last_ws_opp(s, lo, i as int) == lo,
                })
                &&& (match last_soft {
                    Some((c, col)) => c as int == last_soft_opp(s, last_ws_opp(s, lo, i as int), i as int)
                        && c as int > last_ws_opp(s, lo, i as int)
                        && col as int == vis_col(s, c as int),
                    None => last_soft_opp(s, last_ws_opp(s, lo, i as int), i as int)
                        == last_ws_opp(s, lo, i as int),
                })
            }),
        decreases n - i, i - rows@.last().0,
    {
        let ghost lo = rows@.last().0 as int;
        let ch = chars[i];
        proof {
            lemma_vis_col_bounds(s, i as int);
            lemma_vis_col_bounds(s, lo);
            lemma_vis_col_mono(s, lo, i as int);
        }
        let w = wrap_char_col_width(ch, line_col);
        let row_start_char = rows[rows.len() - 1].0;
        if line_col + w - row_start_col > chars_per_row && line_col > row_start_col {
            // Character `i` overflows the current, non-empty row.
            proof {
                assert(overflows(s, cpr, lo, i as int));
                assert(first_overflow_from(s, cpr, lo, i as int) == i as int);
                lemma_last_ws_bounds(s, lo, i as int);
                lemma_last_soft_bounds(s, lo, i as int);
                lemma_last_soft_bounds(s, last_ws_opp(s, lo, i as int), i as int);
            }
            let (brk_char, brk_col) = match last_ws {
                Some((c, col)) if c > row_start_char => (c, col),
                _ => match last_soft {
                    Some((c, col)) if c > row_start_char => (c, col),
                    _ => (i, line_col),
                },
            };
            proof {
                assert(brk_char as int == break_point(s, lo, i as int));
                lemma_break_point_bounds(s, lo, i as int);
                // Unfold the plan at `lo`.
                assert(plan_from(s, cpr, lo) == seq![(lo, vis_col(s, lo))] + plan_from(s, cpr, brk_char as int));
            }
            let ghost old_rows = rows@;
            rows.push((brk_char, brk_col));
            proof {
                assert(rows_view(rows@).drop_last() =~= rows_view(old_rows));
                assert(rows_view(old_rows) =~= rows_view(old_rows).drop_last() + seq![(lo, vis_col(s, lo))]);
            }
            row_start_col = brk_col;
            last_ws = None;
            last_soft = None;
            let mut c = brk_char;
            let mut probe = brk_col;
            while c < i
                invariant
                    s == chars@,
                    n == s.len(),
                    n <= usize::MAX / 8,
                    lo < brk_char as int <= c <= i < n,
                    probe as int == vis_col(s, c as int),
                    (match last_ws {
                        Some((b, col)) => b as int == last_ws_opp(s, brk_char as int, c as int)
                            && b as int > brk_char as int && col as int == vis_col(s, b as int),
                        None => last_ws_opp(s, brk_char as int, c as int) == brk_char as int,
                    }),
                    (match last_soft {
                        Some((b, col)) => b as int == last_soft_opp(s, last_ws_opp(s, brk_char as int, c as int), c as int)
                            && b as int > last_ws_opp(s, brk_char as int, c as int)
                            && col as int == vis_col(s, b as int),
                        None => last_soft_opp(s, last_ws_opp(s, brk_char as int, c as int), c as int)
                            == last_ws_opp(s, brk_char as int, c as int),
                    }),
                decreases i - c,
            {
                proof {
                    lemma_vis_col_bounds(s, c as int);
                    lemma_last_ws_bounds(s, brk_char as int, c as int);
                }
                probe = probe + wrap_char_col_width(chars[c], probe);
                if is_ws_break(chars[c]) {
                    last_ws = Some((c + 1, probe));
                    last_soft = None;
                } else if is_soft_break(chars[c]) {
                    last_soft = Some((c + 1, probe));
                }
                c = c + 1;
            }
            proof {
                let nb = brk_char as int;
                lemma_first_overflow_none_before(s, cpr, lo, lo);
                assert forall|m: int| nb <= m < i && m < s.len() implies !overflows(s, cpr, nb, m) by {
                    lemma_vis_col_mono(s, lo, nb);
                    assert(!overflows(s, cpr, lo, m));
                }
                lemma_first_overflow_skip(s, cpr, nb, nb, i as int);
            }
            continue;
        }
        proof {
            assert(!overflows(s, cpr, lo, i as int));
            lemma_first_overflow_skip(s, cpr, lo, i as int, i as int + 1);
            lemma_last_ws_bounds(s, lo, i as int);
        }
        line_col = line_col + w;
        if is_ws_break(ch) {
            last_ws = Some((i + 1, line_col));
            last_soft = None;
        } else if is_soft_break(ch) {
            last_soft = Some((i + 1, line_col));
        }
        i = i + 1;
    }
    proof {
        let lo = rows@.last().0 as int;
        assert(first_overflow_from(s, cpr, lo, n as int) == n);
        assert(plan_from(s, cpr, lo) == seq![(lo, vis_col(s, lo))]);
        assert(rows_view(rows@) =~= rows_view(rows@).drop_last() + seq![(lo, vis_col(s, lo))]);
    }
    rows
}

/// Compute soft-wrap row starts for one logical line: one
/// `(char_start, col_start)` per visual row, row 0 always `(0, 0)`.
pub fn plan_line_wrap(line: &str, chars_per_row: usize) -> (rows: Vec<(usize, usize)>)
    requires
        line@.len() <= usize::MAX / 8,
    ensures
        rows_view(rows@) == wrap_plan(line@, chars_per_row as int),
{
    let chars = chars_of(line);
    plan_line_wrap_chars(&chars, chars_per_row)
}


// ---------------------------------------------------------------------------
// Rows of a planned line, and the text of a wrapped buffer.

/// End (exclusive) of row `k` of plan `p` over a line of `len` characters.
pub open spec fn row_end(p: Seq<(int, int)>, len: int, k: int) -> int {
    if k + 1 < p.len() {
        p[k + 1].0
    } else {
        len
    }
}

/// The text of each visual row of `line` under plan `p`.
pub open spec fn row_texts(line: Seq<char>, p: Seq<(int, int)>) -> Seq<Seq<char>> {
    Seq::new(p.len(), |k: int| line.subrange(p[k].0, row_end(p, line.len() as int, k)))
}

/// `ls` concatenated with no separator.
pub open spec fn concat(ls: Seq<Seq<char>>) -> Seq<char>
    decreases ls.len(),
{
    if ls.len() == 0 {
        Seq::empty()
    } else {
        concat(ls.drop_last()) + ls.last()
    }
}

/// A wrapped logical line: its rows separated by soft `'\n'`s.
pub open spec fn wrapped_line(line: Seq<char>, cpr: int) -> Seq<char> {
    join_nl(row_texts(line, wrap_plan(line, cpr)))
}

/// Number of visual rows a logical line occupies.
pub open spec fn row_count(line: Seq<char>, cpr: int) -> int {
    wrap_plan(line, cpr).len() as int
}

/// The logical lines of `raw`: split on `'\n'`, trailing `'\r'` trimmed.
pub open spec fn logical_lines(raw: Seq<char>) -> Seq<Seq<char>> {
    split_nl(raw).map_values(|l: Seq<char>| strip_cr(l))
}

/// Text produced by wrapping every logical line of `raw`.
pub open spec fn wrapped_text(raw: Seq<char>, cpr: int) -> Seq<char> {
    join_nl(logical_lines(raw).map_values(|l: Seq<char>| wrapped_line(l, cpr)))
}

/// Logical line index of every visual row, for lines `ls` numbered from `first`.
pub open spec fn row_lines(ls: Seq<Seq<char>>, cpr: int, first: int) -> Seq<int>
    decreases ls.len(),
{
    if ls.len() == 0 {
        Seq::empty()
    } else {
        row_lines(ls.drop_last(), cpr, first) + Seq::new(
            row_count(ls.last(), cpr) as nat,
            |r: int| first + ls.len() - 1,
        )
    }
}

/// Number of lines `str::lines` yields for `s`.
pub open spec fn std_lines_count(s: Seq<char>) -> int {
    if s.len() == 0 {
        0
    } else {
        count_char(s, '\n') + if s.last() == '\n' { 0int } else { 1int }
    }
}

pub open spec fn usizes_view(v: Seq<usize>) -> Seq<int> {
    v.map_values(|x: usize| x as int)
}

/// Properties of a row plan: it starts at `(0, 0)`, row starts are strictly
/// increasing character indices inside the line, each row's column is the
/// tab-expanded column of its first character, and every row fits within
/// `cpr` columns unless it holds a single character.
pub open spec fn plan_well_formed(s: Seq<char>, cpr: int, p: Seq<(int, int)>) -> bool {
    &&& p.len() >= 1
    &&& p[0] == (0int, 0int)
    &&& forall|k: int| 0 <= k < p.len() ==> 0 <= #[trigger] p[k].0 < s.len() || (k == 0 && p[k].0 == 0)
    &&& forall|k: int| 0 <= k < p.len() ==> #[trigger] p[k].1 == vis_col(s, p[k].0)
    &&& forall|k: int| 0 <= k < p.len() - 1 ==> #[trigger] p[k].0 < p[k + 1].0
    &&& cpr > 0 ==> forall|k: int| 0 <= k < p.len() ==>
        vis_col(s, row_end(p, s.len() as int, k)) - vis_col(s, #[trigger] p[k].0) <= cpr
        || row_end(p, s.len() as int, k) == p[k].0 + 1
}

proof fn lemma_plan_from_props(s: Seq<char>, cpr: int, lo: int)
    requires
        0 <= lo < s.len(),
        cpr > 0,
    ensures
        ({
            let p = plan_from(s, cpr, lo);
            &&& p.len() >= 1
            &&& p[0] == (lo, vis_col(s, lo))
            &&& forall|k: int| 0 <= k < p.len() ==> lo <= #[trigger] p[k].0 < s.len()
            &&& forall|k: int| 0 <= k < p.len() ==> #[trigger] p[k].1 == vis_col(s, p[k].0)
            &&& forall|k: int| 0 <= k < p.len() - 1 ==> #[trigger] p[k].0 < p[k + 1].0
            &&& forall|k: int| 0 <= k < p.len() ==>
                vis_col(s, row_end(p, s.len() as int, k)) - vis_col(s, #[trigger] p[k].0) <= cpr
                || row_end(p, s.len() as int, k) == p[k].0 + 1
        }),
    decreases s.len() - lo,
{
    let i = first_overflow_from(s, cpr, lo, lo);
    lemma_first_overflow_bounds(s, cpr, lo, lo);
    lemma_first_overflow_none_before(s, cpr, lo, lo);
    let p = plan_from(s, cpr, lo);
    if i < s.len() {
        let b = break_point(s, lo, i);
        lemma_break_point_bounds(s, lo, i);
        lemma_plan_from_props(s, cpr, b);
        let q = plan_from(s, cpr, b);
        assert(p == seq![(lo, vis_col(s, lo))] + q);
        assert forall|k: int| 0 <= k < p.len() implies
            vis_col(s, row_end(p, s.len() as int, k)) - vis_col(s, #[trigger] p[k].0) <= cpr
            || row_end(p, s.len() as int, k) == p[k].0 + 1 by {
            if k == 0 {
                assert(row_end(p, s.len() as int, 0) == b);
                if b > lo + 1 {
                    assert(!overflows(s, cpr, lo, b - 1));
                }
            } else {
                assert(p[k] == q[k - 1]);
                assert(row_end(p, s.len() as int, k) == row_end(q, s.len() as int, k - 1));
            }
        }
        assert forall|k: int| 0 <= k < p.len() - 1 implies #[trigger] p[k].0 < p[k + 1].0 by {
            if k > 0 {
                assert(p[k] == q[k - 1]);
                assert(p[k + 1] == q[k]);
            }
        }
        assert forall|k: int| 0 <= k < p.len() implies lo <= #[trigger] p[k].0 < s.len() by {
            if k > 0 {
                assert(p[k] == q[k - 1]);
            }
        }
        assert forall|k: int| 0 <= k < p.len() implies #[trigger] p[k].1 == vis_col(s, p[k].0) by {
            if k > 0 {
                assert(p[k] == q[k - 1]);
            }
        }
    } else {
        assert(p == seq![(lo, vis_col(s, lo))]);
        assert(row_end(p, s.len() as int, 0) == s.len());
        if s.len() > lo + 1 {
            assert(!overflows(s, cpr, lo, s.len() - 1));
        }
    }
}

/// A row plan is well formed (see [`plan_well_formed`]).
pub proof fn lemma_wrap_plan_well_formed(s: Seq<char>, cpr: int)
    ensures
        plan_well_formed(s, cpr, wrap_plan(s, cpr)),
{
    if cpr > 0 && s.len() > 0 {
        lemma_plan_from_props(s, cpr, 0);
    } else {
        let p = wrap_plan(s, cpr);
        assert(p == seq![(0int, 0int)]);
        if cpr > 0 {
            assert(row_end(p, s.len() as int, 0) == 0);
        }
    }
}

proof fn lemma_concat_rows(line: Seq<char>, p: Seq<(int, int)>, m: int)
    requires
        1 <= m <= p.len(),
        p[0].0 == 0,
        forall|k: int| 0 <= k < p.len() - 1 ==> #[trigger] p[k].0 < p[k + 1].0,
        forall|k: int| 0 <= k < p.len() ==> 0 <= #[trigger] p[k].0 <= line.len(),
    ensures
        concat(row_texts(line, p).take(m)) =~= line.subrange(0, row_end(p, line.len() as int, m - 1)),
    decreases m,
{
    let rt = row_texts(line, p);
    if m > 1 {
        lemma_concat_rows(line, p, m - 1);
        assert(rt.take(m).drop_last() =~= rt.take(m - 1));
        assert(row_end(p, line.len() as int, m - 2) == p[m - 1].0);
        let e = row_end(p, line.len() as int, m - 1);
        assert(p[m - 1].0 <= e <= line.len()) by {
            if m < p.len() {
                assert(p[m - 1].0 < p[m].0);
            }
        }
        assert(rt.take(m).last() == line.subrange(p[m - 1].0, e));
        assert(line.subrange(0, p[m - 1].0) + line.subrange(p[m - 1].0, e) =~= line.subrange(0, e));
    } else {
        assert(rt.take(1).drop_last() =~= Seq::<Seq<char>>::empty());
        let e = row_end(p, line.len() as int, 0);
        assert(0 <= e <= line.len()) by {
            if 1 < p.len() {
                assert(p[0].0 < p[1].0);
            }
        }
        assert(rt.take(1).last() == line.subrange(0, e));
        assert(concat(rt.take(1)) =~= concat(rt.take(1).drop_last()) + rt.take(1).last());
    }
}

/// Wrapping only splits a line: its rows, concatenated, give back the line.
pub proof fn lemma_rows_partition_line(line: Seq<char>, cpr: int)
    ensures
        concat(row_texts(line, wrap_plan(line, cpr))) == line,
{
    let p = wrap_plan(line, cpr);
    lemma_wrap_plan_well_formed(line, cpr);
    lemma_concat_rows(line, p, p.len() as int);
    assert(row_texts(line, p).take(p.len() as int) =~= row_texts(line, p));
}

/// Every row fits the wrap width, except a row holding one character that is
/// itself wider than the row.
pub proof fn lemma_rows_fit_width(line: Seq<char>, cpr: int, k: int)
    requires
        cpr > 0,
        0 <= k < row_count(line, cpr),
    ensures
        row_texts(line, wrap_plan(line, cpr))[k].len() <= cpr
            || row_texts(line, wrap_plan(line, cpr))[k].len() == 1,
{
    let p = wrap_plan(line, cpr);
    lemma_wrap_plan_well_formed(line, cpr);
    let e = row_end(p, line.len() as int, k);
    if k + 1 < p.len() {
        assert(p[k].0 < p[k + 1].0);
    }
    lemma_vis_col_mono(line, p[k].0, e);
}

/// Project a caret's visual column onto its wrapped sub-row: the last row
/// whose start column is at or before the caret, and the column within it.
pub fn wrapped_caret_subrow_col(line: &str, chars_per_row: usize, caret_vis_col: usize) -> (r: (
    usize,
    usize,
))
    requires
        line@.len() <= usize::MAX / 8,
    ensures
        chars_per_row == 0 ==> r == (0usize, caret_vis_col),
        chars_per_row > 0 ==> ({
            let p = wrap_plan(line@, chars_per_row as int);
            &&& r.0 < p.len()
            &&& p[r.0 as int].1 <= caret_vis_col
            &&& (r.0 + 1 < p.len() ==> p[r.0 + 1].1 > caret_vis_col)
            &&& r.1 == caret_vis_col - p[r.0 as int].1
        }),
{
    if chars_per_row == 0 {
        return (0, caret_vis_col);
    }
    let rows = plan_line_wrap(line, chars_per_row);
    let ghost p = wrap_plan(line@, chars_per_row as int);
    proof {
        lemma_wrap_plan_well_formed(line@, chars_per_row as int);
        assert(rows@[0].1 as int == p[0].1);
    }
    let mut sub_row: usize = 0;
    let mut idx: usize = 0;
    while idx < rows.len()
        invariant
            rows_view(rows@) == p,
            p.len() >= 1,
            p[0].1 == 0,
            sub_row < rows.len(),
            idx <= rows.len(),
            p[sub_row as int].1 <= caret_vis_col,
            idx > 0 ==> sub_row == idx - 1,
            idx == 0 ==> sub_row == 0,
        ensures
            idx < rows.len() ==> p[idx as int].1 > caret_vis_col && sub_row + 1 == idx,
            idx == rows.len() ==> sub_row + 1 == rows.len(),
        decreases rows.len() - idx,
    {
        let (_, col_start) = rows[idx];
        proof {
            assert(rows_view(rows@)[idx as int].1 == col_start as int);
        }
        if col_start <= caret_vis_col {
            sub_row = idx;
        } else {
            break;
        }
        idx = idx + 1;
    }
    let (_, col_start) = rows[sub_row];
    proof {
        assert(rows_view(rows@)[sub_row as int].1 == col_start as int);
    }
    (sub_row, caret_vis_col - col_start)
}


pub proof fn lemma_join_nl_push(ls: Seq<Seq<char>>, x: Seq<char>)
    ensures
        join_nl(ls.push(x)) == if ls.len() == 0 {
            x
        } else {
            join_nl(ls) + seq!['\n'] + x
        },
{
    assert(ls.push(x).drop_last() =~= ls);
}

pub proof fn lemma_plan_len_bound(s: Seq<char>, cpr: int)
    ensures
        row_count(s, cpr) <= s.len() + 1,
        row_count(s, cpr) >= 1,
{
    let p = wrap_plan(s, cpr);
    lemma_wrap_plan_well_formed(s, cpr);
    assert forall|k: int| 0 <= k < p.len() implies p[k].0 >= k by {
        lemma_plan_starts_grow(p, k);
    }
    if p.len() > 1 {
        assert(p[p.len() - 1].0 >= p.len() - 1);
    }
}

proof fn lemma_plan_starts_grow(p: Seq<(int, int)>, k: int)
    requires
        0 <= k < p.len(),
        p[0].0 >= 0,
        forall|j: int| 0 <= j < p.len() - 1 ==> #[trigger] p[j].0 < p[j + 1].0,
    ensures
        p[k].0 >= k,
    decreases k,
{
    if k > 0 {
        lemma_plan_starts_grow(p, k - 1);
        assert(p[k - 1].0 < p[k].0);
    }
}

/// Sum over `ls` of `len + 1`.
pub open spec fn sum_len1(ls: Seq<Seq<char>>) -> int
    decreases ls.len(),
{
    if ls.len() == 0 {
        0
    } else {
        sum_len1(ls.drop_last()) + ls.last().len() + 1
    }
}

proof fn lemma_split_nl_size(s: Seq<char>)
    ensures
        sum_len1(split_nl(s)) == s.len() + 1,
        split_nl(s).len() >= 1,
        split_nl(s).len() <= s.len() + 1,
    decreases s.len(),
{
    if s.len() == 0 {
        let e = seq![Seq::<char>::empty()];
        assert(e.drop_last() =~= Seq::<Seq<char>>::empty());
        assert(sum_len1(e) == sum_len1(e.drop_last()) + e.last().len() + 1);
    } else {
        lemma_split_nl_size(s.drop_last());
        let prev = split_nl(s.drop_last());
        if s.last() == '\n' {
            assert(split_nl(s) == prev.push(Seq::<char>::empty()));
            assert(prev.push(Seq::<char>::empty()).drop_last() =~= prev);
            let q = prev.push(Seq::<char>::empty());
            assert(q.drop_last() =~= prev);
            assert(q.last() =~= Seq::<char>::empty());
            assert(q.len() > 0);
            assert(sum_len1(q) == sum_len1(q.drop_last()) + q.last().len() + 1);
            assert(sum_len1(q) == sum_len1(prev) + 1);
        } else {
            assert(split_nl(s) == prev.update(prev.len() - 1, prev.last().push(s.last())));
            let u = prev.update(prev.len() - 1, prev.last().push(s.last()));
            assert(u.drop_last() =~= prev.drop_last());
            assert(sum_len1(prev) == sum_len1(prev.drop_last()) + prev.last().len() + 1);
            assert(sum_len1(u) == sum_len1(u.drop_last()) + u.last().len() + 1);
        }
    }
}

pub proof fn lemma_v2l_bound(ls: Seq<Seq<char>>, cpr: int, first: int)
    ensures
        row_lines(ls, cpr, first).len() <= sum_len1(ls),
    decreases ls.len(),
{
    if ls.len() > 0 {
        lemma_v2l_bound(ls.drop_last(), cpr, first);
        lemma_plan_len_bound(ls.last(), cpr);
    }
}

proof fn lemma_sum_strip_cr(ls: Seq<Seq<char>>)
    ensures
        sum_len1(ls.map_values(|l: Seq<char>| strip_cr(l))) <= sum_len1(ls),
        ls.map_values(|l: Seq<char>| strip_cr(l)).len() == ls.len(),
    decreases ls.len(),
{
    if ls.len() > 0 {
        lemma_sum_strip_cr(ls.drop_last());
        assert(ls.map_values(|l: Seq<char>| strip_cr(l)).drop_last() =~= ls.drop_last().map_values(
            |l: Seq<char>| strip_cr(l),
        ));
    }
}

/// The visual rows of `raw` number at most one more than its characters.
pub proof fn lemma_visual_rows_bound(raw: Seq<char>, cpr: int, first: int)
    ensures
        row_lines(logical_lines(raw), cpr, first).len() <= raw.len() + 1,
        logical_lines(raw).len() <= raw.len() + 1,
{
    lemma_split_nl_size(raw);
    lemma_sum_strip_cr(split_nl(raw));
    lemma_v2l_bound(logical_lines(raw), cpr, first);
}

/// Emit one planned line into `out`, recording its rows.
fn emit_wrapped_line(
    out: &mut Vec<char>,
    line: &Vec<char>,
    chars_per_row: usize,
    v2l: &mut Vec<usize>,
    logical_idx: usize,
    total_visual: &mut usize,
)
    requires
        line@.len() <= usize::MAX / 8,
        chars_per_row > 0,
        *old(total_visual) + row_count(line@, chars_per_row as int) <= usize::MAX,
    ensures
        final(out)@ == old(out)@ + wrapped_line(line@, chars_per_row as int),
        final(v2l)@ == old(v2l)@ + Seq::new(
            row_count(line@, chars_per_row as int) as nat,
            |r: int| logical_idx,
        ),
        *final(total_visual) == *old(total_visual) + row_count(line@, chars_per_row as int),
{
    let rows = plan_line_wrap_chars(line, chars_per_row);
    let ghost p = wrap_plan(line@, chars_per_row as int);
    let ghost rt = row_texts(line@, p);
    let ghost out0 = out@;
    let ghost v0 = v2l@;
    let ghost t0 = *total_visual;
    proof {
        lemma_wrap_plan_well_formed(line@, chars_per_row as int);
    }
    let mut k: usize = 0;
    while k < rows.len()
        invariant
            rows_view(rows@) == p,
            plan_well_formed(line@, chars_per_row as int, p),
            rt == row_texts(line@, p),
            k <= rows.len(),
            out@ == out0 + join_nl(rt.take(k as int)),
            v2l@ == v0 + Seq::new(k as nat, |r: int| logical_idx),
            *total_visual == t0 + k,
            t0 + p.len() <= usize::MAX,
        decreases rows.len() - k,
    {
        proof {
            assert(rows_view(rows@)[k as int] == p[k as int]);
            if k + 1 < rows.len() {
                assert(rows_view(rows@)[k + 1] == p[k + 1]);
                assert(p[k as int].0 < p[k + 1].0);
            }
        }
        let ghost before = out@;
        if k > 0 {
            out.push('\n');
        }
        let ghost mid = out@;
        let start = rows[k].0;
        let end = if k + 1 < rows.len() {
            rows[k + 1].0
        } else {
            line.len()
        };
        assert(end as int == row_end(p, line@.len() as int, k as int));
        let mut ci = start;
        while ci < end
            invariant
                start <= ci <= end <= line@.len(),
                out@ == mid + line@.subrange(start as int, ci as int),
            decreases end - ci,
        {
            out.push(line[ci]);
            proof {
                assert(line@.subrange(start as int, ci + 1) =~= line@.subrange(start as int, ci as int).push(line@[ci as int]));
            }
            ci = ci + 1;
        }
        proof {
            assert(rt[k as int] == line@.subrange(start as int, end as int));
            assert(rt.take(k + 1) =~= rt.take(k as int).push(rt[k as int]));
            lemma_join_nl_push(rt.take(k as int), rt[k as int]);
            if k > 0 {
                assert(out@ =~= out0 + join_nl(rt.take(k + 1)));
            } else {
                assert(out@ =~= out0 + join_nl(rt.take(k + 1)));
            }
        }
        v2l.push(logical_idx);
        *total_visual = *total_visual + 1;
        proof {
            assert(v2l@ =~= v0 + Seq::new((k + 1) as nat, |r: int| logical_idx));
        }
        k = k + 1;
    }
    proof {
        assert(rt.take(k as int) =~= rt);
    }
}

/// Split `raw_text` into logical lines and soft-wrap each one, inserting a
/// `'\n'` at every row start after the first. Records the logical line of
/// every visual row in `visual_to_logical` and counts rows in `total_visual`.
/// With `chars_per_row == 0` the text is returned unchanged and one entry per
/// `str::lines` line is recorded.
pub fn wrap_text(
    raw_text: &str,
    chars_per_row: usize,
    visual_to_logical: &mut Vec<usize>,
    first_logical_line: usize,
    total_visual: &mut usize,
) -> (out: String)
    requires
        raw_text@.len() <= usize::MAX / 8,
        first_logical_line + raw_text@.len() + 1 <= usize::MAX,
        *old(total_visual) + raw_text@.len() + 1 <= usize::MAX,
    ensures
        chars_per_row > 0 ==> {
            &&& out@ == wrapped_text(raw_text@, chars_per_row as int)
            &&& usizes_view(final(visual_to_logical)@) == usizes_view(old(visual_to_logical)@)
                + row_lines(logical_lines(raw_text@), chars_per_row as int, first_logical_line as int)
            &&& *final(total_visual) == *old(total_visual) + row_lines(
                logical_lines(raw_text@),
                chars_per_row as int,
                first_logical_line as int,
            ).len()
        },
        chars_per_row == 0 ==> {
            &&& out@ == raw_text@
            &&& usizes_view(final(visual_to_logical)@) == usizes_view(old(visual_to_logical)@)
                + Seq::new(std_lines_count(raw_text@) as nat, |i: int| first_logical_line + i)
            &&& *final(total_visual) == *old(total_visual) + if std_lines_count(raw_text@) > 0 {
                std_lines_count(raw_text@)
            } else {
                1
            }
        },
{
    let chars = chars_of(raw_text);
    let n = chars.len();
    let ghost s = chars@;
    let ghost v0 = visual_to_logical@;
    let ghost t0 = *total_visual;
    if chars_per_row == 0 {
        // Count the lines `str::lines` yields.
        let mut newlines: usize = 0;
        let mut p: usize = 0;
        while p < n
            invariant
                s == chars@,
                n == s.len(),
                p <= n,
                newlines as int == count_char(s.take(p as int), '\n'),
                newlines <= p,
                (p > 0 && s[p - 1] != '\n') ==> newlines + 1 <= p,
            decreases n - p,
        {
            proof {
                assert(s.take(p + 1).drop_last() =~= s.take(p as int));
            }
            if chars[p] == '\n' {
                newlines = newlines + 1;
            }
            p = p + 1;
        }
        proof {
            assert(s.take(n as int) =~= s);
        }
        let count = if n == 0 {
            0
        } else if chars[n - 1] == '\n' {
            newlines
        } else {
            newlines + 1
        };
        let mut i: usize = 0;
        while i < count
            invariant
                count as int == std_lines_count(s),
                count <= n,
                first_logical_line + n + 1 <= usize::MAX,
                i <= count,
                usizes_view(visual_to_logical@) == usizes_view(v0) + Seq::new(i as nat, |j: int| first_logical_line + j),
            decreases count - i,
        {
            let ghost vb = visual_to_logical@;
            visual_to_logical.push(first_logical_line + i);
            proof {
                assert(usizes_view(visual_to_logical@) =~= usizes_view(vb).push((first_logical_line + i) as int));
                assert(usizes_view(visual_to_logical@) =~= usizes_view(v0) + Seq::new((i + 1) as nat, |j: int| first_logical_line + j));
            }
            i = i + 1;
        }
        *total_visual = *total_visual + if count > 0 { count } else { 1 };
        return string_from_chars(chars.as_slice());
    }
    let ghost cpr = chars_per_row as int;
    proof {
        lemma_visual_rows_bound(s, cpr, first_logical_line as int);
    }
    let mut out: Vec<char> = Vec::new();
    let mut cur: Vec<char> = Vec::new();
    let mut li: usize = 0;
    let mut p: usize = 0;
    proof {
        assert(s.take(0) =~= Seq::<char>::empty());
        assert(split_nl(s.take(0)).drop_last() =~= Seq::<Seq<char>>::empty());
    }
    loop
        invariant
            s == chars@,
            s == raw_text@,
            v0 == old(visual_to_logical)@,
            t0 == *old(total_visual),
            n == s.len(),
            n <= usize::MAX / 8,
            cpr == chars_per_row as int,
            cpr > 0,
            p <= n,
            first_logical_line + n + 1 <= usize::MAX,
            t0 + n + 1 <= usize::MAX,
            ({
                let sp = split_nl(s.take(p as int));
                let done = sp.drop_last().map_values(|l: Seq<char>| strip_cr(l));
                &&& sp.len() == li + 1
                &&& cur@.len() <= p
                &&& sp.last() == cur@
                &&& out@ == join_nl(done.map_values(|l: Seq<char>| wrapped_line(l, cpr)))
                &&& usizes_view(visual_to_logical@) == usizes_view(v0) + row_lines(
                    done,
                    cpr,
                    first_logical_line as int,
                )
                &&& *total_visual == t0 + row_lines(done, cpr, first_logical_line as int).len()
            }),
        decreases n - p,
    {
        let ghost sp = split_nl(s.take(p as int));
        let ghost done = sp.drop_last().map_values(|l: Seq<char>| strip_cr(l));
        let at_end = p == n;
        let is_break = !at_end && chars[p] == '\n';
        if at_end || is_break {
            // The current logical line is complete.
            let ghost raw_line = cur@;
            if cur.len() > 0 && cur[cur.len() - 1] == '\r' {
                cur.pop();
            }
            assert(cur@ == strip_cr(raw_line));
            let ghost done2 = done.push(cur@);
            proof {
                lemma_split_nl_size(s.take(p as int));
                lemma_split_nl_size(s);
                assert(s.take(n as int) =~= s);
                lemma_visual_rows_bound(s.take(p as int), cpr, first_logical_line as int);
                assert(logical_lines(s.take(p as int)) =~= done2) by {
                    assert(sp =~= sp.drop_last().push(sp.last()));
                }
                lemma_plan_len_bound(cur@, cpr);
                assert(row_lines(done2, cpr, first_logical_line as int).len()
                    == row_lines(done, cpr, first_logical_line as int).len() + row_count(cur@, cpr)) by {
                    assert(done2.drop_last() =~= done);
                }
                assert(split_nl(s.take(p as int)).len() <= p + 1);
                assert(logical_lines(s.take(p as int)).len() <= n + 1);
            }
            let ghost out_before = out@;
            let ghost v_before = visual_to_logical@;
            if li > 0 {
                out.push('\n');
            }
            emit_wrapped_line(&mut out, &cur, chars_per_row, visual_to_logical, first_logical_line + li, total_visual);
            proof {
                let wl = |l: Seq<char>| wrapped_line(l, cpr);
                assert(done2.map_values(wl) =~= done.map_values(wl).push(wrapped_line(cur@, cpr)));
                lemma_join_nl_push(done.map_values(wl), wrapped_line(cur@, cpr));
                assert(out@ =~= join_nl(done2.map_values(wl)));
                assert(done2.drop_last() =~= done);
                assert(done.len() == li);
                let added = Seq::new(row_count(cur@, cpr) as nat, |r: int| (first_logical_line + li) as usize);
                assert(visual_to_logical@ == v_before + added);
                assert(usizes_view(visual_to_logical@) =~= usizes_view(v_before) + usizes_view(added));
                assert(usizes_view(added) =~= Seq::new(
                    row_count(done2.last(), cpr) as nat,
                    |r: int| first_logical_line + done2.len() - 1,
                ));
                assert(usizes_view(visual_to_logical@) =~= usizes_view(v0) + row_lines(done2, cpr, first_logical_line as int));
            }
            if at_end {
                proof {
                    assert(s.take(p as int) =~= s);
                    assert(logical_lines(s) =~= done2) by {
                        assert(sp =~= sp.drop_last().push(sp.last()));
                    }
                    assert(logical_lines(s).map_values(|l: Seq<char>| wrapped_line(l, chars_per_row as int))
                        =~= done2.map_values(|l: Seq<char>| wrapped_line(l, cpr)));
                    assert(out@ == wrapped_text(raw_text@, chars_per_row as int));
                    assert(row_lines(logical_lines(raw_text@), chars_per_row as int, first_logical_line as int)
                        == row_lines(done2, cpr, first_logical_line as int));
                }
                let res = string_from_chars(out.as_slice());
                proof {
                    assert(res@ == wrapped_text(raw_text@, chars_per_row as int));
                    assert(usizes_view(visual_to_logical@) == usizes_view(v0)
                        + row_lines(logical_lines(raw_text@), chars_per_row as int, first_logical_line as int));
                    assert(*total_visual == t0 + row_lines(logical_lines(raw_text@), chars_per_row as int, first_logical_line as int).len());
                }
                return res;
            }
            cur.clear();
            li = li + 1;
            proof {
                assert(s.take(p + 1).drop_last() =~= s.take(p as int));
                let sp2 = split_nl(s.take(p + 1));
                assert(sp2 == sp.push(Seq::<char>::empty()));
                assert(sp2.drop_last() =~= sp);
                assert(sp2.drop_last().map_values(|l: Seq<char>| strip_cr(l)) =~= done2) by {
                    assert(sp =~= sp.drop_last().push(sp.last()));
                }
            }
        } else {
            cur.push(chars[p]);
            proof {
                assert(s.take(p + 1).drop_last() =~= s.take(p as int));
                let sp2 = split_nl(s.take(p + 1));
                assert(sp2 == sp.update(sp.len() - 1, sp.last().push(s[p as int])));
                assert(sp2.drop_last() =~= sp.drop_last());
            }
        }
        p = p + 1;
    }
}

} // verus!
