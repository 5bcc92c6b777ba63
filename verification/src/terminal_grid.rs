//! Projection of a terminal screen grid into a draw payload: each row's
//! text up to its last non-blank cell, coalesced into runs of one
//! foreground color, and its non-default backgrounds coalesced into
//! run-length cells. Colors are palette ids.
use vstd::prelude::*;
use crate::text::string_from_chars;

verus! {

/// One cell of the terminal screen.
#[derive(Clone, Copy, Debug, PartialEq, Eq, Structural)]
pub struct GridCell {
    pub ch: char,
    pub fg: u32,
    pub bg: u32,
    /// The right half of a wide character (drawn by the cell before it).
    pub wide_continuation: bool,
}

/// Index of the last cell of `row` that is not a blank, or -1.
pub open spec fn last_non_blank(row: Seq<GridCell>) -> int
    decreases row.len(),
{
    if row.len() == 0 {
        -1
    } else if row.last().ch != ' ' {
        row.len() - 1
    } else {
        last_non_blank(row.drop_last())
    }
}

/// Characters of the first `k` cells, wide-character halves skipped.
pub open spec fn row_text_upto(row: Seq<GridCell>, k: int) -> Seq<char>
    decreases k,
{
    if k <= 0 {
        Seq::empty()
    } else {
        let p = row_text_upto(row, k - 1);
        if row[k - 1].wide_continuation {
            p
        } else {
            p.push(row[k - 1].ch)
        }
    }
}

/// Foreground runs of the first `k` cells: consecutive shown cells of one
/// color form one run; wide-character halves are skipped.
pub open spec fn fg_runs_upto(row: Seq<GridCell>, k: int) -> Seq<(Seq<char>, u32)>
    decreases k,
{
    if k <= 0 {
        Seq::empty()
    } else {
        let r = fg_runs_upto(row, k - 1);
        let c = row[k - 1];
        if c.wide_continuation {
            r
        } else if r.len() > 0 && r.last().1 == c.fg {
            r.update(r.len() - 1, (r.last().0.push(c.ch), c.fg))
        } else {
            r.push((seq![c.ch], c.fg))
        }
    }
}

/// Background runs `(start, len, color)` of the first `k` cells: maximal
/// stretches of one color other than the default background.
pub open spec fn bg_runs_upto(row: Seq<GridCell>, k: int, default_bg: u32) -> Seq<(usize, usize, u32)>
    decreases k,
{
    if k <= 0 {
        Seq::empty()
    } else {
        let r = bg_runs_upto(row, k - 1, default_bg);
        let c = row[k - 1];
        if c.bg == default_bg {
            r
        } else if r.len() > 0 && r.last().0 + r.last().1 == k - 1 && r.last().2 == c.bg {
            r.update(r.len() - 1, (r.last().0, (r.last().1 + 1) as usize, c.bg))
        } else {
            r.push(((k - 1) as usize, 1usize, c.bg))
        }
    }
}

/// Text of the rows, each trimmed after its last non-blank cell and ended
/// by a newline.
pub open spec fn grid_content(rows: Seq<Seq<GridCell>>) -> Seq<char>
    decreases rows.len(),
{
    if rows.len() == 0 {
        Seq::empty()
    } else {
        let row = rows.last();
        grid_content(rows.drop_last()) + row_text_upto(row, last_non_blank(row) + 1) + seq!['\n']
    }
}

/// Foreground runs of the rows, each row's runs followed by a newline run
/// in the default foreground.
pub open spec fn grid_spans(rows: Seq<Seq<GridCell>>, default_fg: u32) -> Seq<(Seq<char>, u32)>
    decreases rows.len(),
{
    if rows.len() == 0 {
        Seq::empty()
    } else {
        let row = rows.last();
        grid_spans(rows.drop_last(), default_fg) + fg_runs_upto(row, last_non_blank(row) + 1) + seq![
            (seq!['\n'], default_fg),
        ]
    }
}

/// Background cells `(row, start, len, color)` of the rows.
pub open spec fn grid_bg(rows: Seq<Seq<GridCell>>, default_bg: u32) -> Seq<(usize, usize, usize, u32)>
    decreases rows.len(),
{
    if rows.len() == 0 {
        Seq::empty()
    } else {
        let i = (rows.len() - 1) as usize;
        let row = rows.last();
        grid_bg(rows.drop_last(), default_bg) + bg_runs_upto(row, row.len() as int, default_bg).map_values(
            |b: (usize, usize, u32)| (i, b.0, b.1, b.2),
        )
    }
}

/// Draw payload of a terminal frame.
pub struct GridDecoration {
    pub title: String,
    pub content: String,
    pub content_spans: Vec<(String, u32)>,
    pub cell_bg: Vec<(usize, usize, usize, u32)>,
    pub cursor: Option<(usize, usize)>,
}

/// Views of colored runs.
pub open spec fn spans_view(v: Seq<(String, u32)>) -> Seq<(Seq<char>, u32)> {
    v.map_values(|r: (String, u32)| (r.0@, r.1))
}

proof fn lemma_last_non_blank_bounds(row: Seq<GridCell>)
    ensures
        -1 <= last_non_blank(row) < row.len(),
        last_non_blank(row) >= 0 ==> row[last_non_blank(row)].ch != ' ',
        forall|j: int| last_non_blank(row) < j < row.len() ==> row[j].ch == ' ',
    decreases row.len(),
{
    if row.len() > 0 && row.last().ch == ' ' {
        lemma_last_non_blank_bounds(row.drop_last());
        assert forall|j: int| last_non_blank(row) < j < row.len() implies row[j].ch == ' ' by {
            if j < row.len() - 1 {
                assert(row.drop_last()[j] == row[j]);
            }
        }
    }
}

/// Index of the last non-blank cell of a row, or -1 as `None`.
fn last_non_blank_exec(row: &Vec<GridCell>) -> (r: Option<usize>)
    ensures
        match r {
            Some(i) => last_non_blank(row@) == i,
            None => last_non_blank(row@) == -1,
        },
{
    let mut k: usize = row.len();
    proof {
        assert(row@.take(k as int) =~= row@);
    }
    while k > 0
        invariant
            k <= row@.len(),
            last_non_blank(row@.take(k as int)) == last_non_blank(row@),
        decreases k,
    {
        let ghost t = row@.take(k as int);
        proof {
            assert(t.drop_last() =~= row@.take(k - 1));
            assert(t.last() == row@[k - 1]);
        }
        if row[k - 1].ch != ' ' {
            return Some(k - 1);
        }
        k -= 1;
    }
    None
}

/// The foreground runs and text of the first `last + 1` cells of a row.
fn row_runs(row: &Vec<GridCell>, n: usize, out: &mut Vec<(String, u32)>, content: &mut Vec<char>)
    requires
        n <= row@.len(),
    ensures
        spans_view(final(out)@) == spans_view(old(out)@) + fg_runs_upto(row@, n as int),
        final(content)@ == old(content)@ + row_text_upto(row@, n as int),
{
    let ghost out0 = spans_view(out@);
    let ghost content0 = content@;
    let mut cur: Vec<char> = Vec::new();
    let mut cur_color: u32 = 0;
    let mut done: Vec<(String, u32)> = Vec::new();
    let mut col: usize = 0;
    while col < n
        invariant
            col <= n <= row@.len(),
            cur@.len() == 0 ==> done@.len() == 0,
            fg_runs_upto(row@, col as int) == spans_view(done@) + (if cur@.len() > 0 {
                seq![(cur@, cur_color)]
            } else {
                Seq::empty()
            }),
            content@ == content0 + row_text_upto(row@, col as int),
            spans_view(out@) == out0,
        decreases n - col,
    {
        let c = row[col];
        if !c.wide_continuation {
            let ghost r = fg_runs_upto(row@, col as int);
            if cur.len() > 0 && cur_color == c.fg {
                let ghost c0 = cur@;
                cur.push(c.ch);
                proof {
                    assert(r.len() > 0 && r.last() == (c0, cur_color));
                    assert(fg_runs_upto(row@, col + 1) =~= spans_view(done@) + seq![(cur@, cur_color)]);
                }
            } else {
                if cur.len() > 0 {
                    let s = string_from_chars(cur.as_slice());
                    let ghost d0 = spans_view(done@);
                    done.push((s, cur_color));
                    proof {
                        assert(spans_view(done@) =~= d0.push((s@, cur_color)));
                    }
                }
                cur = Vec::new();
                cur.push(c.ch);
                cur_color = c.fg;
                proof {
                    assert(cur@ =~= seq![c.ch]);
                    assert(fg_runs_upto(row@, col + 1) =~= spans_view(done@) + seq![(cur@, cur_color)]);
                }
            }
            content.push(c.ch);
        }
        col += 1;
    }
    if cur.len() > 0 {
        let s = string_from_chars(cur.as_slice());
        let ghost d0 = spans_view(done@);
        done.push((s, cur_color));
        proof {
            assert(spans_view(done@) =~= d0.push((s@, cur_color)));
        }
    }
    let ghost o = spans_view(out@);
    let ghost dv = spans_view(done@);
    out.append(&mut done);
    proof {
        assert(spans_view(out@) =~= o + dv);
        assert(dv =~= fg_runs_upto(row@, n as int));
    }
}

/// The background runs of a row, tagged with the row index.
fn row_bg(row: &Vec<GridCell>, i: usize, default_bg: u32, out: &mut Vec<(usize, usize, usize, u32)>)
    ensures
        final(out)@ == old(out)@ + bg_runs_upto(row@, row@.len() as int, default_bg).map_values(
            |b: (usize, usize, u32)| (i, b.0, b.1, b.2),
        ),
{
    let mut runs: Vec<(usize, usize, u32)> = Vec::new();
    let mut c: usize = 0;
    while c < row.len()
        invariant
            c <= row@.len(),
            runs@ == bg_runs_upto(row@, c as int, default_bg),
            forall|j: int| 0 <= j < runs@.len() ==> (#[trigger] runs@[j]).0 + runs@[j].1 <= c,
        decreases row@.len() - c,
    {
        let cell = row[c];
        if cell.bg != default_bg {
            let n = runs.len();
            if n > 0 && runs[n - 1].0 + runs[n - 1].1 == c && runs[n - 1].2 == cell.bg {
                let last = runs[n - 1];
                runs.set(n - 1, (last.0, last.1 + 1, cell.bg));
            } else {
                runs.push((c, 1, cell.bg));
            }
        }
        proof {
            assert(runs@ =~= bg_runs_upto(row@, c + 1, default_bg));
        }
        c += 1;
    }
    let mut k: usize = 0;
    let ghost o = out@;
    while k < runs.len()
        invariant
            k <= runs@.len(),
            out@ == o + runs@.take(k as int).map_values(|b: (usize, usize, u32)| (i, b.0, b.1, b.2)),
        decreases runs@.len() - k,
    {
        let b = runs[k];
        out.push((i, b.0, b.1, b.2));
        proof {
            assert(runs@.take(k + 1).map_values(|b: (usize, usize, u32)| (i, b.0, b.1, b.2)) =~= runs@.take(
                k as int,
            ).map_values(|b: (usize, usize, u32)| (i, b.0, b.1, b.2)).push((i, b.0, b.1, b.2)));
        }
        k += 1;
    }
    proof {
        assert(runs@.take(k as int) =~= runs@);
    }
}

/// Project a terminal grid into its draw payload: per row, the text up to
/// the last non-blank cell coalesced into runs of one foreground color and
/// followed by a newline run in the default foreground; the non-default
/// backgrounds coalesced into run-length cells; the cursor `(row, col,
/// visible)` when visible.
pub fn decoration_from_grid(
    rows: &Vec<Vec<GridCell>>,
    title: String,
    cursor: (usize, usize, bool),
    default_fg: u32,
    default_bg: u32,
) -> (d: GridDecoration)
    ensures
        d.title@ == title@,
        d.content@ == grid_content(rows@.map_values(|r: Vec<GridCell>| r@)),
        spans_view(d.content_spans@) == grid_spans(rows@.map_values(|r: Vec<GridCell>| r@), default_fg),
        d.cell_bg@ == grid_bg(rows@.map_values(|r: Vec<GridCell>| r@), default_bg),
        d.cursor == if cursor.2 {
            Some((cursor.0, cursor.1))
        } else {
            None
        },
{
    let ghost rv = rows@.map_values(|r: Vec<GridCell>| r@);
    let mut content: Vec<char> = Vec::new();
    let mut spans: Vec<(String, u32)> = Vec::new();
    let mut cell_bg: Vec<(usize, usize, usize, u32)> = Vec::new();
    let mut i: usize = 0;
    while i < rows.len()
        invariant
            i <= rows@.len(),
            rv == rows@.map_values(|r: Vec<GridCell>| r@),
            content@ == grid_content(rv.take(i as int)),
            spans_view(spans@) == grid_spans(rv.take(i as int), default_fg),
            cell_bg@ == grid_bg(rv.take(i as int), default_bg),
        decreases rows@.len() - i,
    {
        let row = &rows[i];
        proof {
            assert(rv.take(i + 1).drop_last() =~= rv.take(i as int));
            assert(rv.take(i + 1).last() == row@);
            lemma_last_non_blank_bounds(row@);
        }
        let rl = row.len();
        let n: usize = match last_non_blank_exec(row) {
            Some(l) => {
                assert(l < rl);
                l + 1
            },
            None => 0,
        };
        row_runs(row, n, &mut spans, &mut content);
        let ghost s0 = spans_view(spans@);
        let nl = string_from_chars(&['\n']);
        spans.push((nl, default_fg));
        content.push('\n');
        proof {
            assert(nl@ =~= seq!['\n']);
            assert(spans_view(spans@) =~= s0.push((seq!['\n'], default_fg)));
        }
        row_bg(row, i, default_bg, &mut cell_bg);
        proof {
            assert(content@ =~= grid_content(rv.take(i + 1)));
            assert(spans_view(spans@) =~= grid_spans(rv.take(i + 1), default_fg));
            assert(cell_bg@ =~= grid_bg(rv.take(i + 1), default_bg));
        }
        i += 1;
    }
    proof {
        assert(rv.take(i as int) =~= rv);
    }
    GridDecoration {
        title,
        content: string_from_chars(content.as_slice()),
        content_spans: spans,
        cell_bg,
        cursor: if cursor.2 {
            Some((cursor.0, cursor.1))
        } else {
            None
        },
    }
}

} // verus!
