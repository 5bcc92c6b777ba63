//! Git change markers projected onto the visible rows of the editor: a
//! marker on a logical line lands on the viewport row that shows it, and is
//! dropped when that row is scrolled out of view.
use vstd::prelude::*;

verus! {

/// Kind of a changed line.
#[derive(Clone, Copy, Debug, PartialEq, Eq, Structural)]
pub enum DiffKind {
    Added,
    Modified,
    Removed,
}

/// Added and modified lines are drawn as bars over every row of the line;
/// a removal is a single marker.
pub open spec fn is_bar_spec(k: DiffKind) -> bool {
    k == DiffKind::Added || k == DiffKind::Modified
}

impl DiffKind {
    /// Whether the change is drawn as a bar over every row of its line.
    pub fn is_bar(self) -> (b: bool)
        ensures
            b == is_bar_spec(self),
    {
        match self {
            DiffKind::Added | DiffKind::Modified => true,
            DiffKind::Removed => false,
        }
    }
}

/// A change marker at a line (logical, or viewport row once projected).
#[derive(Clone, Copy, Debug, PartialEq, Eq, Structural)]
pub struct DiffHunk {
    pub line: usize,
    pub kind: DiffKind,
}

/// The marker for absolute row `abs` seen from scroll origin `off`, when
/// that row is one of the `rows` visible rows.
pub open spec fn emit_row(kind: DiffKind, abs: int, off: int, rows: int) -> Seq<DiffHunk> {
    if 0 <= abs - off < rows {
        seq![DiffHunk { line: (abs - off) as usize, kind }]
    } else {
        Seq::empty()
    }
}

/// Markers for every one of the first `n` visual rows that shows logical
/// line `line`.
pub open spec fn bar_rows(v2l: Seq<usize>, line: usize, kind: DiffKind, off: int, rows: int, n: int) -> Seq<
    DiffHunk,
>
    decreases n,
{
    if n <= 0 {
        Seq::empty()
    } else {
        bar_rows(v2l, line, kind, off, rows, n - 1) + if v2l[n - 1] == line {
            emit_row(kind, n - 1, off, rows)
        } else {
            Seq::empty()
        }
    }
}

/// First visual row at or after `i` that shows logical line `line`, or
/// `v2l.len()`.
pub open spec fn first_row_from(v2l: Seq<usize>, line: usize, i: int) -> int
    decreases v2l.len() - i,
{
    if i < 0 || i >= v2l.len() {
        v2l.len() as int
    } else if v2l[i] == line {
        i
    } else {
        first_row_from(v2l, line, i + 1)
    }
}

/// Markers of one change: over wrapped rows, a bar on every row of its line
/// and any other marker on the line's first row; without wrapping, on the
/// line itself seen from the scroll line.
pub open spec fn hunk_markers(
    h: DiffHunk,
    wrapping: bool,
    v2l: Seq<usize>,
    scroll_top: int,
    wrap_offset: int,
    rows: int,
) -> Seq<DiffHunk> {
    if wrapping {
        if is_bar_spec(h.kind) {
            bar_rows(v2l, h.line, h.kind, wrap_offset, rows, v2l.len() as int)
        } else if first_row_from(v2l, h.line, 0) < v2l.len() {
            emit_row(h.kind, first_row_from(v2l, h.line, 0), wrap_offset, rows)
        } else {
            Seq::empty()
        }
    } else {
        emit_row(h.kind, h.line as int, scroll_top, rows)
    }
}

/// Markers of all changes, in order.
pub open spec fn markers(
    hs: Seq<DiffHunk>,
    wrapping: bool,
    v2l: Seq<usize>,
    scroll_top: int,
    wrap_offset: int,
    rows: int,
) -> Seq<DiffHunk>
    decreases hs.len(),
{
    if hs.len() == 0 {
        Seq::empty()
    } else {
        markers(hs.drop_last(), wrapping, v2l, scroll_top, wrap_offset, rows) + hunk_markers(
            hs.last(),
            wrapping,
            v2l,
            scroll_top,
            wrap_offset,
            rows,
        )
    }
}

fn push_row(out: &mut Vec<DiffHunk>, kind: DiffKind, abs: usize, off: usize, rows: usize)
    ensures
        final(out)@ == old(out)@ + emit_row(kind, abs as int, off as int, rows as int),
{
    if abs >= off && abs - off < rows {
        out.push(DiffHunk { line: abs - off, kind });
        proof {
            assert(final(out)@ =~= old(out)@ + emit_row(kind, abs as int, off as int, rows as int));
        }
    } else {
        proof {
            assert(final(out)@ =~= old(out)@ + emit_row(kind, abs as int, off as int, rows as int));
        }
    }
}

/// Project change markers onto the viewport: `visible_rows` rows are shown
/// (one more than fit, so a partly visible last row keeps its marker); with
/// wrapping (`chars_per_row > 0` and a row map) rows are visual rows counted
/// from `wrap_visual_offset`, else logical lines counted from `scroll_top`.
/// Large-file mode shows no markers. Row and line numbers are signed
/// offsets, so they stay within `isize` range.
pub fn diff_hunks_to_viewport(
    hunks: &[DiffHunk],
    large_file_mode: bool,
    scroll_top: usize,
    visible_rows: usize,
    visual_to_logical: &[usize],
    chars_per_row: usize,
    wrap_visual_offset: usize,
) -> (out: Vec<DiffHunk>)
    requires
        scroll_top <= isize::MAX,
        wrap_visual_offset <= isize::MAX,
        visual_to_logical@.len() <= isize::MAX,
        forall|i: int| 0 <= i < hunks@.len() ==> #[trigger] hunks@[i].line <= isize::MAX,
    ensures
        out@ == if large_file_mode || hunks@.len() == 0 {
            Seq::empty()
        } else {
            markers(
                hunks@,
                chars_per_row > 0 && visual_to_logical@.len() > 0,
                visual_to_logical@,
                scroll_top as int,
                wrap_visual_offset as int,
                visible_rows as int,
            )
        },
{
    let mut out: Vec<DiffHunk> = Vec::new();
    if large_file_mode || hunks.len() == 0 {
        return out;
    }
    let wrapping = chars_per_row > 0 && visual_to_logical.len() > 0;
    let ghost v2l = visual_to_logical@;
    let mut i: usize = 0;
    while i < hunks.len()
        invariant
            wrapping == (chars_per_row > 0 && v2l.len() > 0),
            v2l == visual_to_logical@,
            i <= hunks@.len(),
            out@ == markers(
                hunks@.take(i as int),
                wrapping,
                v2l,
                scroll_top as int,
                wrap_visual_offset as int,
                visible_rows as int,
            ),
        decreases hunks@.len() - i,
    {
        let h = hunks[i];
        let ghost before = out@;
        proof {
            assert(hunks@.take(i + 1).drop_last() =~= hunks@.take(i as int));
        }
        if wrapping {
            if h.kind.is_bar() {
                let mut a: usize = 0;
                while a < visual_to_logical.len()
                    invariant
                        v2l == visual_to_logical@,
                        a <= v2l.len(),
                        out@ == before + bar_rows(v2l, h.line, h.kind, wrap_visual_offset as int, visible_rows as int, a as int),
                    decreases v2l.len() - a,
                {
                    let ghost mid = out@;
                    if visual_to_logical[a] == h.line {
                        push_row(&mut out, h.kind, a, wrap_visual_offset, visible_rows);
                    }
                    proof {
                        let e = if v2l[a as int] == h.line {
                            emit_row(h.kind, a as int, wrap_visual_offset as int, visible_rows as int)
                        } else {
                            Seq::empty()
                        };
                        assert(out@ =~= mid + e);
                        assert(bar_rows(v2l, h.line, h.kind, wrap_visual_offset as int, visible_rows as int, a + 1)
                            == bar_rows(v2l, h.line, h.kind, wrap_visual_offset as int, visible_rows as int, a as int) + e);
                    }
                    a += 1;
                }
            } else {
                let mut a: usize = 0;
                while a < visual_to_logical.len() && visual_to_logical[a] != h.line
                    invariant
                        v2l == visual_to_logical@,
                        a <= v2l.len(),
                        first_row_from(v2l, h.line, 0) == first_row_from(v2l, h.line, a as int),
                    decreases v2l.len() - a,
                {
                    a += 1;
                }
                if a < visual_to_logical.len() {
                    push_row(&mut out, h.kind, a, wrap_visual_offset, visible_rows);
                } else {
                    proof {
                        assert(out@ =~= before + Seq::<DiffHunk>::empty());
                    }
                }
            }
        } else {
            push_row(&mut out, h.kind, h.line, scroll_top, visible_rows);
        }
        i += 1;
    }
    proof {
        assert(hunks@.take(hunks@.len() as int) =~= hunks@);
    }
    out
}

/// Law: every projected marker lands on a visible row.
pub proof fn law_markers_on_visible_rows(
    hs: Seq<DiffHunk>,
    wrapping: bool,
    v2l: Seq<usize>,
    scroll_top: int,
    wrap_offset: int,
    rows: int,
)
    ensures
        forall|k: int|
            0 <= k < markers(hs, wrapping, v2l, scroll_top, wrap_offset, rows).len() ==> (#[trigger] markers(
                hs,
                wrapping,
                v2l,
                scroll_top,
                wrap_offset,
                rows,
            )[k]).line < rows,
    decreases hs.len(),
{
    if hs.len() > 0 {
        law_markers_on_visible_rows(hs.drop_last(), wrapping, v2l, scroll_top, wrap_offset, rows);
        let a = markers(hs.drop_last(), wrapping, v2l, scroll_top, wrap_offset, rows);
        let h = hs.last();
        let b = hunk_markers(h, wrapping, v2l, scroll_top, wrap_offset, rows);
        if wrapping && is_bar_spec(h.kind) {
            lemma_bar_rows_visible(v2l, h.line, h.kind, wrap_offset, rows, v2l.len() as int);
        }
        assert forall|k: int| 0 <= k < (a + b).len() implies (#[trigger] (a + b)[k]).line < rows by {
            if k >= a.len() {
                assert((a + b)[k] == b[k - a.len()]);
            }
        }
    }
}

proof fn lemma_bar_rows_visible(v2l: Seq<usize>, line: usize, kind: DiffKind, off: int, rows: int, n: int)
    ensures
        forall|k: int|
            0 <= k < bar_rows(v2l, line, kind, off, rows, n).len() ==> (#[trigger] bar_rows(
                v2l,
                line,
                kind,
                off,
                rows,
                n,
            )[k]).line < rows,
    decreases n,
{
    if n > 0 {
        lemma_bar_rows_visible(v2l, line, kind, off, rows, n - 1);
        let a = bar_rows(v2l, line, kind, off, rows, n - 1);
        let b = if v2l[n - 1] == line {
            emit_row(kind, n - 1, off, rows)
        } else {
            Seq::empty()
        };
        assert forall|k: int| 0 <= k < (a + b).len() implies (#[trigger] (a + b)[k]).line < rows by {
            if k >= a.len() {
                assert((a + b)[k] == b[k - a.len()]);
            }
        }
    }
}

} // verus!
