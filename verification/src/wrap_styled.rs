//! Soft wrapping of a colored run stream: the runs are split into logical
//! lines at `"\n"` runs, every line is wrapped with the same row plan as
//! plain text, and each character becomes a run of its own, with a soft
//! `"\n"` run (in the color of the character it precedes) at every row start
//! after the first.
use vstd::prelude::*;
use crate::text::{chars_of, string_from_chars};
use crate::wrap::{plan_line_wrap_chars, plan_well_formed, row_count, row_lines, rows_view, usizes_view, wrap_plan, lemma_wrap_plan_well_formed};

verus! {

/// `t` with every character paired with `c`.
pub open spec fn colored<C>(t: Seq<char>, c: C) -> Seq<(char, C)> {
    t.map_values(|ch: char| (ch, c))
}

/// The runs split into logical lines of colored characters at each run whose
/// text is exactly `"\n"` (always at least one line).
pub open spec fn styled_lines<C>(sp: Seq<(Seq<char>, C)>) -> Seq<Seq<(char, C)>>
    decreases sp.len(),
{
    if sp.len() == 0 {
        seq![Seq::empty()]
    } else {
        let r = styled_lines(sp.drop_last());
        if sp.last().0 == seq!['\n'] {
            r.push(Seq::empty())
        } else {
            r.update(r.len() - 1, r.last() + colored(sp.last().0, sp.last().1))
        }
    }
}

/// Colors of the `"\n"` runs, in order.
pub open spec fn sep_colors<C>(sp: Seq<(Seq<char>, C)>) -> Seq<C>
    decreases sp.len(),
{
    if sp.len() == 0 {
        Seq::empty()
    } else if sp.last().0 == seq!['\n'] {
        sep_colors(sp.drop_last()).push(sp.last().1)
    } else {
        sep_colors(sp.drop_last())
    }
}

/// The characters of a colored line.
pub open spec fn line_chars<C>(l: Seq<(char, C)>) -> Seq<char> {
    l.map_values(|x: (char, C)| x.0)
}

/// Some row of plan `p` other than the first starts at character `ci`.
pub open spec fn row_starts_at(p: Seq<(int, int)>, ci: int) -> bool {
    exists|k: int| 1 <= k < p.len() && #[trigger] p[k].0 == ci
}

/// Runs of the first `n` characters of a colored line under plan `p`.
pub open spec fn char_runs<C>(l: Seq<(char, C)>, p: Seq<(int, int)>, n: int) -> Seq<(Seq<char>, C)>
    decreases n,
{
    if n <= 0 {
        Seq::empty()
    } else {
        let brk = if row_starts_at(p, n - 1) {
            seq![(seq!['\n'], l[n - 1].1)]
        } else {
            Seq::empty()
        };
        char_runs(l, p, n - 1) + brk + seq![(seq![l[n - 1].0], l[n - 1].1)]
    }
}

/// Runs of one wrapped colored line.
pub open spec fn line_runs<C>(l: Seq<(char, C)>, cpr: int) -> Seq<(Seq<char>, C)> {
    char_runs(l, wrap_plan(line_chars(l), cpr), l.len() as int)
}

/// Runs of completed lines, each followed by its `"\n"` run.
pub open spec fn done_runs<C>(ls: Seq<Seq<(char, C)>>, seps: Seq<C>, cpr: int) -> Seq<(Seq<char>, C)>
    decreases ls.len(),
{
    if ls.len() == 0 {
        Seq::empty()
    } else {
        done_runs(ls.drop_last(), seps.drop_last(), cpr) + line_runs(ls.last(), cpr) + seq![
            (seq!['\n'], seps.last()),
        ]
    }
}

/// Runs of the whole wrapped stream.
pub open spec fn wrapped_runs<C>(sp: Seq<(Seq<char>, C)>, cpr: int) -> Seq<(Seq<char>, C)> {
    let ls = styled_lines(sp);
    done_runs(ls.drop_last(), sep_colors(sp), cpr) + line_runs(ls.last(), cpr)
}

/// Characters of each colored line.
pub open spec fn lines_chars<C>(ls: Seq<Seq<(char, C)>>) -> Seq<Seq<char>> {
    ls.map_values(|l: Seq<(char, C)>| line_chars(l))
}

/// Runs as text and color.
pub open spec fn styled_view<C>(v: Seq<(String, C)>) -> Seq<(Seq<char>, C)> {
    v.map_values(|r: (String, C)| (r.0@, r.1))
}

/// Number of `"\n"` runs.
pub open spec fn nl_count<C>(sp: Seq<(Seq<char>, C)>) -> int {
    sep_colors(sp).len() as int
}

/// Characters in all runs.
pub open spec fn total_chars<C>(sp: Seq<(Seq<char>, C)>) -> int
    decreases sp.len(),
{
    if sp.len() == 0 {
        0
    } else {
        total_chars(sp.drop_last()) + sp.last().0.len()
    }
}

proof fn lemma_starts_increase(p: Seq<(int, int)>, i: int, j: int)
    requires
        0 <= i < j < p.len(),
        forall|k: int| 0 <= k < p.len() - 1 ==> #[trigger] p[k].0 < p[k + 1].0,
    ensures
        p[i].0 < p[j].0,
    decreases j - i,
{
    if j > i + 1 {
        lemma_starts_increase(p, i, j - 1);
        assert(p[j - 1].0 < p[j].0);
    }
}

/// Emit the runs of one colored line; returns the rows it took.
fn flush_line<C: Copy>(
    line: &Vec<(char, C)>,
    chars_per_row: usize,
    logical_idx: usize,
    out: &mut Vec<(String, C)>,
    v2l: &mut Vec<usize>,
    total_visual: &mut usize,
)
    requires
        line@.len() <= usize::MAX / 8,
        chars_per_row > 0,
        *old(total_visual) + line@.len() + 1 <= usize::MAX,
    ensures
        styled_view(final(out)@) == styled_view(old(out)@) + line_runs(line@, chars_per_row as int),
        final(v2l)@ == old(v2l)@ + Seq::new(
            row_count(line_chars(line@), chars_per_row as int) as nat,
            |r: int| logical_idx,
        ),
        *final(total_visual) == *old(total_visual) + row_count(line_chars(line@), chars_per_row as int),
{
    let ghost cpr = chars_per_row as int;
    let ghost lc = line_chars(line@);
    if line.len() == 0 {
        v2l.push(logical_idx);
        *total_visual = *total_visual + 1;
        proof {
            assert(v2l@ =~= old(v2l)@ + Seq::new(1nat, |r: int| logical_idx));
            assert(wrap_plan(lc, cpr) == seq![(0int, 0int)]);
            assert(styled_view(out@) =~= styled_view(old(out)@) + line_runs(line@, cpr));
        }
        return;
    }
    let mut chars: Vec<char> = Vec::with_capacity(line.len());
    let mut i: usize = 0;
    while i < line.len()
        invariant
            i <= line@.len(),
            chars@ == line_chars(line@.take(i as int)),
        decreases line@.len() - i,
    {
        chars.push(line[i].0);
        proof {
            assert(line_chars(line@.take(i + 1)) =~= line_chars(line@.take(i as int)).push(line@[i as int].0));
        }
        i += 1;
    }
    proof {
        assert(line@.take(line@.len() as int) =~= line@);
    }
    let rows = plan_line_wrap_chars(&chars, chars_per_row);
    let ghost p = wrap_plan(lc, cpr);
    proof {
        lemma_wrap_plan_well_formed(lc, cpr);
        crate::wrap::lemma_plan_len_bound(lc, cpr);
    }
    let ghost out0 = styled_view(out@);
    let ghost v0 = v2l@;
    let ghost t0 = *total_visual;
    let mut next_row: usize = 1;
    let mut ci: usize = 0;
    while ci < line.len()
        invariant
            rows_view(rows@) == p,
            p == wrap_plan(lc, cpr),
            lc == line_chars(line@),
            lc.len() == line@.len(),
            plan_well_formed(lc, cpr, p),
            p.len() <= lc.len() + 1,
            t0 + line@.len() + 1 <= usize::MAX,
            ci <= line@.len(),
            1 <= next_row <= p.len(),
            forall|k: int| 1 <= k < next_row ==> #[trigger] p[k].0 < ci,
            next_row < p.len() ==> p[next_row as int].0 >= ci,
            styled_view(out@) == out0 + char_runs(line@, p, ci as int),
            v2l@ == v0 + Seq::new((next_row - 1) as nat, |r: int| logical_idx),
            *total_visual == t0 + next_row - 1,
        decreases line@.len() - ci,
    {
        let (ch, color) = line[ci];
        let ghost before = styled_view(out@);
        let is_break = next_row < rows.len() && ci == rows[next_row].0;
        proof {
            if next_row < rows.len() {
                assert(rows_view(rows@)[next_row as int] == p[next_row as int]);
            }
            if row_starts_at(p, ci as int) {
                let k = choose|k: int| 1 <= k < p.len() && #[trigger] p[k].0 == ci;
                if k < next_row {
                    assert(p[k].0 < ci);
                } else if k > next_row {
                    lemma_starts_increase(p, next_row as int, k);
                }
            }
            if is_break {
                assert(p[next_row as int].0 == ci);
                assert(row_starts_at(p, ci as int));
            }
        }
        if is_break {
            let nl_arr = ['\n'];
            proof {
                assert(nl_arr@ =~= seq!['\n']);
            }
            let nl = string_from_chars(&nl_arr);
            let ghost b0 = styled_view(out@);
            out.push((nl, color));
            proof {
                assert(styled_view(out@) =~= b0.push((seq!['\n'], color)));
            }
            v2l.push(logical_idx);
            *total_visual = *total_visual + 1;
            proof {
                assert(v2l@ =~= v0 + Seq::new(next_row as nat, |r: int| logical_idx));
                if next_row + 1 < p.len() {
                    assert(p[next_row as int].0 < p[next_row + 1].0);
                }
            }
            next_row = next_row + 1;
        }
        let ch_arr = [ch];
        proof {
            assert(ch_arr@ =~= seq![ch]);
        }
        let s = string_from_chars(&ch_arr);
        let ghost b1 = styled_view(out@);
        out.push((s, color));
        proof {
            assert(styled_view(out@) =~= b1.push((seq![ch], color)));
            assert(is_break == row_starts_at(p, ci as int));
        }
        proof {
            let brk = if row_starts_at(p, ci as int) {
                seq![(seq!['\n'], line@[ci as int].1)]
            } else {
                Seq::empty()
            };
            assert(styled_view(out@) =~= before + brk + seq![(seq![ch], color)]);
            assert(line@[ci as int] == (ch, color));
            assert(char_runs(line@, p, ci + 1) == char_runs(line@, p, ci as int) + brk + seq![
                (seq![line@[ci as int].0], line@[ci as int].1),
            ]);
        }
        ci += 1;
    }
    proof {
        if next_row < p.len() {
            assert(p[next_row as int].0 < lc.len());
        }
    }
    v2l.push(logical_idx);
    *total_visual = *total_visual + 1;
    proof {
        assert(v2l@ =~= v0 + Seq::new(p.len() as nat, |r: int| logical_idx));
    }
}

proof fn lemma_styled_size<C>(sp: Seq<(Seq<char>, C)>)
    ensures
        styled_lines(sp).len() == sep_colors(sp).len() + 1,
        crate::wrap::sum_len1(lines_chars(styled_lines(sp))) == total_chars(sp) + 1,
        sep_colors(sp).len() <= sp.len(),
        sep_colors(sp).len() <= total_chars(sp),
        total_chars(sp) >= 0,
    decreases sp.len(),
{
    assert(line_chars(Seq::<(char, C)>::empty()) =~= Seq::<char>::empty());
    if sp.len() == 0 {
        let e = lines_chars(seq![Seq::<(char, C)>::empty()]);
        assert(e =~= seq![Seq::<char>::empty()]);
        assert(e.drop_last() =~= Seq::<Seq<char>>::empty());
        assert(crate::wrap::sum_len1(e) == crate::wrap::sum_len1(e.drop_last()) + e.last().len() + 1);
        assert(crate::wrap::sum_len1(e) == 1);
    } else {
        let d = sp.drop_last();
        lemma_styled_size(d);
        let r = styled_lines(d);
        let (t, c) = sp.last();
        assert(total_chars(sp) == total_chars(d) + t.len());
        if t == seq!['\n'] {
            let q = r.push(Seq::<(char, C)>::empty());
            assert(lines_chars(q) =~= lines_chars(r).push(Seq::<char>::empty()));
            assert(lines_chars(q).drop_last() =~= lines_chars(r));
            let lq = lines_chars(q);
            assert(crate::wrap::sum_len1(lq) == crate::wrap::sum_len1(lq.drop_last()) + lq.last().len() + 1);
            assert(t.len() == 1);
        } else {
            let q = r.update(r.len() - 1, r.last() + colored(t, c));
            let nl = line_chars(r.last() + colored(t, c));
            assert(nl =~= line_chars(r.last()) + t);
            assert(lines_chars(q) =~= lines_chars(r).update(r.len() - 1, nl));
            assert(lines_chars(q).drop_last() =~= lines_chars(r).drop_last());
            assert(lines_chars(r).last() == line_chars(r.last()));
            let lq = lines_chars(q);
            let lr = lines_chars(r);
            assert(crate::wrap::sum_len1(lq) == crate::wrap::sum_len1(lq.drop_last()) + lq.last().len() + 1);
            assert(crate::wrap::sum_len1(lr) == crate::wrap::sum_len1(lr.drop_last()) + lr.last().len() + 1);
            assert(lq.last() == nl);
        }
    }
}

proof fn lemma_total_chars_take<C>(sp: Seq<(Seq<char>, C)>, i: int)
    requires
        0 <= i <= sp.len(),
    ensures
        total_chars(sp.take(i)) <= total_chars(sp),
    decreases sp.len() - i,
{
    if i < sp.len() {
        lemma_total_chars_take(sp, i + 1);
        assert(sp.take(i + 1).drop_last() =~= sp.take(i));
    } else {
        assert(sp.take(i) =~= sp);
    }
}

/// Wrap a colored run stream: with a row width and at least one run, every
/// logical line is wrapped as plain text would be and emitted char by char
/// (see [`wrapped_runs`]); the logical line of every visual row is recorded
/// in `visual_to_logical` and the rows are counted in `total_visual`, and a
/// stream with no output at all still records its first line once more.
/// Without a row width, or with no runs, the runs are returned as they are
/// and one row per logical line is recorded.
pub fn wrap_spans<C: Copy>(
    spans: &[(String, C)],
    chars_per_row: usize,
    visual_to_logical: &mut Vec<usize>,
    first_logical_line: usize,
    total_visual: &mut usize,
) -> (out: Vec<(String, C)>)
    requires
        total_chars(styled_view(spans@)) <= usize::MAX / 8,
        first_logical_line + spans@.len() + 1 <= usize::MAX,
        *old(total_visual) + total_chars(styled_view(spans@)) + 2 <= usize::MAX,
    ensures
        (chars_per_row == 0 || spans@.len() == 0) ==> {
            &&& styled_view(out@) == styled_view(spans@)
            &&& usizes_view(final(visual_to_logical)@) == usizes_view(old(visual_to_logical)@) + Seq::new(
                (nl_count(styled_view(spans@)) + 1) as nat,
                |i: int| first_logical_line + i,
            )
            &&& *final(total_visual) == *old(total_visual) + nl_count(styled_view(spans@)) + 1
        },
        (chars_per_row > 0 && spans@.len() > 0) ==> {
            let sv = styled_view(spans@);
            let cpr = chars_per_row as int;
            let rl = row_lines(lines_chars(styled_lines(sv)), cpr, first_logical_line as int);
            let extra: Seq<int> = if wrapped_runs(sv, cpr).len() == 0 {
                seq![first_logical_line as int]
            } else {
                Seq::empty()
            };
            &&& styled_view(out@) == wrapped_runs(sv, cpr)
            &&& usizes_view(final(visual_to_logical)@) == usizes_view(old(visual_to_logical)@) + rl + extra
            &&& *final(total_visual) == *old(total_visual) + rl.len() + extra.len()
        },
{
    let ghost sv = styled_view(spans@);
    let ghost v0 = visual_to_logical@;
    let ghost t0 = *total_visual;
    proof {
        lemma_styled_size(sv);
    }
    if chars_per_row == 0 || spans.len() == 0 {
        let mut out: Vec<(String, C)> = Vec::new();
        let mut count: usize = 0;
        let mut i: usize = 0;
        while i < spans.len()
            invariant
                sv == styled_view(spans@),
                i <= spans@.len(),
                count as int == nl_count(sv.take(i as int)),
                count <= i,
                styled_view(out@) == sv.take(i as int),
            decreases spans@.len() - i,
        {
            let tv = chars_of(spans[i].0.as_str());
            let is_nl = tv.len() == 1 && tv[0] == '\n';
            proof {
                assert(sv.take(i + 1).drop_last() =~= sv.take(i as int));
                assert(sv[i as int] == (spans@[i as int].0@, spans@[i as int].1));
                assert(is_nl == (spans@[i as int].0@ =~= seq!['\n']));
            }
            if is_nl {
                count = count + 1;
            }
            let t = spans[i].0.clone();
            let ghost b = styled_view(out@);
            out.push((t, spans[i].1));
            proof {
                assert(styled_view(out@) =~= b.push(sv[i as int]));
                assert(sv.take(i + 1) =~= sv.take(i as int).push(sv[i as int]));
            }
            i += 1;
        }
        proof {
            assert(sv.take(spans@.len() as int) =~= sv);
        }
        let mut k: usize = 0;
        while k <= count
            invariant
                count as int == nl_count(sv),
                sep_colors(sv).len() <= total_chars(sv),
                count <= spans@.len(),
                first_logical_line + spans@.len() + 1 <= usize::MAX,
                k <= count + 1,
                usizes_view(visual_to_logical@) == usizes_view(v0) + Seq::new(k as nat, |j: int| first_logical_line + j),
            decreases count + 1 - k,
        {
            let ghost vb = visual_to_logical@;
            visual_to_logical.push(first_logical_line + k);
            proof {
                assert(usizes_view(visual_to_logical@) =~= usizes_view(vb).push((first_logical_line + k) as int));
                assert(usizes_view(visual_to_logical@) =~= usizes_view(v0) + Seq::new((k + 1) as nat, |j: int| first_logical_line + j));
            }
            k = k + 1;
        }
        proof {
            assert(count <= total_chars(sv));
        }
        *total_visual = *total_visual + count + 1;
        return out;
    }
    let ghost cpr = chars_per_row as int;
    let mut out: Vec<(String, C)> = Vec::new();
    let mut cur: Vec<(char, C)> = Vec::new();
    let mut li: usize = 0;
    let mut i: usize = 0;
    proof {
        assert(sv.take(0) =~= Seq::<(Seq<char>, C)>::empty());
    }
    while i < spans.len()
        invariant
            sv == styled_view(spans@),
            cpr == chars_per_row as int,
            cpr > 0,
            v0 == old(visual_to_logical)@,
            t0 == *old(total_visual),
            total_chars(sv) <= usize::MAX / 8,
            first_logical_line + spans@.len() + 1 <= usize::MAX,
            t0 + total_chars(sv) + 2 <= usize::MAX,
            i <= spans@.len(),
            ({
                let pre = sv.take(i as int);
                let ls = styled_lines(pre);
                &&& cur@ == ls.last()
                &&& li as int == ls.len() - 1
                &&& li <= i
                &&& styled_view(out@) == done_runs(ls.drop_last(), sep_colors(pre), cpr)
                &&& usizes_view(visual_to_logical@) == usizes_view(v0) + row_lines(
                    lines_chars(ls.drop_last()),
                    cpr,
                    first_logical_line as int,
                )
                &&& *total_visual == t0 + row_lines(lines_chars(ls.drop_last()), cpr, first_logical_line as int).len()
            }),
        decreases spans@.len() - i,
    {
        let ghost pre = sv.take(i as int);
        let ghost ls = styled_lines(pre);
        let ghost pre2 = sv.take(i + 1);
        proof {
            assert(pre2.drop_last() =~= pre);
            assert(sv[i as int] == (spans@[i as int].0@, spans@[i as int].1));
            assert(pre2.last() == sv[i as int]);
            lemma_styled_size(pre);
            lemma_styled_size(pre2);
            lemma_total_chars_take(sv, i as int);
            lemma_total_chars_take(sv, i + 1);
            crate::wrap::lemma_v2l_bound(lines_chars(ls), cpr, first_logical_line as int);
            crate::wrap::lemma_v2l_bound(lines_chars(ls.drop_last()), cpr, first_logical_line as int);
            assert(lines_chars(ls).drop_last() =~= lines_chars(ls.drop_last()));
            assert(lines_chars(ls).last() == line_chars(cur@));
        }
        let tv = chars_of(spans[i].0.as_str());
        let color = spans[i].1;
        let is_nl = tv.len() == 1 && tv[0] == '\n';
        proof {
            assert(is_nl == (spans@[i as int].0@ =~= seq!['\n']));
        }
        if is_nl {
            let ghost o0 = styled_view(out@);
            let ghost vb = visual_to_logical@;
            flush_line(&cur, chars_per_row, first_logical_line + li, &mut out, visual_to_logical, total_visual);
            let nl_arr = ['\n'];
            proof {
                assert(nl_arr@ =~= seq!['\n']);
            }
            let nl = string_from_chars(&nl_arr);
            let ghost o1 = styled_view(out@);
            out.push((nl, color));
            proof {
                let ls2 = styled_lines(pre2);
                assert(ls2 == ls.push(Seq::<(char, C)>::empty()));
                assert(ls2.drop_last() =~= ls);
                assert(sep_colors(pre2) == sep_colors(pre).push(color));
                assert(sep_colors(pre2).drop_last() =~= sep_colors(pre));
                assert(styled_view(out@) =~= o1.push((seq!['\n'], color)));
                assert(ls.drop_last() =~= ls.drop_last());
                assert(ls.last() == cur@);
                assert(ls.len() > 0);
                assert(done_runs(ls, sep_colors(pre2), cpr) == done_runs(ls.drop_last(), sep_colors(pre), cpr)
                    + line_runs(ls.last(), cpr) + seq![(seq!['\n'], color)]);
                assert(styled_view(out@) =~= done_runs(ls2.drop_last(), sep_colors(pre2), cpr));
                let added = Seq::new(row_count(line_chars(cur@), cpr) as nat, |r: int| (first_logical_line + li) as usize);
                assert(usizes_view(visual_to_logical@) =~= usizes_view(vb) + usizes_view(added));
                assert(lines_chars(ls).drop_last() =~= lines_chars(ls.drop_last()));
                assert(usizes_view(added) =~= Seq::new(
                    row_count(lines_chars(ls).last(), cpr) as nat,
                    |r: int| first_logical_line + lines_chars(ls).len() - 1,
                ));
                assert(usizes_view(visual_to_logical@) =~= usizes_view(v0) + row_lines(lines_chars(ls), cpr, first_logical_line as int));
            }
            cur.clear();
            li = li + 1;
        } else {
            let mut k: usize = 0;
            let ghost c0 = cur@;
            while k < tv.len()
                invariant
                    k <= tv@.len(),
                    cur@ == c0 + colored(tv@.take(k as int), color),
                decreases tv@.len() - k,
            {
                cur.push((tv[k], color));
                proof {
                    assert(colored(tv@.take(k + 1), color) =~= colored(tv@.take(k as int), color).push((tv@[k as int], color)));
                }
                k += 1;
            }
            proof {
                assert(tv@.take(tv@.len() as int) =~= tv@);
                let ls2 = styled_lines(pre2);
                assert(ls2 == ls.update(ls.len() - 1, ls.last() + colored(tv@, color)));
                assert(ls2.drop_last() =~= ls.drop_last());
                assert(sep_colors(pre2) == sep_colors(pre));
            }
        }
        i += 1;
    }
    let ghost ls = styled_lines(sv);
    proof {
        assert(sv.take(spans@.len() as int) =~= sv);
        lemma_styled_size(sv);
        crate::wrap::lemma_v2l_bound(lines_chars(ls), cpr, first_logical_line as int);
        crate::wrap::lemma_v2l_bound(lines_chars(ls.drop_last()), cpr, first_logical_line as int);
        assert(lines_chars(ls).drop_last() =~= lines_chars(ls.drop_last()));
        assert(lines_chars(ls).last() == line_chars(cur@));
    }
    let ghost vb = visual_to_logical@;
    flush_line(&cur, chars_per_row, first_logical_line + li, &mut out, visual_to_logical, total_visual);
    proof {
        let added = Seq::new(row_count(line_chars(cur@), cpr) as nat, |r: int| (first_logical_line + li) as usize);
        assert(usizes_view(visual_to_logical@) =~= usizes_view(vb) + usizes_view(added));
        assert(usizes_view(added) =~= Seq::new(
            row_count(lines_chars(ls).last(), cpr) as nat,
            |r: int| first_logical_line + lines_chars(ls).len() - 1,
        ));
        assert(usizes_view(visual_to_logical@) =~= usizes_view(v0) + row_lines(lines_chars(ls), cpr, first_logical_line as int));
    }
    if out.len() == 0 {
        let ghost vc = visual_to_logical@;
        visual_to_logical.push(first_logical_line);
        *total_visual = *total_visual + 1;
        proof {
            assert(usizes_view(visual_to_logical@) =~= usizes_view(vc).push(first_logical_line as int));
        }
    }
    proof {
        assert(styled_view(out@).len() == out@.len());
    }
    out
}

proof fn lemma_split_nl_single(t: Seq<char>)
    requires
        !t.contains('\n'),
    ensures
        crate::text::split_nl(t) == seq![t],
    decreases t.len(),
{
    if t.len() > 0 {
        let d = t.drop_last();
        assert(!d.contains('\n')) by {
            if d.contains('\n') {
                let i = choose|i: int| 0 <= i < d.len() && d[i] == '\n';
                assert(t[i] == '\n');
            }
        }
        lemma_split_nl_single(d);
        assert(t[t.len() - 1] != '\n');
        assert(d.push(t.last()) =~= t);
        assert(seq![d].update(0, d.push(t.last())) =~= seq![t]);
    } else {
        assert(t =~= Seq::<char>::empty());
    }
}

/// Law: a line without newlines (and without a trailing carriage return)
/// breaks identically on the plain and the styled path: wrapping it as text
/// and wrapping it as one colored run record the same logical line for the
/// same number of visual rows, and the styled stream is not empty.
pub proof fn law_plain_and_styled_rows_agree<C>(t: Seq<char>, c: C, cpr: int, first: int)
    requires
        t.len() > 0,
        !t.contains('\n'),
        t.last() != '\r',
    ensures
        row_lines(crate::wrap::logical_lines(t), cpr, first) == row_lines(
            lines_chars(styled_lines(seq![(t, c)])),
            cpr,
            first,
        ),
        wrapped_runs(seq![(t, c)], cpr).len() > 0,
{
    lemma_split_nl_single(t);
    assert(crate::wrap::logical_lines(t) =~= seq![t]);
    let sp = seq![(t, c)];
    assert(sp.drop_last() =~= Seq::<(Seq<char>, C)>::empty());
    assert(t != seq!['\n']) by {
        if t == seq!['\n'] {
            assert(t[0] == '\n');
        }
    }
    let ls = styled_lines(sp);
    assert(Seq::<(char, C)>::empty() + colored(t, c) =~= colored(t, c));
    let r0 = styled_lines(sp.drop_last());
    assert(r0 == seq![Seq::<(char, C)>::empty()]);
    assert(r0.last() + colored(t, c) =~= colored(t, c));
    assert(ls == r0.update(0, r0.last() + colored(t, c)));
    assert(ls =~= seq![colored(t, c)]);
    assert(line_chars(colored(t, c)) =~= t);
    assert(lines_chars(ls) =~= seq![t]);
    assert(ls.drop_last() =~= Seq::<Seq<(char, C)>>::empty());
    let l = colored(t, c);
    let p = wrap_plan(line_chars(l), cpr);
    assert(char_runs(l, p, l.len() as int).len() > 0);
    assert(done_runs(ls.drop_last(), sep_colors(sp), cpr) =~= Seq::<(Seq<char>, C)>::empty());
}

proof fn lemma_split_nl_count(t: Seq<char>)
    ensures
        crate::text::split_nl(t).len() == crate::text::count_char(t, '\n') + 1,
        crate::text::count_char(t, '\n') >= 0,
    decreases t.len(),
{
    if t.len() > 0 {
        let d = t.drop_last();
        lemma_split_nl_count(d);
        let prev = crate::text::split_nl(d);
        assert(crate::text::count_char(t, '\n') == crate::text::count_char(d, '\n') + if t.last() == '\n' { 1int } else { 0int });
        if t.last() == '\n' {
            assert(crate::text::split_nl(t) == prev.push(Seq::empty()));
        } else {
            assert(crate::text::split_nl(t) == prev.update(prev.len() - 1, prev.last().push(t.last())));
        }
    } else {
        assert(crate::text::split_nl(t) == seq![Seq::<char>::empty()]);
        assert(crate::text::count_char(t, '\n') == 0);
    }
}

/// Number of leading entries of `v` below `bound`.
pub open spec fn leading_below(v: Seq<int>, bound: int) -> int
    decreases v.len(),
{
    if v.len() == 0 || v[0] >= bound {
        0
    } else {
        1 + leading_below(v.drop_first(), bound)
    }
}

/// What wrapping a window of the editor body gives: the wrapped text, the
/// wrapped colored runs (when there were any), the logical line of every
/// visual row, the number of visual rows, and the visual row at which the
/// scroll position's logical line starts.
pub struct WrapResult<C> {
    pub text: String,
    pub spans: Option<Vec<(String, C)>>,
    pub visual_to_logical: Vec<usize>,
    pub total_visual: usize,
    pub visual_offset: usize,
}

/// Wrap a window of the editor body whose first line is logical line
/// `first_logical_line`. Without a row width, or for empty text, nothing is
/// wrapped: one row per `'\n'`-separated line is recorded and the offset is
/// the scroll line relative to the window. Otherwise the text and the runs
/// are wrapped on the same row plan and the offset counts the visual rows of
/// lines above the scroll line.
pub fn apply_wrap<C: Copy>(
    raw_text: &str,
    raw_spans: Option<&Vec<(String, C)>>,
    chars_per_row: usize,
    first_logical_line: usize,
    scroll_top: usize,
) -> (r: WrapResult<C>)
    requires
        raw_text@.len() <= usize::MAX / 8,
        first_logical_line + raw_text@.len() + 1 <= usize::MAX,
        match raw_spans {
            Some(sp) => total_chars(styled_view(sp@)) <= usize::MAX / 8 && first_logical_line + sp@.len() + 1
                <= usize::MAX,
            None => true,
        },
    ensures
        (chars_per_row == 0 || raw_text@.len() == 0) ==> {
            let count = crate::text::split_nl(raw_text@).len();
            &&& r.text@ == raw_text@
            &&& match raw_spans {
                Some(sp) => r.spans matches Some(v) && styled_view(v@) == styled_view(sp@),
                None => r.spans is None,
            }
            &&& usizes_view(r.visual_to_logical@) == Seq::new(count, |i: int| first_logical_line + i)
            &&& r.total_visual == count
            &&& r.visual_offset == if scroll_top > first_logical_line {
                scroll_top - first_logical_line
            } else {
                0
            }
        },
        (chars_per_row > 0 && raw_text@.len() > 0) ==> {
            let cpr = chars_per_row as int;
            let rl = row_lines(crate::wrap::logical_lines(raw_text@), cpr, first_logical_line as int);
            &&& r.text@ == crate::wrap::wrapped_text(raw_text@, cpr)
            &&& match raw_spans {
                Some(sp) => r.spans matches Some(v) && (sp@.len() > 0 ==> styled_view(v@) == wrapped_runs(
                    styled_view(sp@),
                    cpr,
                )) && (sp@.len() == 0 ==> v@.len() == 0),
                None => r.spans is None,
            }
            &&& usizes_view(r.visual_to_logical@) == rl
            &&& r.total_visual == rl.len()
            &&& r.visual_offset == leading_below(rl, scroll_top as int)
        },
{
    if chars_per_row == 0 || raw_text.is_empty() {
        let v = chars_of(raw_text);
        let mut count: usize = 1;
        let mut i: usize = 0;
        while i < v.len()
            invariant
                v@ == raw_text@,
                raw_text@.len() <= usize::MAX / 8,
                i <= v@.len(),
                count == crate::text::count_char(v@.take(i as int), '\n') + 1,
                count <= i + 1,
            decreases v@.len() - i,
        {
            proof {
                assert(v@.take(i + 1).drop_last() =~= v@.take(i as int));
            }
            if v[i] == '\n' {
                count = count + 1;
            }
            i += 1;
        }
        proof {
            assert(v@.take(v@.len() as int) =~= v@);
            lemma_split_nl_count(raw_text@);
        }
        let mut v2l: Vec<usize> = Vec::new();
        let mut k: usize = 0;
        while k < count
            invariant
                k <= count,
                count <= raw_text@.len() + 1,
                first_logical_line + raw_text@.len() + 1 <= usize::MAX,
                usizes_view(v2l@) == Seq::new(k as nat, |j: int| first_logical_line + j),
            decreases count - k,
        {
            let ghost vb = v2l@;
            v2l.push(first_logical_line + k);
            proof {
                assert(usizes_view(v2l@) =~= usizes_view(vb).push((first_logical_line + k) as int));
                assert(usizes_view(v2l@) =~= Seq::new((k + 1) as nat, |j: int| first_logical_line + j));
            }
            k += 1;
        }
        let spans = match raw_spans {
            Some(sp) => Some(clone_runs(sp)),
            None => None,
        };
        let offset = if scroll_top > first_logical_line { scroll_top - first_logical_line } else { 0 };
        return WrapResult {
            text: crate::text::string_of(raw_text),
            spans,
            visual_to_logical: v2l,
            total_visual: count,
            visual_offset: offset,
        };
    }
    proof {
        crate::wrap::lemma_visual_rows_bound(raw_text@, chars_per_row as int, first_logical_line as int);
    }
    let mut v2l: Vec<usize> = Vec::new();
    let mut total: usize = 0;
    let text = crate::wrap::wrap_text(raw_text, chars_per_row, &mut v2l, first_logical_line, &mut total);
    let spans = match raw_spans {
        Some(sp) => {
            let mut v2l2: Vec<usize> = Vec::new();
            let mut tv2: usize = 0;
            Some(wrap_spans(sp.as_slice(), chars_per_row, &mut v2l2, first_logical_line, &mut tv2))
        },
        None => None,
    };
    let ghost rl = usizes_view(v2l@);
    let mut offset: usize = 0;
    proof {
        assert(rl.skip(0) =~= rl);
    }
    while offset < v2l.len() && v2l[offset] < scroll_top
        invariant
            offset <= v2l@.len(),
            rl == usizes_view(v2l@),
            leading_below(rl, scroll_top as int) == offset + leading_below(rl.skip(offset as int), scroll_top as int),
        decreases v2l@.len() - offset,
    {
        proof {
            let t = rl.skip(offset as int);
            assert(t[0] == rl[offset as int]);
            assert(t.drop_first() =~= rl.skip(offset + 1));
        }
        offset += 1;
    }
    proof {
        let t = rl.skip(offset as int);
        if offset < v2l@.len() {
            assert(t[0] == rl[offset as int]);
        } else {
            assert(t.len() == 0);
        }
    }
    WrapResult { text, spans, visual_to_logical: v2l, total_visual: total, visual_offset: offset }
}

fn clone_runs<C: Copy>(sp: &Vec<(String, C)>) -> (r: Vec<(String, C)>)
    ensures
        styled_view(r@) == styled_view(sp@),
{
    let mut r: Vec<(String, C)> = Vec::new();
    let mut i: usize = 0;
    while i < sp.len()
        invariant
            i <= sp@.len(),
            styled_view(r@) == styled_view(sp@.take(i as int)),
        decreases sp@.len() - i,
    {
        let t = sp[i].0.clone();
        let ghost rb = styled_view(r@);
        r.push((t, sp[i].1));
        proof {
            assert(sp@.take(i + 1) =~= sp@.take(i as int).push(sp@[i as int]));
            assert(styled_view(sp@.take(i + 1)) =~= styled_view(sp@.take(i as int)).push((sp@[i as int].0@, sp@[i as int].1)));
            assert(styled_view(r@) =~= rb.push((t@, sp@[i as int].1)));
            assert(styled_view(r@) =~= styled_view(sp@.take(i + 1)));
        }
        i += 1;
    }
    proof {
        assert(sp@.take(sp@.len() as int) =~= sp@);
    }
    r
}

/// The texts of runs, concatenated.
pub open spec fn run_texts<C>(rs: Seq<(Seq<char>, C)>) -> Seq<char>
    decreases rs.len(),
{
    if rs.len() == 0 {
        Seq::empty()
    } else {
        run_texts(rs.drop_last()) + rs.last().0
    }
}

proof fn lemma_run_texts_append<C>(a: Seq<(Seq<char>, C)>, b: Seq<(Seq<char>, C)>)
    ensures
        run_texts(a + b) == run_texts(a) + run_texts(b),
    decreases b.len(),
{
    if b.len() == 0 {
        assert(a + b =~= a);
        assert(run_texts(a) + Seq::<char>::empty() =~= run_texts(a));
    } else {
        assert((a + b).drop_last() =~= a + b.drop_last());
        lemma_run_texts_append(a, b.drop_last());
        assert(run_texts(a) + run_texts(b.drop_last()) + b.last().0 =~= run_texts(a) + (run_texts(
            b.drop_last(),
        ) + b.last().0));
    }
}

/// The first `n` characters of `s` with a `'\n'` before every row start of
/// plan `p` other than the first.
pub open spec fn soft_wrapped(s: Seq<char>, p: Seq<(int, int)>, n: int) -> Seq<char>
    decreases n,
{
    if n <= 0 {
        Seq::empty()
    } else {
        let brk = if row_starts_at(p, n - 1) {
            seq!['\n']
        } else {
            Seq::<char>::empty()
        };
        soft_wrapped(s, p, n - 1) + brk + seq![s[n - 1]]
    }
}

proof fn lemma_char_runs_text<C>(l: Seq<(char, C)>, p: Seq<(int, int)>, n: int)
    requires
        0 <= n <= l.len(),
    ensures
        run_texts(char_runs(l, p, n)) == soft_wrapped(line_chars(l), p, n),
    decreases n,
{
    if n > 0 {
        lemma_char_runs_text(l, p, n - 1);
        let brk = if row_starts_at(p, n - 1) {
            seq![(seq!['\n'], l[n - 1].1)]
        } else {
            Seq::empty()
        };
        let one = seq![(seq![l[n - 1].0], l[n - 1].1)];
        lemma_run_texts_append(char_runs(l, p, n - 1), brk);
        lemma_run_texts_append(char_runs(l, p, n - 1) + brk, one);
        assert(one.drop_last() =~= Seq::<(Seq<char>, C)>::empty());
        assert(run_texts(Seq::<(Seq<char>, C)>::empty()) =~= Seq::<char>::empty());
        assert(run_texts(one.drop_last()) =~= Seq::<char>::empty());
        assert(run_texts(one) =~= Seq::<char>::empty() + seq![l[n - 1].0]);
        assert(run_texts(one) =~= seq![l[n - 1].0]);
        if row_starts_at(p, n - 1) {
            assert(brk.drop_last() =~= Seq::<(Seq<char>, C)>::empty());
            assert(run_texts(brk.drop_last()) =~= Seq::<char>::empty());
            assert(run_texts(brk) =~= seq!['\n']);
        } else {
            assert(run_texts(brk) =~= Seq::<char>::empty());
        }
        assert(line_chars(l)[n - 1] == l[n - 1].0);
    }
}

/// With no row start strictly between `a` and `b`, the soft-wrapped prefix
/// up to `b` extends the one up to `a` by the break at `a` (if any) and the
/// characters `[a, b)`.
proof fn lemma_soft_wrapped_span(s: Seq<char>, p: Seq<(int, int)>, a: int, b: int)
    requires
        0 <= a < b <= s.len(),
        forall|m: int| a < m < b ==> !row_starts_at(p, m),
    ensures
        soft_wrapped(s, p, b) == soft_wrapped(s, p, a) + (if row_starts_at(p, a) {
            seq!['\n']
        } else {
            Seq::<char>::empty()
        }) + s.subrange(a, b),
    decreases b - a,
{
    if b == a + 1 {
        assert(s.subrange(a, b) =~= seq![s[a]]);
    } else {
        lemma_soft_wrapped_span(s, p, a, b - 1);
        assert(!row_starts_at(p, b - 1));
        assert(s.subrange(a, b - 1) + seq![s[b - 1]] =~= s.subrange(a, b));
        let brk = if row_starts_at(p, a) {
            seq!['\n']
        } else {
            Seq::<char>::empty()
        };
        assert(soft_wrapped(s, p, a) + brk + s.subrange(a, b - 1) + Seq::<char>::empty() + seq![s[b - 1]]
            =~= soft_wrapped(s, p, a) + brk + s.subrange(a, b));
    }
}

proof fn lemma_soft_wrapped_rows(s: Seq<char>, cpr: int, k: int)
    requires
        s.len() > 0,
        plan_well_formed(s, cpr, wrap_plan(s, cpr)),
        1 <= k <= wrap_plan(s, cpr).len(),
    ensures
        ({
            let p = wrap_plan(s, cpr);
            soft_wrapped(s, p, crate::wrap::row_end(p, s.len() as int, k - 1)) == crate::text::join_nl(
                crate::wrap::row_texts(s, p).take(k),
            )
        }),
    decreases k,
{
    let p = wrap_plan(s, cpr);
    let rt = crate::wrap::row_texts(s, p);
    let e = crate::wrap::row_end(p, s.len() as int, k - 1);
    let a = p[k - 1].0;
    assert(a < e) by {
        if k < p.len() {
            assert(p[k - 1].0 < p[k].0);
        } else {
            if k - 1 > 0 {
                assert(0 <= p[k - 1].0 < s.len());
            }
        }
    }
    assert(0 <= a);
    assert(e <= s.len()) by {
        if k < p.len() {
            assert(0 <= p[k].0 < s.len());
        }
    }
    assert forall|m: int| a < m < e implies !row_starts_at(p, m) by {
        if row_starts_at(p, m) {
            let j = choose|j: int| 1 <= j < p.len() && #[trigger] p[j].0 == m;
            if j <= k - 1 {
                if j < k - 1 {
                    lemma_starts_increase(p, j, k - 1);
                }
            } else {
                if j > k {
                    lemma_starts_increase(p, k, j);
                }
            }
        }
    }
    lemma_soft_wrapped_span(s, p, a, e);
    assert(rt.take(k).drop_last() =~= rt.take(k - 1));
    assert(rt.take(k).last() == s.subrange(a, e));
    crate::wrap::lemma_join_nl_push(rt.take(k - 1), s.subrange(a, e));
    assert(rt.take(k) =~= rt.take(k - 1).push(s.subrange(a, e)));
    if k == 1 {
        assert(a == 0);
        assert(!row_starts_at(p, 0)) by {
            if row_starts_at(p, 0) {
                let j = choose|j: int| 1 <= j < p.len() && #[trigger] p[j].0 == 0;
                lemma_starts_increase(p, 0, j);
            }
        }
        assert(rt.take(0) =~= Seq::<Seq<char>>::empty());
        assert(soft_wrapped(s, p, 0) =~= Seq::<char>::empty());
        assert(Seq::<char>::empty() + Seq::<char>::empty() + s.subrange(a, e) =~= s.subrange(a, e));
    } else {
        lemma_soft_wrapped_rows(s, cpr, k - 1);
        assert(crate::wrap::row_end(p, s.len() as int, k - 2) == a);
        assert(row_starts_at(p, a)) by {
            assert(p[k - 1].0 == a);
        }
    }
}

/// Law: a line without newlines breaks at identical positions on both paths:
/// the texts of the runs of the line wrapped as one colored run spell out
/// exactly the wrapped text of the line.
pub proof fn law_styled_text_matches_plain<C>(t: Seq<char>, c: C, cpr: int)
    requires
        !t.contains('\n'),
    ensures
        run_texts(wrapped_runs(seq![(t, c)], cpr)) == crate::wrap::wrapped_line(t, cpr),
{
    let sp = seq![(t, c)];
    assert(sp.drop_last() =~= Seq::<(Seq<char>, C)>::empty());
    assert(t != seq!['\n']) by {
        if t == seq!['\n'] {
            assert(t[0] == '\n');
        }
    }
    let ls = styled_lines(sp);
    let r0 = styled_lines(sp.drop_last());
    assert(r0 == seq![Seq::<(char, C)>::empty()]);
    assert(r0.last() + colored(t, c) =~= colored(t, c));
    assert(ls =~= seq![colored(t, c)]);
    let l = colored(t, c);
    assert(line_chars(l) =~= t);
    assert(ls.drop_last() =~= Seq::<Seq<(char, C)>>::empty());
    let p = wrap_plan(t, cpr);
    assert(done_runs(ls.drop_last(), sep_colors(sp), cpr) =~= Seq::<(Seq<char>, C)>::empty());
    assert(wrapped_runs(sp, cpr) =~= char_runs(l, p, l.len() as int));
    lemma_char_runs_text(l, p, l.len() as int);
    lemma_wrap_plan_well_formed(t, cpr);
    if t.len() == 0 {
        assert(p == seq![(0int, 0int)]);
        let rt = crate::wrap::row_texts(t, p);
        assert(rt[0] =~= Seq::<char>::empty());
        assert(rt =~= seq![Seq::<char>::empty()]);
        assert(soft_wrapped(t, p, 0) =~= Seq::<char>::empty());
    } else {
        lemma_soft_wrapped_rows(t, cpr, p.len() as int);
        assert(crate::wrap::row_end(p, t.len() as int, p.len() - 1) == t.len());
        assert(crate::wrap::row_texts(t, p).take(p.len() as int) =~= crate::wrap::row_texts(t, p));
    }
}

} // verus!
