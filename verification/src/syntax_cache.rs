//! Incremental colorizing of editor lines with a per-line cache: a line
//! whose content hash is unchanged since the last pass reuses the runs
//! cached under its index and the hash mixed with the spans' fingerprint;
//! every other line is colored afresh and cached.
use vstd::prelude::*;
use crate::syntax_spans::{
    bytes, line_runs, line_runs_spec, lines_extent, runs_view, spans_fingerprint, spans_fingerprint_spec,
    valid_spans, validate_spans_for_source, Highlight, HighlightSpan, Run,
};
use crate::text::{join_nl, string_of, strings_view};
use vstd::utf8::encode_utf8;

verus! {

/// Colored runs as UTF-8 bytes and highlights.
pub type RunsView = Seq<(Seq<u8>, Highlight)>;

/// One cached line: its index, its key, and its runs.
pub struct CacheEntry {
    pub line: usize,
    pub key: u64,
    pub runs: Vec<Run>,
}

/// Per-line cache of colored runs, keyed by line index and key.
pub struct LineSyntaxCache {
    entries: Vec<CacheEntry>,
}

pub open spec fn entry_key(e: CacheEntry) -> (usize, u64) {
    (e.line, e.key)
}

/// The map a list of entries stands for (later entries win).
pub open spec fn entries_map(es: Seq<CacheEntry>) -> Map<(usize, u64), RunsView>
    decreases es.len(),
{
    if es.len() == 0 {
        Map::empty()
    } else {
        entries_map(es.drop_last()).insert(entry_key(es.last()), runs_view(es.last().runs@))
    }
}

/// No two entries share a key.
pub open spec fn distinct_keys(es: Seq<CacheEntry>) -> bool {
    forall|i: int, j: int| 0 <= i < j < es.len() ==> entry_key(#[trigger] es[i]) != entry_key(#[trigger] es[j])
}

impl View for LineSyntaxCache {
    type V = Map<(usize, u64), RunsView>;

    closed spec fn view(&self) -> Map<(usize, u64), RunsView> {
        entries_map(self.entries@)
    }
}

proof fn lemma_lookup(es: Seq<CacheEntry>, j: int)
    requires
        distinct_keys(es),
        0 <= j < es.len(),
    ensures
        entries_map(es).contains_key(entry_key(es[j])),
        entries_map(es)[entry_key(es[j])] == runs_view(es[j].runs@),
    decreases es.len(),
{
    let d = es.drop_last();
    if j < es.len() - 1 {
        assert(d[j] == es[j]);
        assert forall|a: int, b: int| 0 <= a < b < d.len() implies entry_key(#[trigger] d[a]) != entry_key(
            #[trigger] d[b],
        ) by {
            assert(d[a] == es[a] && d[b] == es[b]);
        }
        lemma_lookup(d, j);
        assert(entry_key(es[j]) != entry_key(es[es.len() - 1]));
    }
}

proof fn lemma_absent(es: Seq<CacheEntry>, k: (usize, u64))
    requires
        forall|j: int| 0 <= j < es.len() ==> entry_key(#[trigger] es[j]) != k,
    ensures
        !entries_map(es).contains_key(k),
    decreases es.len(),
{
    if es.len() > 0 {
        let d = es.drop_last();
        assert forall|j: int| 0 <= j < d.len() implies entry_key(#[trigger] d[j]) != k by {
            assert(d[j] == es[j]);
        }
        lemma_absent(d, k);
        assert(entry_key(es[es.len() - 1]) != k);
    }
}

/// Copies of runs.
fn copy_runs(v: &Vec<Run>) -> (r: Vec<Run>)
    ensures
        runs_view(r@) == runs_view(v@),
{
    let mut out: Vec<Run> = Vec::new();
    let mut i: usize = 0;
    while i < v.len()
        invariant
            i <= v@.len(),
            runs_view(out@) == runs_view(v@.take(i as int)),
        decreases v@.len() - i,
    {
        let s = string_of(v[i].0.as_str());
        let ghost o = out@;
        out.push((s, v[i].1));
        proof {
            assert(runs_view(out@) =~= runs_view(o).push((encode_utf8(s@), v@[i as int].1)));
            assert(v@.take(i + 1) =~= v@.take(i as int).push(v@[i as int]));
            assert(runs_view(v@.take(i + 1)) =~= runs_view(v@.take(i as int)).push(
                (encode_utf8(v@[i as int].0@), v@[i as int].1),
            ));
        }
        i += 1;
    }
    proof {
        assert(v@.take(i as int) =~= v@);
    }
    out
}

impl LineSyntaxCache {
    /// Well-formed: no key is stored twice.
    pub closed spec fn wf(&self) -> bool {
        distinct_keys(self.entries@)
    }

    /// An empty cache.
    pub fn new() -> (c: Self)
        ensures
            c.wf(),
            c@ == Map::<(usize, u64), RunsView>::empty(),
    {
        LineSyntaxCache { entries: Vec::new() }
    }

    fn find(&self, line: usize, key: u64) -> (r: Option<usize>)
        requires
            self.wf(),
        ensures
            match r {
                Some(j) => j < self.entries@.len() && entry_key(self.entries@[j as int]) == (line, key),
                None => forall|j: int|
                    0 <= j < self.entries@.len() ==> entry_key(#[trigger] self.entries@[j]) != (line, key),
            },
    {
        let mut j: usize = 0;
        while j < self.entries.len()
            invariant
                j <= self.entries@.len(),
                forall|t: int| 0 <= t < j ==> entry_key(#[trigger] self.entries@[t]) != (line, key),
            decreases self.entries@.len() - j,
        {
            if self.entries[j].line == line && self.entries[j].key == key {
                return Some(j);
            }
            j += 1;
        }
        None
    }

    /// The runs cached under `(line, key)`, if any.
    pub fn get(&self, line: usize, key: u64) -> (r: Option<&Vec<Run>>)
        requires
            self.wf(),
        ensures
            match r {
                Some(v) => self@.contains_key((line, key)) && runs_view(v@) == self@[(line, key)],
                None => !self@.contains_key((line, key)),
            },
    {
        match self.find(line, key) {
            Some(j) => {
                proof {
                    lemma_lookup(self.entries@, j as int);
                }
                Some(&self.entries[j].runs)
            },
            None => {
                proof {
                    lemma_absent(self.entries@, (line, key));
                }
                None
            },
        }
    }

    /// Cache `runs` under `(line, key)`, replacing what was there.
    pub fn insert(&mut self, line: usize, key: u64, runs: Vec<Run>)
        requires
            old(self).wf(),
        ensures
            final(self).wf(),
            final(self)@ == old(self)@.insert((line, key), runs_view(runs@)),
    {
        let k = (line, key);
        let ghost v = runs_view(runs@);
        match self.find(line, key) {
            Some(j) => {
                let ghost es = self.entries@;
                self.entries.set(j, CacheEntry { line, key, runs });
                let ghost ns = self.entries@;
                proof {
                    assert(distinct_keys(ns)) by {
                        assert forall|a: int, b: int| 0 <= a < b < ns.len() implies entry_key(#[trigger] ns[a])
                            != entry_key(#[trigger] ns[b]) by {
                            assert(entry_key(ns[a]) == entry_key(es[a]));
                            assert(entry_key(ns[b]) == entry_key(es[b]));
                        }
                    }
                    assert forall|q: (usize, u64)| #[trigger] entries_map(ns).contains_key(q) == entries_map(
                        es,
                    ).insert(k, v).contains_key(q) && (entries_map(ns).contains_key(q) ==> entries_map(ns)[q]
                        == entries_map(es).insert(k, v)[q]) by {
                        if q == k {
                            lemma_lookup(ns, j as int);
                        } else if exists|t: int| 0 <= t < es.len() && entry_key(#[trigger] es[t]) == q {
                            let t = choose|t: int| 0 <= t < es.len() && entry_key(#[trigger] es[t]) == q;
                            assert(t != j);
                            assert(ns[t] == es[t]);
                            lemma_lookup(es, t);
                            lemma_lookup(ns, t);
                        } else {
                            assert forall|t: int| 0 <= t < ns.len() implies entry_key(#[trigger] ns[t]) != q by {
                                if t != j {
                                    assert(ns[t] == es[t]);
                                }
                            }
                            lemma_absent(es, q);
                            lemma_absent(ns, q);
                        }
                    }
                    assert(entries_map(ns) =~= entries_map(es).insert(k, v));
                }
            },
            None => {
                let ghost es = self.entries@;
                self.entries.push(CacheEntry { line, key, runs });
                proof {
                    let ns = self.entries@;
                    assert(ns.drop_last() =~= es);
                    assert forall|a: int, b: int| 0 <= a < b < ns.len() implies entry_key(#[trigger] ns[a])
                        != entry_key(#[trigger] ns[b]) by {
                        if b < es.len() {
                            assert(ns[a] == es[a] && ns[b] == es[b]);
                        } else {
                            assert(ns[a] == es[a]);
                        }
                    }
                }
            },
        }
    }
}

/// Hash `i` of a list of line hashes, 0 past its end.
pub open spec fn hash_at(h: Seq<u64>, i: int) -> u64 {
    if 0 <= i < h.len() {
        h[i]
    } else {
        0
    }
}

/// Cache key of line `i`: its index and its hash mixed with the spans'
/// fingerprint.
pub open spec fn line_cache_key(i: int, cur: Seq<u64>, fp: u64) -> (usize, u64) {
    (i as usize, hash_at(cur, i) ^ fp)
}

/// Line `i` reuses its cached runs: its hash is the same nonzero hash as in
/// the last pass and its key is cached.
pub open spec fn reuses(i: int, cur: Seq<u64>, prev: Seq<u64>, m: Map<(usize, u64), RunsView>, fp: u64) -> bool {
    hash_at(cur, i) == hash_at(prev, i) && hash_at(prev, i) != 0 && m.contains_key(line_cache_key(i, cur, fp))
}

/// Runs of line `i`: the cached ones on reuse, else the runs colored from
/// the (validated) spans at the line's byte offset.
pub open spec fn line_segment(
    ls: Seq<Seq<char>>,
    i: int,
    src: Seq<u8>,
    spans: Seq<HighlightSpan>,
    cur: Seq<u64>,
    prev: Seq<u64>,
    m: Map<(usize, u64), RunsView>,
    fp: u64,
) -> RunsView {
    if reuses(i, cur, prev, m, fp) {
        m[line_cache_key(i, cur, fp)]
    } else {
        line_runs_spec(encode_utf8(ls[i]), lines_extent(ls.take(i)), src, spans)
    }
}

/// Runs of the first `k` lines, with a plain newline run between lines.
pub open spec fn incremental_runs(
    ls: Seq<Seq<char>>,
    k: int,
    src: Seq<u8>,
    spans: Seq<HighlightSpan>,
    cur: Seq<u64>,
    prev: Seq<u64>,
    m: Map<(usize, u64), RunsView>,
    fp: u64,
) -> RunsView
    decreases k,
{
    if k <= 0 {
        Seq::empty()
    } else if k == 1 {
        line_segment(ls, 0, src, spans, cur, prev, m, fp)
    } else {
        incremental_runs(ls, k - 1, src, spans, cur, prev, m, fp) + seq![(encode_utf8(seq!['\n']), Highlight::Plain)]
            + line_segment(ls, k - 1, src, spans, cur, prev, m, fp)
    }
}

/// The cache after the first `k` lines: each line's runs stored under its
/// key.
pub open spec fn cache_after(
    ls: Seq<Seq<char>>,
    k: int,
    src: Seq<u8>,
    spans: Seq<HighlightSpan>,
    cur: Seq<u64>,
    prev: Seq<u64>,
    m: Map<(usize, u64), RunsView>,
    fp: u64,
) -> Map<(usize, u64), RunsView>
    decreases k,
{
    if k <= 0 {
        m
    } else {
        cache_after(ls, k - 1, src, spans, cur, prev, m, fp).insert(
            line_cache_key(k - 1, cur, fp),
            line_segment(ls, k - 1, src, spans, cur, prev, m, fp),
        )
    }
}

proof fn lemma_cache_after_keeps_later_lines(
    ls: Seq<Seq<char>>,
    k: int,
    src: Seq<u8>,
    spans: Seq<HighlightSpan>,
    cur: Seq<u64>,
    prev: Seq<u64>,
    m: Map<(usize, u64), RunsView>,
    fp: u64,
    q: (usize, u64),
)
    requires
        0 <= k <= q.0,
    ensures
        cache_after(ls, k, src, spans, cur, prev, m, fp).contains_key(q) == m.contains_key(q),
        m.contains_key(q) ==> cache_after(ls, k, src, spans, cur, prev, m, fp)[q] == m[q],
    decreases k,
{
    if k > 0 {
        lemma_cache_after_keeps_later_lines(ls, k - 1, src, spans, cur, prev, m, fp, q);
        assert(line_cache_key(k - 1, cur, fp).0 == (k - 1) as usize);
    }
}

/// Colorize lines incrementally: validate the spans against the joined
/// text, then per line reuse the runs cached for an unchanged nonzero hash
/// (under the line index and the hash mixed with the spans' fingerprint)
/// or color the line afresh and cache it; newline runs go between lines.
pub fn colorize_source_incremental(
    lines: &[String],
    spans: &[HighlightSpan],
    cache: &mut LineSyntaxCache,
    per_line_hashes: &[u64],
    cached_line_hashes: &[u64],
) -> (out: Vec<Run>)
    requires
        old(cache).wf(),
        lines_extent(strings_view(lines@)) <= usize::MAX,
    ensures
        final(cache).wf(),
        ({
            let ls = strings_view(lines@);
            let src = encode_utf8(join_nl(ls));
            let vs = valid_spans(src, spans@);
            let fp = spans_fingerprint_spec(vs);
            &&& runs_view(out@) == incremental_runs(
                ls,
                ls.len() as int,
                src,
                vs,
                per_line_hashes@,
                cached_line_hashes@,
                old(cache)@,
                fp,
            )
            &&& final(cache)@ == cache_after(
                ls,
                ls.len() as int,
                src,
                vs,
                per_line_hashes@,
                cached_line_hashes@,
                old(cache)@,
                fp,
            )
        }),
{
    let ghost ls = strings_view(lines@);
    let ghost m = cache@;
    let n = lines.len();
    let source = crate::editor_content::join_lines(lines, 0, n);
    proof {
        assert(strings_view(lines@).subrange(0, n as int) =~= ls);
    }
    let src = source.as_str();
    let valid = validate_spans_for_source(spans, src);
    let fp = spans_fingerprint(valid.as_slice());
    let ghost sb = bytes(src);
    let ghost vs = valid@;
    let ghost cur = per_line_hashes@;
    let ghost prev = cached_line_hashes@;
    let mut out: Vec<Run> = Vec::new();
    let mut offset: usize = 0;
    let mut i: usize = 0;
    while i < n
        invariant
            n == lines@.len(),
            ls == strings_view(lines@),
            lines_extent(ls) <= usize::MAX,
            i <= n,
            offset == lines_extent(ls.take(i as int)),
            sb == bytes(src),
            vs == valid@,
            fp == spans_fingerprint_spec(vs),
            cur == per_line_hashes@,
            prev == cached_line_hashes@,
            cache.wf(),
            runs_view(out@) == incremental_runs(ls, i as int, sb, vs, cur, prev, m, fp),
            cache@ == cache_after(ls, i as int, sb, vs, cur, prev, m, fp),
        decreases n - i,
    {
        let line = lines[i].as_str();
        proof {
            crate::syntax_spans::lemma_lines_extent_prefix(ls, i as int);
            assert(ls[i as int] == line@);
            lemma_cache_after_keeps_later_lines(ls, i as int, sb, vs, cur, prev, m, fp, line_cache_key(i as int, cur, fp));
        }
        let ch = if i < per_line_hashes.len() { per_line_hashes[i] } else { 0 };
        let ph = if i < cached_line_hashes.len() { cached_line_hashes[i] } else { 0 };
        let key = ch ^ fp;
        let ghost seg = line_segment(ls, i as int, sb, vs, cur, prev, m, fp);
        let ghost before = cache@;
        let mut seg_runs: Vec<Run> = if ch == ph && ph != 0 {
            match cache.get(i, key) {
                Some(r) => {
                    let c = copy_runs(r);
                    proof {
                        assert(before.insert((i, key), seg) =~= before);
                    }
                    c
                },
                None => {
                    let r = line_runs(line, offset, src, valid.as_slice());
                    let c = copy_runs(&r);
                    cache.insert(i, key, r);
                    c
                },
            }
        } else {
            let r = line_runs(line, offset, src, valid.as_slice());
            let c = copy_runs(&r);
            cache.insert(i, key, r);
            c
        };
        proof {
            assert(runs_view(seg_runs@) == seg);
            assert(cache@ == cache_after(ls, i + 1, sb, vs, cur, prev, m, fp));
        }
        let ghost o = runs_view(out@);
        if i > 0 {
            let nl = crate::text::string_from_chars(&['\n']);
            out.push((nl, Highlight::Plain));
            proof {
                assert(nl@ =~= seq!['\n']);
            }
        }
        let ghost o2 = runs_view(out@);
        out.append(&mut seg_runs);
        proof {
            assert(runs_view(out@) =~= o2 + seg);
            if i > 0 {
                assert(o2 =~= o + seq![(encode_utf8(seq!['\n']), Highlight::Plain)]);
            } else {
                assert(o =~= Seq::<(Seq<u8>, Highlight)>::empty());
            }
            assert(runs_view(out@) =~= incremental_runs(ls, i + 1, sb, vs, cur, prev, m, fp));
        }
        offset = offset + line.as_bytes().len() + 1;
        i += 1;
    }
    out
}

} // verus!
