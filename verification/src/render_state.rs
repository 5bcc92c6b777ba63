//! Cache keys of the editor's render payload: content hashes of the visible
//! lines, the owner key that ties a payload to one file and render source,
//! and the combined key that decides whether a cached payload may be reused.
use vstd::prelude::*;
use vstd::string::StringSliceAdditionalSpecFns;
use vstd::utf8::encode_utf8;
use crate::syntax_spans::{fnv_mix, FNV_OFFSET};
use crate::text::{chars_of, string_from_chars};

verus! {

/// One step of the polynomial hash: `h * 31 + v`, wrapping.
pub open spec fn poly_step(h: u64, v: u64) -> u64 {
    h.wrapping_mul(31).wrapping_add(v)
}

/// UTF-8 length of a line, as the hash sees it.
pub open spec fn line_len(l: Seq<char>) -> u64 {
    (encode_utf8(l).len() as usize) as u64
}

/// Polynomial hash of the byte lengths of `ls`, starting from `h`.
pub open spec fn hash_line_lengths(h: u64, ls: Seq<Seq<char>>) -> u64
    decreases ls.len(),
{
    if ls.len() == 0 {
        h
    } else {
        poly_step(hash_line_lengths(h, ls.drop_last()), line_len(ls.last()))
    }
}

/// Views of a list of `String`s.
pub open spec fn views(v: Seq<String>) -> Seq<Seq<char>> {
    v.map_values(|s: String| s@)
}

/// Content hash of the editor body: the polynomial hash of its line
/// lengths, `0` when there is no body.
pub open spec fn lines_hash_spec(lines: Option<Seq<Seq<char>>>) -> u64 {
    match lines {
        Some(ls) => hash_line_lengths(0, ls),
        None => 0,
    }
}

/// Content hash of the editor body lines (`None` when there is no body).
pub fn compute_lines_hash(lines: Option<&[String]>) -> (h: u64)
    ensures
        h == lines_hash_spec(
            match lines {
                Some(v) => Some(views(v@)),
                None => None,
            },
        ),
{
    match lines {
        None => 0,
        Some(v) => {
            let mut h: u64 = 0;
            let mut i: usize = 0;
            while i < v.len()
                invariant
                    i <= v@.len(),
                    h == hash_line_lengths(0, views(v@.take(i as int))),
                decreases v@.len() - i,
            {
                proof {
                    assert(views(v@.take(i + 1)).drop_last() =~= views(v@.take(i as int)));
                }
                let n = v[i].as_str().len();
                h = h.wrapping_mul(31).wrapping_add(n as u64);
                i += 1;
            }
            proof {
                assert(v@.take(v@.len() as int) =~= v@);
            }
            h
        },
    }
}

/// FNV-1a hash of a byte string, starting from `h`.
pub open spec fn fnv_bytes(h: u64, b: Seq<u8>) -> u64
    decreases b.len(),
{
    if b.len() == 0 {
        h
    } else {
        fnv_mix(fnv_bytes(h, b.drop_last()), b.last() as u64)
    }
}

/// FNV-1a hash of a line's UTF-8 bytes.
pub open spec fn line_hash(l: Seq<char>) -> u64 {
    fnv_bytes(FNV_OFFSET, encode_utf8(l))
}

fn hash_line(s: &str) -> (h: u64)
    ensures
        h == line_hash(s@),
{
    let b = s.as_bytes();
    let mut h: u64 = FNV_OFFSET;
    let mut i: usize = 0;
    while i < b.len()
        invariant
            b@ == encode_utf8(s@),
            i <= b@.len(),
            h == fnv_bytes(FNV_OFFSET, b@.take(i as int)),
        decreases b@.len() - i,
    {
        proof {
            assert(b@.take(i + 1).drop_last() =~= b@.take(i as int));
        }
        crate::ui_nodes::mix(&mut h, b[i] as u64);
        i += 1;
    }
    proof {
        assert(b@.take(b@.len() as int) =~= b@);
    }
    h
}

/// Per-line FNV-1a hashes of the editor body (empty without a body).
pub fn compute_per_line_hashes(lines: Option<&[String]>) -> (r: Vec<u64>)
    ensures
        match lines {
            Some(v) => r@.len() == v@.len() && forall|i: int|
                0 <= i < v@.len() ==> #[trigger] r@[i] == line_hash(v@[i]@),
            None => r@.len() == 0,
        },
{
    let mut r: Vec<u64> = Vec::new();
    match lines {
        None => {},
        Some(v) => {
            let mut i: usize = 0;
            while i < v.len()
                invariant
                    i <= v@.len(),
                    r@.len() == i,
                    forall|j: int| 0 <= j < i ==> #[trigger] r@[j] == line_hash(v@[j]@),
                decreases v@.len() - i,
            {
                r.push(hash_line(v[i].as_str()));
                i += 1;
            }
        },
    }
    r
}

/// A cached payload is reused only for a non-zero hash that matches.
pub fn should_use_editor_cache(lines_hash: u64, cached_hash: u64) -> (b: bool)
    ensures
        b == (lines_hash > 0 && lines_hash == cached_hash),
{
    lines_hash > 0 && lines_hash == cached_hash
}

/// `p` without a leading `buf:` transport prefix.
pub open spec fn strip_buf(p: Seq<char>) -> Seq<char> {
    if p.len() >= 4 && p.take(4) == seq!['b', 'u', 'f', ':'] {
        p.skip(4)
    } else {
        p
    }
}

/// Owner key: the canonical path (or `<none>`), a `\u{1}` separator, and the
/// render source, `large` or `rope`.
pub open spec fn owner_key_spec(owner_path: Option<Seq<char>>, large_file_mode: bool) -> Seq<char> {
    let path = match owner_path {
        Some(p) => strip_buf(p),
        None => "<none>"@,
    };
    let source = if large_file_mode {
        "large"@
    } else {
        "rope"@
    };
    path + seq!['\u{1}'] + source
}

/// A stable render-payload owner key: canonical active file path plus render
/// source kind, so no payload built for one file or source is reused for
/// another.
pub fn editor_render_owner_key(owner_path: Option<&str>, large_file_mode: bool) -> (k: String)
    ensures
        k@ == owner_key_spec(
            match owner_path {
                Some(p) => Some(p@),
                None => None,
            },
            large_file_mode,
        ),
{
    let mut out: Vec<char> = Vec::new();
    match owner_path {
        Some(p) => {
            let v = chars_of(p);
            let strip = v.len() >= 4 && v[0] == 'b' && v[1] == 'u' && v[2] == 'f' && v[3] == ':';
            proof {
                if v@.len() >= 4 {
                    assert(strip == (v@.take(4) =~= seq!['b', 'u', 'f', ':']));
                }
            }
            let start: usize = if strip { 4 } else { 0 };
            let mut i = start;
            while i < v.len()
                invariant
                    start <= i <= v@.len(),
                    out@ == v@.subrange(start as int, i as int),
                decreases v@.len() - i,
            {
                out.push(v[i]);
                proof {
                    assert(v@.subrange(start as int, i + 1) =~= v@.subrange(start as int, i as int).push(v@[i as int]));
                }
                i += 1;
            }
            proof {
                assert(out@ =~= strip_buf(p@));
            }
        },
        None => {
            crate::text::push_str(&mut out, "<none>");
        },
    }
    out.push('\u{1}');
    if large_file_mode {
        crate::text::push_str(&mut out, "large");
    } else {
        crate::text::push_str(&mut out, "rope");
    }
    proof {
        let op = match owner_path {
            Some(p) => Some(p@),
            None => None,
        };
        assert(out@ =~= owner_key_spec(op, large_file_mode));
    }
    string_from_chars(out.as_slice())
}

/// Polynomial fold of a byte string into `h`.
pub open spec fn poly_bytes(h: u64, b: Seq<u8>) -> u64
    decreases b.len(),
{
    if b.len() == 0 {
        h
    } else {
        poly_step(poly_bytes(h, b.drop_last()), b.last() as u64)
    }
}

/// Cache key of the editor payload: the content hash, then the visible line
/// range, then (for large files) the buffer version, then the owner key's
/// bytes, all folded by `h * 31 + v`; finally the owner-switch epoch folded
/// by the FNV prime.
pub open spec fn cache_key_spec(
    content_hash: u64,
    visible: Option<(usize, usize)>,
    large_file_mode: bool,
    buffer_version: u64,
    owner_key: Seq<char>,
    content_generation: u64,
) -> u64 {
    let h1 = match visible {
        Some((s, e)) => poly_step(poly_step(content_hash, s as u64), e as u64),
        None => content_hash,
    };
    let h2 = if large_file_mode {
        poly_step(h1, buffer_version)
    } else {
        h1
    };
    let h3 = poly_bytes(h2, encode_utf8(owner_key));
    h3.wrapping_mul(1099511628211).wrapping_add(content_generation)
}

/// The editor payload cache key for a content hash, visible range, render
/// source, buffer version, owner and owner-switch epoch.
pub fn editor_cache_key(
    content_hash: u64,
    visible: Option<(usize, usize)>,
    large_file_mode: bool,
    buffer_version: u64,
    owner_path: Option<&str>,
    content_generation: u64,
) -> (h: u64)
    ensures
        h == cache_key_spec(
            content_hash,
            visible,
            large_file_mode,
            buffer_version,
            owner_key_spec(
                match owner_path {
                    Some(p) => Some(p@),
                    None => None,
                },
                large_file_mode,
            ),
            content_generation,
        ),
{
    let mut h = content_hash;
    match visible {
        Some((s, e)) => {
            h = h.wrapping_mul(31).wrapping_add(s as u64);
            h = h.wrapping_mul(31).wrapping_add(e as u64);
        },
        None => {},
    }
    if large_file_mode {
        h = h.wrapping_mul(31).wrapping_add(buffer_version);
    }
    let ghost h2 = h;
    let key = editor_render_owner_key(owner_path, large_file_mode);
    let b = key.as_str().as_bytes();
    let mut i: usize = 0;
    while i < b.len()
        invariant
            i <= b@.len(),
            h == poly_bytes(h2, b@.take(i as int)),
        decreases b@.len() - i,
    {
        proof {
            assert(b@.take(i + 1).drop_last() =~= b@.take(i as int));
        }
        h = h.wrapping_mul(31).wrapping_add(b[i] as u64);
        i += 1;
    }
    proof {
        assert(b@.take(b@.len() as int) =~= b@);
    }
    h.wrapping_mul(1099511628211).wrapping_add(content_generation)
}

/// A cached payload is valid when its key matches (and is non-zero) and it
/// was built from the current span version.
pub fn editor_cache_valid(key: u64, cached_key: u64, spans_version: u64, cached_spans_version: u64) -> (b: bool)
    ensures
        b == (key > 0 && key == cached_key && spans_version == cached_spans_version),
{
    should_use_editor_cache(key, cached_key) && spans_version == cached_spans_version
}

/// The path an owner key is built from: the path without its `buf:`
/// prefix, or `<none>`.
pub open spec fn owner_path_of(owner_path: Option<Seq<char>>) -> Seq<char> {
    match owner_path {
        Some(p) => strip_buf(p),
        None => "<none>"@,
    }
}

/// Law: owner keys are equal only for the same render source and the same
/// canonical path; a different file or a different source never shares a
/// payload.
pub proof fn law_owner_key_injective(a: Option<Seq<char>>, la: bool, b: Option<Seq<char>>, lb: bool)
    requires
        owner_key_spec(a, la) == owner_key_spec(b, lb),
    ensures
        la == lb,
        owner_path_of(a) == owner_path_of(b),
{
    reveal_strlit("large");
    reveal_strlit("rope");
    let pa = owner_path_of(a);
    let pb = owner_path_of(b);
    let ka = owner_key_spec(a, la);
    let kb = owner_key_spec(b, lb);
    if la != lb {
        if la {
            assert(ka[ka.len() - 5] == 'l');
            assert(kb[kb.len() - 5] == '\u{1}');
        } else {
            assert(kb[kb.len() - 5] == 'l');
            assert(ka[ka.len() - 5] == '\u{1}');
        }
    } else {
        assert(pa =~= ka.take(pa.len() as int));
        assert(pb =~= kb.take(pb.len() as int));
    }
}

/// Law: the `buf:` transport prefix is normalized away: a buffer path and
/// the plain path give the same owner key.
pub proof fn law_owner_key_strips_buffer_prefix(p: Seq<char>, large_file_mode: bool)
    requires
        !(p.len() >= 4 && p.take(4) == seq!['b', 'u', 'f', ':']),
    ensures
        owner_key_spec(Some(seq!['b', 'u', 'f', ':'] + p), large_file_mode) == owner_key_spec(
            Some(p),
            large_file_mode,
        ),
{
    let q = seq!['b', 'u', 'f', ':'] + p;
    assert(q.take(4) =~= seq!['b', 'u', 'f', ':']);
    assert(q.skip(4) =~= p);
}

/// Law: bumping the owner-switch epoch always changes the cache key: with
/// every other input equal, keys are equal only for equal epochs.
pub proof fn law_generation_changes_key(
    content_hash: u64,
    visible: Option<(usize, usize)>,
    large_file_mode: bool,
    buffer_version: u64,
    owner_key: Seq<char>,
    g1: u64,
    g2: u64,
)
    requires
        cache_key_spec(content_hash, visible, large_file_mode, buffer_version, owner_key, g1) == cache_key_spec(
            content_hash,
            visible,
            large_file_mode,
            buffer_version,
            owner_key,
            g2,
        ),
    ensures
        g1 == g2,
{
}

/// Law: the cache key of a buffer path and of the same path without its
/// `buf:` prefix (a path not itself starting with one) are the same, so the same document reuses its payload.
pub proof fn law_buffer_prefix_keeps_key(
    content_hash: u64,
    visible: Option<(usize, usize)>,
    large_file_mode: bool,
    buffer_version: u64,
    p: Seq<char>,
    g: u64,
)
    requires
        !(p.len() >= 4 && p.take(4) == seq!['b', 'u', 'f', ':']),
    ensures
        cache_key_spec(
            content_hash,
            visible,
            large_file_mode,
            buffer_version,
            owner_key_spec(Some(seq!['b', 'u', 'f', ':'] + p), large_file_mode),
            g,
        ) == cache_key_spec(
            content_hash,
            visible,
            large_file_mode,
            buffer_version,
            owner_key_spec(Some(p), large_file_mode),
            g,
        ),
{
    law_owner_key_strips_buffer_prefix(p, large_file_mode);
}

} // verus!
