//! Character-level helpers shared by the presentation modules.
use vstd::prelude::*;

verus! {

/// The characters of `s`, in order.
pub fn chars_of(s: &str) -> (v: Vec<char>)
    ensures
        v@ == s@,
{
    let mut v: Vec<char> = Vec::new();
    for c in it: s.chars()
        invariant
            v@ == it.seq().take(it.index() as int),
    {
        v.push(c);
    }
    v
}

/// Collects characters into a `String` (std's `FromIterator<char>` for
/// `String`); the result holds exactly the given characters in order.
#[verifier::external_body]
pub(crate) fn string_from_chars(v: &[char]) -> (s: String)
    ensures
        s@ == v@,
{
    v.iter().collect()
}

/// A `String` holding the characters of `s`.
pub fn string_of(s: &str) -> (r: String)
    ensures
        r@ == s@,
{
    s.to_owned()
}

/// Whether two character sequences are equal.
pub fn chars_eq(a: &[char], b: &[char]) -> (r: bool)
    ensures
        r == (a@ == b@),
{
    if a.len() != b.len() {
        return false;
    }
    let mut i: usize = 0;
    while i < a.len()
        invariant
            a@.len() == b@.len(),
            i <= a@.len(),
            forall|j: int| 0 <= j < i ==> a@[j] == b@[j],
        decreases a.len() - i,
    {
        if a[i] != b[i] {
            return false;
        }
        i = i + 1;
    }
    proof {
        assert(a@ =~= b@);
    }
    true
}

/// Whether the characters `a` spell the string `b`.
pub fn chars_eq_str(a: &[char], b: &str) -> (r: bool)
    ensures
        r == (a@ == b@),
{
    let bv = chars_of(b);
    chars_eq(a, bv.as_slice())
}

/// Decimal digit character for `d < 10`.
pub open spec fn digit_char(d: int) -> char {
    if d == 0 {
        '0'
    } else if d == 1 {
        '1'
    } else if d == 2 {
        '2'
    } else if d == 3 {
        '3'
    } else if d == 4 {
        '4'
    } else if d == 5 {
        '5'
    } else if d == 6 {
        '6'
    } else if d == 7 {
        '7'
    } else if d == 8 {
        '8'
    } else {
        '9'
    }
}

/// Decimal representation of `n` (no sign, no leading zeros).
pub open spec fn dec(n: nat) -> Seq<char>
    decreases n,
{
    if n < 10 {
        seq![digit_char(n as int)]
    } else {
        dec(n / 10).push(digit_char((n % 10) as int))
    }
}

fn digit(d: u64) -> (c: char)
    requires
        d < 10,
    ensures
        c == digit_char(d as int),
{
    match d {
        0 => '0',
        1 => '1',
        2 => '2',
        3 => '3',
        4 => '4',
        5 => '5',
        6 => '6',
        7 => '7',
        8 => '8',
        _ => '9',
    }
}

/// Appends the decimal representation of `n` to `out`.
pub fn push_decimal(out: &mut Vec<char>, n: u64)
    ensures
        final(out)@ == old(out)@ + dec(n as nat),
    decreases n,
{
    if n >= 10 {
        push_decimal(out, n / 10);
    }
    out.push(digit(n % 10));
    proof {
        if n >= 10 {
            assert(dec(n as nat) == dec((n / 10) as nat).push(digit_char((n % 10) as int)));
        }
    }
}

/// Appends the characters of `s` to `out`.
pub fn push_str(out: &mut Vec<char>, s: &str)
    ensures
        final(out)@ == old(out)@ + s@,
{
    let v = chars_of(s);
    let mut i: usize = 0;
    let ghost o = out@;
    while i < v.len()
        invariant
            i <= v@.len(),
            v@ == s@,
            out@ == o + v@.take(i as int),
        decreases v.len() - i,
    {
        out.push(v[i]);
        proof {
            assert(v@.take(i + 1) =~= v@.take(i as int).push(v@[i as int]));
        }
        i = i + 1;
    }
    proof {
        assert(v@.take(i as int) =~= v@);
    }
}

/// Index just past the last occurrence in `s` of `a` or `b`, or `0` when
/// neither occurs.
pub open spec fn after_last_of(s: Seq<char>, a: char, b: char) -> int
    decreases s.len(),
{
    if s.len() == 0 {
        0
    } else if s.last() == a || s.last() == b {
        s.len() as int
    } else {
        after_last_of(s.drop_last(), a, b)
    }
}

pub proof fn lemma_after_last_of_bounds(s: Seq<char>, a: char, b: char)
    ensures
        0 <= after_last_of(s, a, b) <= s.len(),
        after_last_of(s, a, b) > 0 ==> (s[after_last_of(s, a, b) - 1] == a || s[after_last_of(s, a, b) - 1] == b),
        forall|j: int| after_last_of(s, a, b) <= j < s.len() ==> #[trigger] s[j] != a && s[j] != b,
    decreases s.len(),
{
    if s.len() > 0 && !(s.last() == a || s.last() == b) {
        lemma_after_last_of_bounds(s.drop_last(), a, b);
        assert forall|j: int| after_last_of(s, a, b) <= j < s.len() implies #[trigger] s[j] != a && s[j] != b by {
            if j < s.len() - 1 {
                assert(s[j] == s.drop_last()[j]);
            }
        }
    }
}

/// Index just past the last `a` or `b` in `v`, or `0`.
pub fn after_last_of_exec(v: &[char], a: char, b: char) -> (k: usize)
    ensures
        k as int == after_last_of(v@, a, b),
{
    let mut k = v.len();
    proof {
        assert(v@.take(k as int) =~= v@);
    }
    while k > 0
        invariant
            k <= v@.len(),
            after_last_of(v@, a, b) == after_last_of(v@.take(k as int), a, b),
        decreases k,
    {
        let ghost t = v@.take(k as int);
        proof {
            assert(t.drop_last() =~= v@.take(k - 1));
        }
        if v[k - 1] == a || v[k - 1] == b {
            return k;
        }
        k = k - 1;
    }
    proof {
        assert(v@.take(0) =~= Seq::<char>::empty());
    }
    0
}

/// The characters of `v` in `[start, end)`.
pub fn sub_chars(v: &[char], start: usize, end: usize) -> (r: Vec<char>)
    requires
        start <= end <= v@.len(),
    ensures
        r@ == v@.subrange(start as int, end as int),
{
    let mut r: Vec<char> = Vec::new();
    let mut i = start;
    while i < end
        invariant
            start <= i <= end <= v@.len(),
            r@ == v@.subrange(start as int, i as int),
        decreases end - i,
    {
        r.push(v[i]);
        proof {
            assert(v@.subrange(start as int, i + 1) =~= v@.subrange(start as int, i as int).push(v@[i as int]));
        }
        i = i + 1;
    }
    r
}

/// Whether `c` is Unicode `White_Space` (what `char::is_whitespace` tests).
pub open spec fn is_unicode_ws(c: char) -> bool {
    ('\u{9}' <= c && c <= '\u{d}') || c == ' ' || c == '\u{85}' || c == '\u{a0}' || c == '\u{1680}'
        || ('\u{2000}' <= c && c <= '\u{200a}') || c == '\u{2028}' || c == '\u{2029}'
        || c == '\u{202f}' || c == '\u{205f}' || c == '\u{3000}'
}

pub fn is_unicode_whitespace(c: char) -> (b: bool)
    ensures
        b == is_unicode_ws(c),
{
    ('\u{9}' <= c && c <= '\u{d}') || c == ' ' || c == '\u{85}' || c == '\u{a0}' || c == '\u{1680}'
        || ('\u{2000}' <= c && c <= '\u{200a}') || c == '\u{2028}' || c == '\u{2029}'
        || c == '\u{202f}' || c == '\u{205f}' || c == '\u{3000}'
}

/// Index of the first non-whitespace character of `s` at or after `i`, or
/// `s.len()` when there is none.
pub open spec fn first_non_ws_from(s: Seq<char>, i: int) -> int
    decreases s.len() - i,
{
    if i >= s.len() {
        s.len() as int
    } else if is_unicode_ws(s[i]) {
        first_non_ws_from(s, i + 1)
    } else {
        i
    }
}

/// End (exclusive) of `s.take(k)` with trailing whitespace removed.
pub open spec fn end_non_ws(s: Seq<char>, k: int) -> int
    decreases k,
{
    if k <= 0 {
        0
    } else if is_unicode_ws(s[k - 1]) {
        end_non_ws(s, k - 1)
    } else {
        k
    }
}

/// `s` with leading and trailing whitespace removed (what `str::trim` gives).
pub open spec fn trim(s: Seq<char>) -> Seq<char> {
    let a = first_non_ws_from(s, 0);
    if a >= s.len() {
        Seq::empty()
    } else {
        s.subrange(a, end_non_ws(s, s.len() as int))
    }
}

proof fn lemma_end_non_ws_bounds(s: Seq<char>, k: int, a: int)
    requires
        0 <= a < k <= s.len(),
        !is_unicode_ws(s[a]),
    ensures
        a < end_non_ws(s, k) <= k,
    decreases k,
{
    if is_unicode_ws(s[k - 1]) {
        lemma_end_non_ws_bounds(s, k - 1, a);
    }
}

/// `v` with leading and trailing whitespace removed.
pub fn trim_chars(v: &[char]) -> (r: Vec<char>)
    ensures
        r@ == trim(v@),
{
    let n = v.len();
    let mut a: usize = 0;
    while a < n && is_unicode_whitespace(v[a])
        invariant
            a <= n == v@.len(),
            first_non_ws_from(v@, 0) == first_non_ws_from(v@, a as int),
        decreases n - a,
    {
        a = a + 1;
    }
    if a >= n {
        return Vec::new();
    }
    let mut e: usize = n;
    while e > a && is_unicode_whitespace(v[e - 1])
        invariant
            a < e <= n == v@.len(),
            !is_unicode_ws(v@[a as int]),
            end_non_ws(v@, n as int) == end_non_ws(v@, e as int),
        decreases e,
    {
        e = e - 1;
    }
    proof {
        lemma_end_non_ws_bounds(v@, e as int, a as int);
    }
    sub_chars(v, a, e)
}


/// `ls` joined with `'\n'` separators.
pub open spec fn join_nl(ls: Seq<Seq<char>>) -> Seq<char>
    decreases ls.len(),
{
    if ls.len() == 0 {
        Seq::empty()
    } else if ls.len() == 1 {
        ls[0]
    } else {
        join_nl(ls.drop_last()) + seq!['\n'] + ls.last()
    }
}

/// Pieces of `s` between `'\n'`s (always at least one piece).
pub open spec fn split_nl(s: Seq<char>) -> Seq<Seq<char>>
    decreases s.len(),
{
    if s.len() == 0 {
        seq![Seq::<char>::empty()]
    } else {
        let prev = split_nl(s.drop_last());
        if s.last() == '\n' {
            prev.push(Seq::empty())
        } else {
            prev.update(prev.len() - 1, prev.last().push(s.last()))
        }
    }
}

/// A line with one trailing `'\r'` removed.
pub open spec fn strip_cr(l: Seq<char>) -> Seq<char> {
    if l.len() > 0 && l.last() == '\r' {
        l.drop_last()
    } else {
        l
    }
}

/// Number of occurrences of `c` in `s`.
pub open spec fn count_char(s: Seq<char>, c: char) -> int
    decreases s.len(),
{
    if s.len() == 0 {
        0
    } else {
        count_char(s.drop_last(), c) + if s.last() == c { 1int } else { 0int }
    }
}

/// Views of a sequence of strings.
pub open spec fn strings_view(v: Seq<String>) -> Seq<Seq<char>> {
    v.map_values(|s: String| s@)
}

/// Splits `v` on `'\n'` (as `str::split('\n')` does).
pub fn split_nl_chars(v: &[char]) -> (ls: Vec<Vec<char>>)
    ensures
        ls@.map_values(|l: Vec<char>| l@) == split_nl(v@),
{
    let mut ls: Vec<Vec<char>> = Vec::new();
    let mut cur: Vec<char> = Vec::new();
    let mut p: usize = 0;
    proof {
        assert(v@.take(0) =~= Seq::<char>::empty());
        assert(ls@.map_values(|l: Vec<char>| l@).push(cur@) =~= seq![Seq::<char>::empty()]);
    }
    while p < v.len()
        invariant
            p <= v@.len(),
            ls@.map_values(|l: Vec<char>| l@).push(cur@) == split_nl(v@.take(p as int)),
        decreases v.len() - p,
    {
        let ghost sp = split_nl(v@.take(p as int));
        proof {
            assert(v@.take(p + 1).drop_last() =~= v@.take(p as int));
        }
        if v[p] == '\n' {
            let ghost lv = ls@;
            let done = cur;
            ls.push(done);
            cur = Vec::new();
            proof {
                assert(ls@.map_values(|l: Vec<char>| l@) =~= lv.map_values(|l: Vec<char>| l@).push(done@));
                assert(ls@.map_values(|l: Vec<char>| l@).push(cur@) =~= sp.push(Seq::<char>::empty()));
            }
        } else {
            cur.push(v[p]);
            proof {
                assert(ls@.map_values(|l: Vec<char>| l@).push(cur@) =~= sp.update(sp.len() - 1, sp.last().push(v@[p as int])));
            }
        }
        p = p + 1;
    }
    proof {
        assert(v@.take(p as int) =~= v@);
    }
    let ghost lv = ls@;
    ls.push(cur);
    proof {
        assert(ls@.map_values(|l: Vec<char>| l@) =~= lv.map_values(|l: Vec<char>| l@).push(cur@));
    }
    ls
}


/// `ls` joined with the separator `sep`.
pub open spec fn join_sep(ls: Seq<Seq<char>>, sep: Seq<char>) -> Seq<char>
    decreases ls.len(),
{
    if ls.len() == 0 {
        Seq::empty()
    } else if ls.len() == 1 {
        ls[0]
    } else {
        join_sep(ls.drop_last(), sep) + sep + ls.last()
    }
}

pub proof fn lemma_join_sep_push(ls: Seq<Seq<char>>, sep: Seq<char>, x: Seq<char>)
    ensures
        join_sep(ls.push(x), sep) == if ls.len() == 0 {
            x
        } else {
            join_sep(ls, sep) + sep + x
        },
{
    assert(ls.push(x).drop_last() =~= ls);
}

} // verus!
