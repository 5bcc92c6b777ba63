//! Byte-offset bookkeeping for syntax-highlight spans over UTF-8 text:
//! validating spans against the exact text they color, and carrying a good
//! span set across an edit while keeping the edited lines plain.
use vstd::prelude::*;
use vstd::string::StringSliceAdditionalSpecFns;
use crate::text::chars_of;
use vstd::utf8::{encode_utf8, is_char_boundary, valid_utf8, is_continuation_byte, encode_utf8_valid_utf8, is_char_boundary_start_end_of_seq, is_char_boundary_iff_not_is_continuation_byte};

verus! {

/// Highlight class of a span.
#[derive(Clone, Copy, Debug, PartialEq, Eq, Structural)]
pub enum Highlight {
    Comment,
    String,
    Keyword,
    Function,
    Type,
    Number,
    Constant,
    Variable,
    Operator,
    Punctuation,
    Attribute,
    Property,
    Namespace,
    Plain,
}

/// A highlighted byte range `[start, end)` of a text.
#[derive(Clone, Copy, Debug, PartialEq, Eq, Structural)]
pub struct HighlightSpan {
    pub start: usize,
    pub end: usize,
    pub highlight: Highlight,
}

/// UTF-8 bytes of `s`.
pub open spec fn bytes(s: &str) -> Seq<u8> {
    s.spec_bytes()
}

proof fn lemma_valid(s: &str)
    ensures
        valid_utf8(s.spec_bytes()),
        is_char_boundary(s.spec_bytes(), 0),
        is_char_boundary(s.spec_bytes(), s.spec_bytes().len() as int),
{
    encode_utf8_valid_utf8(s@);
    is_char_boundary_start_end_of_seq(s.spec_bytes());
}

/// Whether `[start, end)` is an ordered, in-bounds range on char boundaries.
pub open spec fn well_formed_range(b: Seq<u8>, start: int, end: int) -> bool {
    start <= end <= b.len() && is_char_boundary(b, start) && is_char_boundary(b, end)
}

proof fn lemma_boundary_in_bounds(b: Seq<u8>, i: int)
    requires
        valid_utf8(b),
        is_char_boundary(b, i),
    ensures
        0 <= i <= b.len(),
{
}

proof fn lemma_prefix_boundary(b: Seq<u8>, end: int, i: int)
    requires
        valid_utf8(b),
        is_char_boundary(b, end),
        0 <= i <= end <= b.len(),
    ensures
        valid_utf8(b.subrange(0, end)),
        is_char_boundary(b.subrange(0, end), i) == is_char_boundary(b, i),
{
    vstd::utf8::valid_utf8_split(b, end);
    let p = b.subrange(0, end);
    is_char_boundary_start_end_of_seq(p);
    is_char_boundary_start_end_of_seq(b);
    if i < end {
        is_char_boundary_iff_not_is_continuation_byte(p, i);
        is_char_boundary_iff_not_is_continuation_byte(b, i);
    } else if i < b.len() {
        assert(i == end);
    }
}

/// Slice `s[start..end]` only when the range is well formed against `s`;
/// any other range yields `""`.
pub fn safe_slice(s: &str, start: usize, end: usize) -> (r: &str)
    ensures
        well_formed_range(bytes(s), start as int, end as int) ==> r.spec_bytes() == bytes(s).subrange(
            start as int,
            end as int,
        ),
        !well_formed_range(bytes(s), start as int, end as int) ==> r@.len() == 0,
{
    proof {
        lemma_valid(s);
    }
    if start <= end && s.is_char_boundary(start) && s.is_char_boundary(end) {
        proof {
            lemma_boundary_in_bounds(s.spec_bytes(), end as int);
            lemma_prefix_boundary(s.spec_bytes(), end as int, start as int);
        }
        let (head, _) = s.split_at(end);
        let (_, mid) = head.split_at(start);
        proof {
            assert(mid.spec_bytes() =~= s.spec_bytes().subrange(start as int, end as int));
        }
        mid
    } else {
        proof {
            reveal_strlit("");
        }
        ""
    }
}

/// The first `n` bytes of `a` and `b` agree.
pub open spec fn agree_prefix(a: Seq<u8>, b: Seq<u8>, n: int) -> bool {
    0 <= n <= a.len() && n <= b.len() && forall|k: int| 0 <= k < n ==> a[k] == b[k]
}

/// The `k`-th byte of `a` counted from its end (`0` is the last byte).
pub open spec fn from_end(a: Seq<u8>, k: int) -> u8 {
    a[a.len() - 1 - k]
}

/// The last `n` bytes of `a` and `b` agree.
pub open spec fn agree_suffix(a: Seq<u8>, b: Seq<u8>, n: int) -> bool {
    0 <= n <= a.len() && n <= b.len() && forall|k: int|
        0 <= k < n ==> #[trigger] from_end(a, k) == from_end(b, k)
}

/// `n` is a common prefix length on which both texts can be cut.
pub open spec fn prefix_cut(a: Seq<u8>, b: Seq<u8>, n: int) -> bool {
    agree_prefix(a, b, n) && is_char_boundary(a, n) && is_char_boundary(b, n)
}

/// `n` is a common suffix length, not longer than `limit`, on which both
/// texts can be cut.
pub open spec fn suffix_cut(a: Seq<u8>, b: Seq<u8>, limit: int, n: int) -> bool {
    n <= limit && agree_suffix(a, b, n) && is_char_boundary(a, a.len() - n) && is_char_boundary(
        b,
        b.len() - n,
    )
}

/// `n` is the longest common prefix length on which both texts can be cut.
pub open spec fn is_common_prefix(a: Seq<u8>, b: Seq<u8>, n: int) -> bool {
    prefix_cut(a, b, n) && forall|j: int| n < j ==> !prefix_cut(a, b, j)
}

/// `n` is the longest common suffix length, within `limit`, on which both
/// texts can be cut.
pub open spec fn is_common_suffix(a: Seq<u8>, b: Seq<u8>, limit: int, n: int) -> bool {
    suffix_cut(a, b, limit, n) && forall|j: int| n < j ==> !suffix_cut(a, b, limit, j)
}

/// The longest common prefix length of `a` and `b` on which both can be cut.
pub open spec fn common_prefix(a: Seq<u8>, b: Seq<u8>) -> int {
    choose|n: int| is_common_prefix(a, b, n)
}

/// The longest common suffix length of `a` and `b`, leaving `prefix` bytes to
/// the common prefix, on which both can be cut.
pub open spec fn common_suffix(a: Seq<u8>, b: Seq<u8>, prefix: int) -> int {
    choose|n: int| is_common_suffix(a, b, suffix_limit(a, b, prefix), n)
}

proof fn lemma_common_prefix_unique(a: Seq<u8>, b: Seq<u8>, n: int)
    requires
        is_common_prefix(a, b, n),
    ensures
        common_prefix(a, b) == n,
{
    let c = common_prefix(a, b);
    assert(is_common_prefix(a, b, c));
    if c < n {
        assert(!prefix_cut(a, b, n));
    } else if n < c {
        assert(!prefix_cut(a, b, c));
    }
}

proof fn lemma_common_suffix_unique(a: Seq<u8>, b: Seq<u8>, limit: int, n: int)
    requires
        is_common_suffix(a, b, limit, n),
    ensures
        (choose|m: int| is_common_suffix(a, b, limit, m)) == n,
{
    let c = choose|m: int| is_common_suffix(a, b, limit, m);
    assert(is_common_suffix(a, b, limit, c));
    if c < n {
        assert(!suffix_cut(a, b, limit, n));
    } else if n < c {
        assert(!suffix_cut(a, b, limit, c));
    }
}

/// Length of the longest common prefix of `a` and `b` that ends on a char
/// boundary of both.
pub fn common_prefix_len(a: &str, b: &str) -> (r: usize)
    ensures
        is_common_prefix(bytes(a), bytes(b), r as int),
        r == common_prefix(bytes(a), bytes(b)),
{
    proof {
        lemma_valid(a);
        lemma_valid(b);
    }
    let ab = a.as_bytes();
    let bb = b.as_bytes();
    let max = if ab.len() < bb.len() { ab.len() } else { bb.len() };
    let mut i: usize = 0;
    while i < max && ab[i] == bb[i]
        invariant
            ab@ == bytes(a),
            bb@ == bytes(b),
            max <= ab@.len(),
            max <= bb@.len(),
            max == ab@.len() || max == bb@.len(),
            i <= max,
            agree_prefix(ab@, bb@, i as int),
        decreases max - i,
    {
        i += 1;
    }
    let ghost raw = i as int;
    assert forall|j: int| raw < j implies !agree_prefix(ab@, bb@, j) by {
        if agree_prefix(ab@, bb@, j) {
            assert(ab@[raw] == bb@[raw]);
        }
    }
    while i > 0 && (!a.is_char_boundary(i) || !b.is_char_boundary(i))
        invariant
            ab@ == bytes(a),
            bb@ == bytes(b),
            valid_utf8(ab@),
            valid_utf8(bb@),
            i <= raw,
            agree_prefix(ab@, bb@, raw),
            forall|j: int| raw < j ==> !agree_prefix(ab@, bb@, j),
            forall|j: int| i < j <= raw ==> !prefix_cut(ab@, bb@, j),
        decreases i,
    {
        i -= 1;
    }
    assert(agree_prefix(ab@, bb@, i as int));
    proof {
        lemma_common_prefix_unique(ab@, bb@, i as int);
    }
    i
}

/// Length of the longest common suffix of `a` and `b`, at most as long as what
/// is left of the shorter text after `prefix` bytes, that starts on a char
/// boundary of both.
pub fn common_suffix_len(a: &str, b: &str, prefix: usize) -> (r: usize)
    ensures
        is_common_suffix(bytes(a), bytes(b), suffix_limit(bytes(a), bytes(b), prefix as int), r as int),
        r == common_suffix(bytes(a), bytes(b), prefix as int),
{
    proof {
        lemma_valid(a);
        lemma_valid(b);
    }
    let ab = a.as_bytes();
    let bb = b.as_bytes();
    let la = ab.len();
    let lb = bb.len();
    let shorter = if la < lb { la } else { lb };
    let max = shorter.saturating_sub(prefix);
    let ghost limit = suffix_limit(ab@, bb@, prefix as int);
    assert(max == limit);
    let mut i: usize = 0;
    while i < max && ab[la - 1 - i] == bb[lb - 1 - i]
        invariant
            ab@ == bytes(a),
            bb@ == bytes(b),
            la == ab@.len(),
            lb == bb@.len(),
            max <= la,
            max <= lb,
            i <= max,
            agree_suffix(ab@, bb@, i as int),
        decreases max - i,
    {
        i += 1;
    }
    let ghost raw = i as int;
    assert forall|j: int| raw < j <= limit implies !agree_suffix(ab@, bb@, j) by {
        if agree_suffix(ab@, bb@, j) {
            assert(from_end(ab@, raw) == from_end(bb@, raw));
        }
    }
    while i > 0 && (!a.is_char_boundary(la - i) || !b.is_char_boundary(lb - i))
        invariant
            ab@ == bytes(a),
            bb@ == bytes(b),
            la == ab@.len(),
            lb == bb@.len(),
            valid_utf8(ab@),
            valid_utf8(bb@),
            i <= raw <= limit,
            raw <= la,
            raw <= lb,
            agree_suffix(ab@, bb@, raw),
            forall|j: int| raw < j <= limit ==> !agree_suffix(ab@, bb@, j),
            forall|j: int| i < j <= raw ==> !suffix_cut(ab@, bb@, limit, j),
        decreases i,
    {
        i -= 1;
    }
    assert(agree_suffix(ab@, bb@, i as int));
    proof {
        is_char_boundary_start_end_of_seq(ab@);
        is_char_boundary_start_end_of_seq(bb@);
        lemma_common_suffix_unique(ab@, bb@, limit, i as int);
    }
    i
}

/// How long a common suffix may be once `prefix` bytes are claimed by the
/// common prefix: what is left of the shorter text, or nothing.
pub open spec fn suffix_limit(a: Seq<u8>, b: Seq<u8>, prefix: int) -> int {
    let shorter = if a.len() < b.len() { a.len() as int } else { b.len() as int };
    if shorter > prefix { shorter - prefix } else { 0 }
}

/// Start of the line that holds byte offset `p`: one past the last `'\n'`
/// before `p`, or `0`.
pub open spec fn line_start_at(b: Seq<u8>, p: int) -> int
    decreases p,
{
    if p <= 0 {
        0
    } else if b[p - 1] == 10 {
        p
    } else {
        line_start_at(b, p - 1)
    }
}

/// End of the line that holds byte offset `p`: the first `'\n'` at or after
/// `p`, or the length of the text.
pub open spec fn line_end_at(b: Seq<u8>, p: int) -> int
    decreases b.len() - p,
{
    if p >= b.len() {
        b.len() as int
    } else if b[p] == 10 {
        p
    } else {
        line_end_at(b, p + 1)
    }
}

/// `pos` clamped to the length of the text.
pub open spec fn clamp_to(b: Seq<u8>, pos: int) -> int {
    if pos < b.len() { pos } else { b.len() as int }
}

/// A position the text can be cut at: a char boundary, or past the end.
pub open spec fn cuttable(b: Seq<u8>, pos: int) -> bool {
    pos >= b.len() || is_char_boundary(b, pos)
}

proof fn lemma_line_start_bounds(b: Seq<u8>, p: int)
    requires
        0 <= p <= b.len(),
    ensures
        0 <= line_start_at(b, p) <= p,
    decreases p,
{
    if p > 0 && b[p - 1] != 10 {
        lemma_line_start_bounds(b, p - 1);
    }
}

proof fn lemma_line_end_bounds(b: Seq<u8>, p: int)
    requires
        0 <= p <= b.len(),
    ensures
        p <= line_end_at(b, p) <= b.len(),
    decreases b.len() - p,
{
    if p < b.len() && b[p] != 10 {
        lemma_line_end_bounds(b, p + 1);
    }
}

/// Byte offset of the first character of the line holding `pos`.
fn line_start_byte(text: &str, pos: usize) -> (r: usize)
    requires
        cuttable(bytes(text), pos as int),
    ensures
        r == line_start_at(bytes(text), clamp_to(bytes(text), pos as int)),
{
    let tb = text.as_bytes();
    let p = if pos < tb.len() { pos } else { tb.len() };
    let mut i = p;
    while i > 0 && tb[i - 1] != 10
        invariant
            tb@ == bytes(text),
            i <= p <= tb@.len(),
            line_start_at(tb@, i as int) == line_start_at(tb@, p as int),
        decreases i,
    {
        i -= 1;
    }
    i
}

/// Byte offset of the end of the line holding `pos`: the next `'\n'` at or
/// after it, or the length of the text.
fn line_end_byte(text: &str, pos: usize) -> (r: usize)
    requires
        cuttable(bytes(text), pos as int),
    ensures
        r == line_end_at(bytes(text), clamp_to(bytes(text), pos as int)),
{
    let tb = text.as_bytes();
    let p = if pos < tb.len() { pos } else { tb.len() };
    let mut i = p;
    while i < tb.len() && tb[i] != 10
        invariant
            tb@ == bytes(text),
            p <= i <= tb@.len(),
            line_end_at(tb@, i as int) == line_end_at(tb@, p as int),
        decreases tb@.len() - i,
    {
        i += 1;
    }
    i
}

/// What is left of `span` outside the half-open hole `[hs, he)`: the part
/// before the hole and the part after it, each only when non-empty.
pub open spec fn subtract_hole_spec(span: HighlightSpan, hs: int, he: int) -> Seq<HighlightSpan> {
    let left_end = if span.end < hs { span.end as int } else { hs };
    let right_start = if span.start > he { span.start as int } else { he };
    let left = if span.start < hs && span.start < left_end {
        seq![HighlightSpan { start: span.start, end: left_end as usize, highlight: span.highlight }]
    } else {
        Seq::empty()
    };
    let right = if span.end > he && right_start < span.end {
        seq![HighlightSpan { start: right_start as usize, end: span.end, highlight: span.highlight }]
    } else {
        Seq::empty()
    };
    left + right
}

/// The pieces of `span` that remain strictly outside `[hole_start, hole_end)`.
fn subtract_hole(span: &HighlightSpan, hole_start: usize, hole_end: usize) -> (pieces: Vec<
    HighlightSpan,
>)
    ensures
        pieces@ == subtract_hole_spec(*span, hole_start as int, hole_end as int),
{
    let mut pieces: Vec<HighlightSpan> = Vec::with_capacity(2);
    if span.start < hole_start {
        let end = if span.end < hole_start { span.end } else { hole_start };
        if span.start < end {
            pieces.push(HighlightSpan { start: span.start, end, highlight: span.highlight });
        }
    }
    let ghost left = pieces@;
    if span.end > hole_end {
        let start = if span.start > hole_end { span.start } else { hole_end };
        if start < span.end {
            pieces.push(HighlightSpan { start, end: span.end, highlight: span.highlight });
        }
    }
    proof {
        assert(pieces@ =~= subtract_hole_spec(*span, hole_start as int, hole_end as int));
    }
    pieces
}

/// Common prefix of an edit from `old` to `new`.
pub open spec fn edit_prefix(old: Seq<u8>, new: Seq<u8>) -> int {
    common_prefix(old, new)
}

/// Common suffix of an edit from `old` to `new`.
pub open spec fn edit_suffix(old: Seq<u8>, new: Seq<u8>) -> int {
    common_suffix(old, new, edit_prefix(old, new))
}

/// Exclusive end of the changed bytes, in `old` coordinates.
pub open spec fn old_change_end(old: Seq<u8>, new: Seq<u8>) -> int {
    old.len() - edit_suffix(old, new)
}

/// Exclusive end of the changed bytes, in `new` coordinates.
pub open spec fn new_change_end(old: Seq<u8>, new: Seq<u8>) -> int {
    new.len() - edit_suffix(old, new)
}

/// The last byte of `new` that the change touched, or the edit point of a
/// pure deletion.
pub open spec fn last_changed(old: Seq<u8>, new: Seq<u8>) -> int {
    if new_change_end(old, new) > edit_prefix(old, new) {
        new_change_end(old, new) - 1
    } else {
        edit_prefix(old, new)
    }
}

/// Start of the plain hole: the start of the first touched line of `new`.
pub open spec fn hole_start(old: Seq<u8>, new: Seq<u8>) -> int {
    line_start_at(new, clamp_to(new, edit_prefix(old, new)))
}

/// End of the plain hole: the end of the last touched line of `new`.
pub open spec fn hole_end(old: Seq<u8>, new: Seq<u8>) -> int {
    line_end_at(new, clamp_to(new, last_changed(old, new)))
}

/// `x` moved by `delta`, floored at zero.
pub open spec fn shifted(x: usize, delta: int) -> usize {
    if x + delta < 0 {
        0
    } else {
        (x + delta) as usize
    }
}

/// `span` as is when it lies wholly outside `[hs, he)`, else its remnants
/// outside the hole.
pub open spec fn outside_hole(span: HighlightSpan, hs: int, he: int) -> Seq<HighlightSpan> {
    if span.end <= hs || span.start >= he {
        seq![span]
    } else {
        subtract_hole_spec(span, hs, he)
    }
}

/// What one good span of `old` contributes to the remapped set for `new`:
/// prefix spans stay, suffix spans move by the length change, spans over the
/// change vanish; all are kept out of the hole.
pub open spec fn remap_one(span: HighlightSpan, old: Seq<u8>, new: Seq<u8>) -> Seq<HighlightSpan> {
    let hs = hole_start(old, new);
    let he = hole_end(old, new);
    let delta = new.len() - old.len();
    if span.end <= edit_prefix(old, new) {
        outside_hole(span, hs, he)
    } else if span.start >= old_change_end(old, new) {
        outside_hole(
            HighlightSpan {
                start: shifted(span.start, delta),
                end: shifted(span.end, delta),
                highlight: span.highlight,
            },
            hs,
            he,
        )
    } else {
        Seq::empty()
    }
}

/// The contributions of all `spans`, in input order.
pub open spec fn remap_all(spans: Seq<HighlightSpan>, old: Seq<u8>, new: Seq<u8>) -> Seq<
    HighlightSpan,
>
    decreases spans.len(),
{
    if spans.len() == 0 {
        Seq::empty()
    } else {
        remap_all(spans.drop_last(), old, new) + remap_one(spans.last(), old, new)
    }
}

/// Where `x` goes in `s` when inserted behind every element that does not
/// start after it, scanning from the back.
pub open spec fn insert_pos(s: Seq<HighlightSpan>, x: HighlightSpan) -> int
    decreases s.len(),
{
    if s.len() == 0 {
        0
    } else if x.start < s.last().start {
        insert_pos(s.drop_last(), x)
    } else {
        s.len() as int
    }
}

/// Stable sort by `start`.
pub open spec fn sort_by_start(s: Seq<HighlightSpan>) -> Seq<HighlightSpan>
    decreases s.len(),
{
    if s.len() == 0 {
        Seq::empty()
    } else {
        let rest = sort_by_start(s.drop_last());
        rest.insert(insert_pos(rest, s.last()), s.last())
    }
}

/// Whether moving `span` by the edit's length change stays in `isize` range.
pub open spec fn shift_in_range(span: HighlightSpan, old: Seq<u8>, new: Seq<u8>) -> bool {
    let delta = new.len() - old.len();
    span.start <= isize::MAX && span.end <= isize::MAX && span.start + delta <= isize::MAX
        && span.end + delta <= isize::MAX
}

/// The inputs on which the remap is defined: texts within `isize` range, a
/// change whose last touched byte is a place the new text can be cut at, and
/// suffix spans whose move stays in range.
pub open spec fn remap_defined(old: Seq<u8>, new: Seq<u8>, spans: Seq<HighlightSpan>) -> bool {
    &&& old.len() <= isize::MAX
    &&& new.len() <= isize::MAX
    &&& cuttable(new, last_changed(old, new))
    &&& forall|i: int|
        0 <= i < spans.len() && !(spans[i].end <= edit_prefix(old, new)) && spans[i].start
            >= old_change_end(old, new) ==> #[trigger] shift_in_range(spans[i], old, new)
}

proof fn lemma_insert_pos_bounds(s: Seq<HighlightSpan>, x: HighlightSpan)
    ensures
        0 <= insert_pos(s, x) <= s.len(),
    decreases s.len(),
{
    if s.len() > 0 && x.start < s.last().start {
        lemma_insert_pos_bounds(s.drop_last(), x);
    }
}

fn push_outside_hole(out: &mut Vec<HighlightSpan>, span: HighlightSpan, hole_start: usize, hole_end: usize)
    ensures
        final(out)@ == old(out)@ + outside_hole(span, hole_start as int, hole_end as int),
{
    if span.end <= hole_start || span.start >= hole_end {
        out.push(span);
        proof {
            assert(final(out)@ =~= old(out)@ + outside_hole(span, hole_start as int, hole_end as int));
        }
    } else {
        let mut pieces = subtract_hole(&span, hole_start, hole_end);
        out.append(&mut pieces);
    }
}

fn insert_by_start(v: &mut Vec<HighlightSpan>, x: HighlightSpan)
    ensures
        final(v)@ == old(v)@.insert(insert_pos(old(v)@, x), x),
{
    let mut p = v.len();
    proof {
        assert(v@.take(p as int) =~= v@);
    }
    while p > 0 && x.start < v[p - 1].start
        invariant
            v@ == old(v)@,
            p <= v@.len(),
            insert_pos(v@, x) == insert_pos(v@.take(p as int), x),
        decreases p,
    {
        proof {
            assert(v@.take(p as int).drop_last() =~= v@.take(p - 1));
        }
        p -= 1;
    }
    proof {
        if p > 0 {
            assert(v@.take(p as int).last() == v@[p - 1]);
        }
    }
    v.insert(p, x);
}

fn sort_spans_by_start(v: Vec<HighlightSpan>) -> (r: Vec<HighlightSpan>)
    ensures
        r@ == sort_by_start(v@),
{
    let mut r: Vec<HighlightSpan> = Vec::with_capacity(v.len());
    let mut i: usize = 0;
    while i < v.len()
        invariant
            i <= v@.len(),
            r@ == sort_by_start(v@.take(i as int)),
        decreases v@.len() - i,
    {
        proof {
            assert(v@.take(i + 1).drop_last() =~= v@.take(i as int));
        }
        insert_by_start(&mut r, v[i]);
        i += 1;
    }
    proof {
        assert(v@.take(v@.len() as int) =~= v@);
    }
    r
}

/// Carry a good span set of `old_text` over to `new_text` after an edit:
/// unchanged prefix spans stay, unchanged suffix spans move by the length
/// change, spans over the change are dropped, and nothing colors the touched
/// lines (the plain hole). The result is sorted by start.
pub fn remap_good_spans_across_edit(old_text: &str, new_text: &str, good_spans: &[HighlightSpan]) -> (out: Vec<HighlightSpan>)
    requires
        remap_defined(bytes(old_text), bytes(new_text), good_spans@),
    ensures
        out@ == sort_by_start(remap_all(good_spans@, bytes(old_text), bytes(new_text))),
{
    let ghost ob = bytes(old_text);
    let ghost nb = bytes(new_text);
    let old_len = old_text.len();
    let new_len = new_text.len();
    let prefix = common_prefix_len(old_text, new_text);
    let suffix = common_suffix_len(old_text, new_text, prefix);
    let old_end = old_len - suffix;
    let new_end = new_len - suffix;
    let delta: isize = new_len as isize - old_len as isize;
    let hole_lo = line_start_byte(new_text, prefix);
    let last_touched = if new_end > prefix { new_end - 1 } else { prefix };
    let hole_hi = line_end_byte(new_text, last_touched);
    proof {
        lemma_valid(new_text);
        lemma_boundary_in_bounds(nb, prefix as int);
        lemma_line_start_bounds(nb, prefix as int);
        assert(hole_lo as int == hole_start(ob, nb));
        assert(hole_hi as int == hole_end(ob, nb));
    }
    let mut out: Vec<HighlightSpan> = Vec::with_capacity(good_spans.len());
    let mut i: usize = 0;
    while i < good_spans.len()
        invariant
            ob == bytes(old_text),
            nb == bytes(new_text),
            remap_defined(ob, nb, good_spans@),
            i <= good_spans@.len(),
            prefix == edit_prefix(ob, nb),
            old_end == old_change_end(ob, nb),
            delta == nb.len() - ob.len(),
            hole_lo == hole_start(ob, nb),
            hole_hi == hole_end(ob, nb),
            out@ == remap_all(good_spans@.take(i as int), ob, nb),
        decreases good_spans@.len() - i,
    {
        let s = good_spans[i];
        proof {
            assert(good_spans@.take(i + 1).drop_last() =~= good_spans@.take(i as int));
            assert(good_spans@.take(i + 1).last() == s);
        }
        if s.end <= prefix {
            push_outside_hole(&mut out, s, hole_lo, hole_hi);
        } else if s.start >= old_end {
            proof {
                assert(shift_in_range(good_spans@[i as int], ob, nb));
            }
            let a: isize = s.start as isize + delta;
            let b: isize = s.end as isize + delta;
            let ns: usize = if a < 0 { 0 } else { a as usize };
            let ne: usize = if b < 0 { 0 } else { b as usize };
            push_outside_hole(
                &mut out,
                HighlightSpan { start: ns, end: ne, highlight: s.highlight },
                hole_lo,
                hole_hi,
            );
        } else {
            proof {
                assert(out@ + Seq::<HighlightSpan>::empty() =~= out@);
            }
        }
        i += 1;
    }
    proof {
        assert(good_spans@.take(good_spans@.len() as int) =~= good_spans@);
    }
    sort_spans_by_start(out)
}

/// Every span of `s` starts no later than the spans after it.
pub open spec fn sorted_by_start(s: Seq<HighlightSpan>) -> bool {
    forall|i: int, j: int| 0 <= i < j < s.len() ==> s[i].start <= s[j].start
}

/// The span lies wholly on one side of `[hs, he)`.
pub open spec fn clear_of(span: HighlightSpan, hs: int, he: int) -> bool {
    span.end <= hs || span.start >= he
}

proof fn lemma_insert_pos_splits(s: Seq<HighlightSpan>, x: HighlightSpan)
    requires
        sorted_by_start(s),
    ensures
        forall|k: int| 0 <= k < insert_pos(s, x) ==> s[k].start <= x.start,
        forall|k: int| insert_pos(s, x) <= k < s.len() ==> s[k].start > x.start,
    decreases s.len(),
{
    lemma_insert_pos_bounds(s, x);
    if s.len() > 0 {
        if x.start < s.last().start {
            let d = s.drop_last();
            assert(sorted_by_start(d));
            lemma_insert_pos_splits(d, x);
            lemma_insert_pos_bounds(d, x);
            assert forall|k: int| 0 <= k < insert_pos(s, x) implies s[k].start <= x.start by {
                assert(s[k] == d[k]);
            }
            assert forall|k: int| insert_pos(s, x) <= k < s.len() implies s[k].start > x.start by {
                if k < d.len() {
                    assert(s[k] == d[k]);
                }
            }
        } else {
            assert forall|k: int| 0 <= k < insert_pos(s, x) implies s[k].start <= x.start by {
                assert(s[k].start <= s[s.len() - 1].start);
            }
        }
    }
}

proof fn lemma_sort_sorted(s: Seq<HighlightSpan>)
    ensures
        sorted_by_start(sort_by_start(s)),
        sort_by_start(s).len() == s.len(),
    decreases s.len(),
{
    if s.len() > 0 {
        let rest = sort_by_start(s.drop_last());
        let x = s.last();
        lemma_sort_sorted(s.drop_last());
        lemma_insert_pos_splits(rest, x);
        lemma_insert_pos_bounds(rest, x);
        let p = insert_pos(rest, x);
        let r = rest.insert(p, x);
        assert forall|i: int, j: int| 0 <= i < j < r.len() implies r[i].start <= r[j].start by {
            if j < p {
            } else if i < p && j == p {
            } else if i < p {
                assert(r[j] == rest[j - 1]);
            } else if i == p {
                assert(r[j] == rest[j - 1]);
            } else {
                assert(r[i] == rest[i - 1]);
                assert(r[j] == rest[j - 1]);
            }
        }
    }
}

proof fn lemma_sort_members(s: Seq<HighlightSpan>, hs: int, he: int)
    requires
        forall|k: int| 0 <= k < s.len() ==> clear_of(#[trigger] s[k], hs, he),
    ensures
        forall|k: int| 0 <= k < sort_by_start(s).len() ==> clear_of(#[trigger] sort_by_start(s)[k], hs, he),
    decreases s.len(),
{
    if s.len() > 0 {
        let rest = sort_by_start(s.drop_last());
        let x = s.last();
        assert(clear_of(s[s.len() - 1], hs, he));
        lemma_sort_members(s.drop_last(), hs, he);
        lemma_insert_pos_bounds(rest, x);
        let p = insert_pos(rest, x);
        let r = rest.insert(p, x);
        assert forall|k: int| 0 <= k < r.len() implies clear_of(#[trigger] r[k], hs, he) by {
            if k < p {
                assert(r[k] == rest[k]);
            } else if k > p {
                assert(r[k] == rest[k - 1]);
            }
        }
    }
}

proof fn lemma_remap_all_clear(spans: Seq<HighlightSpan>, old: Seq<u8>, new: Seq<u8>)
    ensures
        forall|k: int|
            0 <= k < remap_all(spans, old, new).len() ==> clear_of(
                #[trigger] remap_all(spans, old, new)[k],
                hole_start(old, new),
                hole_end(old, new),
            ),
    decreases spans.len(),
{
    if spans.len() > 0 {
        lemma_remap_all_clear(spans.drop_last(), old, new);
        let a = remap_all(spans.drop_last(), old, new);
        let b = remap_one(spans.last(), old, new);
        let hs = hole_start(old, new);
        let he = hole_end(old, new);
        assert forall|k: int| 0 <= k < (a + b).len() implies clear_of(#[trigger] (a + b)[k], hs, he) by {
            if k >= a.len() {
                assert((a + b)[k] == b[k - a.len()]);
            }
        }
    }
}

/// Law: after a remap, no span colors any byte of the plain hole over the
/// touched lines; every span lies wholly before or wholly after it.
pub proof fn law_remap_keeps_hole_plain(old: Seq<u8>, new: Seq<u8>, spans: Seq<HighlightSpan>)
    ensures
        forall|k: int|
            0 <= k < sort_by_start(remap_all(spans, old, new)).len() ==> clear_of(
                #[trigger] sort_by_start(remap_all(spans, old, new))[k],
                hole_start(old, new),
                hole_end(old, new),
            ),
{
    lemma_remap_all_clear(spans, old, new);
    lemma_sort_members(remap_all(spans, old, new), hole_start(old, new), hole_end(old, new));
}

/// The longest suffix cut not longer than `m`.
spec fn best_suffix_upto(a: Seq<u8>, b: Seq<u8>, limit: int, m: int) -> int
    decreases m,
{
    if m <= 0 {
        0
    } else if suffix_cut(a, b, limit, m) {
        m
    } else {
        best_suffix_upto(a, b, limit, m - 1)
    }
}

proof fn lemma_best_suffix(a: Seq<u8>, b: Seq<u8>, limit: int, m: int)
    requires
        0 <= limit,
        valid_utf8(a),
        valid_utf8(b),
        is_char_boundary(a, a.len() as int),
        is_char_boundary(b, b.len() as int),
    ensures
        suffix_cut(a, b, limit, best_suffix_upto(a, b, limit, m)),
        forall|j: int| best_suffix_upto(a, b, limit, m) < j <= m ==> !suffix_cut(a, b, limit, j),
    decreases m,
{
    if m > 0 && !suffix_cut(a, b, limit, m) {
        lemma_best_suffix(a, b, limit, m - 1);
    }
    if m <= 0 {
        assert(agree_suffix(a, b, 0));
    }
}

/// Law: a remapped span set is sorted by start.
pub proof fn law_remap_sorted(old: Seq<u8>, new: Seq<u8>, spans: Seq<HighlightSpan>)
    ensures
        sorted_by_start(sort_by_start(remap_all(spans, old, new))),
{
    lemma_sort_sorted(remap_all(spans, old, new));
}

/// Law: the unchanged tail of an edit is byte-identical in both texts, so a
/// suffix byte of `old` at offset `i` sits at `i` plus the length change in
/// `new`; a span moved by that change covers the same bytes as before.
pub proof fn law_suffix_bytes_identical(old: &str, new: &str, i: int)
    requires
        old_change_end(bytes(old), bytes(new)) <= i < bytes(old).len(),
    ensures
        bytes(new)[i + bytes(new).len() - bytes(old).len()] == bytes(old)[i],
{
    let ob = bytes(old);
    let nb = bytes(new);
    lemma_valid(old);
    lemma_valid(new);
    let p = common_prefix(ob, nb);
    let limit = suffix_limit(ob, nb, p);
    is_char_boundary_start_end_of_seq(ob);
    is_char_boundary_start_end_of_seq(nb);
    lemma_best_suffix(ob, nb, limit, limit);
    assert(is_common_suffix(ob, nb, limit, best_suffix_upto(ob, nb, limit, limit)));
    let n = edit_suffix(ob, nb);
    assert(is_common_suffix(ob, nb, limit, n));
    let k = ob.len() - 1 - i;
    assert(from_end(ob, k) == from_end(nb, k));
}

/// A span that may color `b`: non-empty, in bounds, on char boundaries.
pub open spec fn valid_span(b: Seq<u8>, span: HighlightSpan) -> bool {
    span.start < span.end && span.end <= b.len() && is_char_boundary(b, span.start as int)
        && is_char_boundary(b, span.end as int)
}

/// The spans of `s` that are valid against `b`, in order.
pub open spec fn valid_spans(b: Seq<u8>, s: Seq<HighlightSpan>) -> Seq<HighlightSpan>
    decreases s.len(),
{
    if s.len() == 0 {
        Seq::empty()
    } else if valid_span(b, s.last()) {
        valid_spans(b, s.drop_last()).push(s.last())
    } else {
        valid_spans(b, s.drop_last())
    }
}

/// Keep only the spans whose byte range is valid against `source`:
/// non-empty, in bounds, and on UTF-8 char boundaries.
pub fn validate_spans_for_source(spans: &[HighlightSpan], source: &str) -> (valid: Vec<HighlightSpan>)
    ensures
        valid@ == valid_spans(bytes(source), spans@),
{
    proof {
        lemma_valid(source);
    }
    let mut valid: Vec<HighlightSpan> = Vec::with_capacity(spans.len());
    let mut i: usize = 0;
    while i < spans.len()
        invariant
            valid_utf8(bytes(source)),
            i <= spans@.len(),
            valid@ == valid_spans(bytes(source), spans@.take(i as int)),
        decreases spans@.len() - i,
    {
        let s = spans[i];
        proof {
            assert(spans@.take(i + 1).drop_last() =~= spans@.take(i as int));
            assert(spans@.take(i + 1).last() == s);
        }
        let ok = s.start < s.end && source.is_char_boundary(s.start) && source.is_char_boundary(
            s.end,
        );
        proof {
            if source.is_char_boundary(s.end) {
                lemma_boundary_in_bounds(bytes(source), s.end as int);
            }
        }
        if ok {
            valid.push(s);
        }
        i += 1;
    }
    proof {
        assert(spans@.take(spans@.len() as int) =~= spans@);
    }
    valid
}

/// The highest `end` of the spans in `s`, or `0` for none.
pub open spec fn max_end(s: Seq<HighlightSpan>) -> usize
    decreases s.len(),
{
    if s.len() == 0 {
        0
    } else {
        let m = max_end(s.drop_last());
        if s.last().end > m { s.last().end } else { m }
    }
}

/// How far a span set reaches: the highest `end`, `0` for an empty set.
pub fn coverage_end(spans: &[HighlightSpan]) -> (r: usize)
    ensures
        r == max_end(spans@),
{
    let mut m: usize = 0;
    let mut i: usize = 0;
    while i < spans.len()
        invariant
            i <= spans@.len(),
            m == max_end(spans@.take(i as int)),
        decreases spans@.len() - i,
    {
        proof {
            assert(spans@.take(i + 1).drop_last() =~= spans@.take(i as int));
        }
        if spans[i].end > m {
            m = spans[i].end;
        }
        i += 1;
    }
    proof {
        assert(spans@.take(spans@.len() as int) =~= spans@);
    }
    m
}

/// Stable number of a highlight class.
pub open spec fn highlight_code(h: Highlight) -> u64 {
    match h {
        Highlight::Comment => 0,
        Highlight::String => 1,
        Highlight::Keyword => 2,
        Highlight::Function => 3,
        Highlight::Type => 4,
        Highlight::Number => 5,
        Highlight::Constant => 6,
        Highlight::Variable => 7,
        Highlight::Operator => 8,
        Highlight::Punctuation => 9,
        Highlight::Attribute => 10,
        Highlight::Property => 11,
        Highlight::Namespace => 12,
        Highlight::Plain => 13,
    }
}

impl Highlight {
    /// Stable number of this highlight class.
    pub fn code(self) -> (r: u64)
        ensures
            r == highlight_code(self),
    {
        match self {
            Highlight::Comment => 0,
            Highlight::String => 1,
            Highlight::Keyword => 2,
            Highlight::Function => 3,
            Highlight::Type => 4,
            Highlight::Number => 5,
            Highlight::Constant => 6,
            Highlight::Variable => 7,
            Highlight::Operator => 8,
            Highlight::Punctuation => 9,
            Highlight::Attribute => 10,
            Highlight::Property => 11,
            Highlight::Namespace => 12,
            Highlight::Plain => 13,
        }
    }
}

/// FNV-1a offset basis.
pub const FNV_OFFSET: u64 = 0xcbf29ce484222325;

/// FNV-1a prime.
pub const FNV_PRIME: u64 = 0x100000001b3;

/// One FNV-1a step: fold `v` into `h`.
pub open spec fn fnv_mix(h: u64, v: u64) -> u64 {
    (h ^ v).wrapping_mul(FNV_PRIME)
}

/// The fingerprint state after folding in the spans of `s`, each as its
/// start, end and highlight code.
pub open spec fn fold_spans(h: u64, s: Seq<HighlightSpan>) -> u64
    decreases s.len(),
{
    if s.len() == 0 {
        h
    } else {
        let g = fold_spans(h, s.drop_last());
        let x = s.last();
        fnv_mix(fnv_mix(fnv_mix(g, x.start as u64), x.end as u64), highlight_code(x.highlight))
    }
}

/// Order-sensitive FNV-1a fingerprint of a span set: its length, then each
/// span's start, end and highlight code.
pub open spec fn spans_fingerprint_spec(s: Seq<HighlightSpan>) -> u64 {
    fold_spans(fnv_mix(FNV_OFFSET, s.len() as u64), s)
}

/// A stable fingerprint of a span generation.
pub fn spans_fingerprint(spans: &[HighlightSpan]) -> (h: u64)
    ensures
        h == spans_fingerprint_spec(spans@),
{
    let mut h: u64 = FNV_OFFSET;
    crate::ui_nodes::mix(&mut h, spans.len() as u64);
    let ghost h0 = h;
    let mut i: usize = 0;
    while i < spans.len()
        invariant
            i <= spans@.len(),
            h0 == fnv_mix(FNV_OFFSET, spans@.len() as u64),
            h == fold_spans(h0, spans@.take(i as int)),
        decreases spans@.len() - i,
    {
        proof {
            assert(spans@.take(i + 1).drop_last() =~= spans@.take(i as int));
        }
        let s = spans[i];
        crate::ui_nodes::mix(&mut h, s.start as u64);
        crate::ui_nodes::mix(&mut h, s.end as u64);
        crate::ui_nodes::mix(&mut h, s.highlight.code());
        i += 1;
    }
    proof {
        assert(spans@.take(spans@.len() as int) =~= spans@);
    }
    h
}

/// The bytes of `src` in `[a, b)` when that range is well formed, else none.
pub open spec fn piece(src: Seq<u8>, a: int, b: int) -> Seq<u8> {
    if well_formed_range(src, a, b) {
        src.subrange(a, b)
    } else {
        Seq::empty()
    }
}

/// A colored run: some text and the highlight that colors it (`Plain` for
/// text no span covers).
pub type Run = (String, Highlight);

/// Runs as UTF-8 bytes and highlights.
pub open spec fn runs_view(v: Seq<Run>) -> Seq<(Seq<u8>, Highlight)> {
    v.map_values(|r: Run| (encode_utf8(r.0@), r.1))
}

/// The spans of `s` that overlap `[lo, hi)`, in order.
pub open spec fn overlapping(s: Seq<HighlightSpan>, lo: int, hi: int) -> Seq<HighlightSpan>
    decreases s.len(),
{
    if s.len() == 0 {
        Seq::empty()
    } else if s.last().start < hi && s.last().end > lo {
        overlapping(s.drop_last(), lo, hi).push(s.last())
    } else {
        overlapping(s.drop_last(), lo, hi)
    }
}

/// A one-run sequence when the piece is not empty, else none.
pub open spec fn run_if(p: Seq<u8>, h: Highlight) -> Seq<(Seq<u8>, Highlight)> {
    if p.len() > 0 {
        seq![(p, h)]
    } else {
        Seq::empty()
    }
}

/// Runs emitted for the first `k` of the line's spans, and the position
/// reached: before each span the uncovered gap (plain), then the part of the
/// span inside the line (its highlight); pieces that do not slice cleanly
/// are left out.
pub open spec fn fold_runs(src: Seq<u8>, spans: Seq<HighlightSpan>, line_end: int, start: int, k: int) -> (
    Seq<(Seq<u8>, Highlight)>,
    int,
)
    decreases k,
{
    if k <= 0 {
        (Seq::empty(), start)
    } else {
        let (out, pos) = fold_runs(src, spans, line_end, start, k - 1);
        let sp = spans[k - 1];
        let seg_start = if sp.start > pos { sp.start as int } else { pos };
        let seg_end = if sp.end < line_end { sp.end as int } else { line_end };
        let gap = if seg_start > pos { run_if(piece(src, pos, seg_start), Highlight::Plain) } else { Seq::empty() };
        let body = if seg_start < seg_end { run_if(piece(src, seg_start, seg_end), sp.highlight) } else { Seq::empty() };
        (out + gap + body, if seg_end > pos { seg_end } else { pos })
    }
}

/// Colored runs of one line of `src` that starts at byte `offset`: the
/// whole line plain when no span overlaps it, else the spans' runs and a
/// plain tail.
pub open spec fn line_runs_spec(line: Seq<u8>, offset: int, src: Seq<u8>, spans: Seq<HighlightSpan>) -> Seq<
    (Seq<u8>, Highlight),
> {
    let line_end = offset + line.len();
    let ls = overlapping(spans, offset, line_end);
    if ls.len() == 0 {
        seq![(line, Highlight::Plain)]
    } else {
        let (out, pos) = fold_runs(src, ls, line_end, offset, ls.len() as int);
        if pos < line_end {
            out + run_if(piece(src, pos, line_end), Highlight::Plain)
        } else {
            out
        }
    }
}

fn overlapping_spans(spans: &[HighlightSpan], lo: usize, hi: usize) -> (r: Vec<HighlightSpan>)
    ensures
        r@ == overlapping(spans@, lo as int, hi as int),
{
    let mut r: Vec<HighlightSpan> = Vec::new();
    let mut i: usize = 0;
    while i < spans.len()
        invariant
            i <= spans@.len(),
            r@ == overlapping(spans@.take(i as int), lo as int, hi as int),
        decreases spans@.len() - i,
    {
        proof {
            assert(spans@.take(i + 1).drop_last() =~= spans@.take(i as int));
        }
        if spans[i].start < hi && spans[i].end > lo {
            r.push(spans[i]);
        }
        i += 1;
    }
    proof {
        assert(spans@.take(spans@.len() as int) =~= spans@);
    }
    r
}

fn push_piece(out: &mut Vec<Run>, source: &str, a: usize, b: usize, h: Highlight)
    ensures
        runs_view(final(out)@) == runs_view(old(out)@) + run_if(piece(bytes(source), a as int, b as int), h),
{
    let t = safe_slice(source, a, b);
    let ghost before = out@;
    if t.as_bytes().len() > 0 {
        let st = crate::text::string_of(t);
        out.push((st, h));
        proof {
            assert(runs_view(out@) =~= runs_view(before).push((encode_utf8(st@), h)));
        }
    }
    proof {
        lemma_valid(source);
        assert(runs_view(out@) =~= runs_view(before) + run_if(piece(bytes(source), a as int, b as int), h));
    }
}

/// Colored runs of one line: `line` is the text at byte `byte_offset` of
/// `source`; only spans overlapping the line color it, and only the exact
/// bytes they cover; everything else is plain.
pub fn line_runs(line: &str, byte_offset: usize, source: &str, spans: &[HighlightSpan]) -> (out: Vec<Run>)
    requires
        byte_offset + bytes(line).len() <= usize::MAX,
    ensures
        runs_view(out@) == line_runs_spec(bytes(line), byte_offset as int, bytes(source), spans@),
{
    let line_end = byte_offset + line.as_bytes().len();
    let ls = overlapping_spans(spans, byte_offset, line_end);
    let mut out: Vec<Run> = Vec::new();
    if ls.len() == 0 {
        let st = crate::text::string_of(line);
        out.push((st, Highlight::Plain));
        proof {
            assert(runs_view(out@) =~= seq![(bytes(line), Highlight::Plain)]);
        }
        return out;
    }
    let mut pos = byte_offset;
    let mut k: usize = 0;
    while k < ls.len()
        invariant
            ls@ == overlapping(spans@, byte_offset as int, line_end as int),
            line_end == byte_offset + bytes(line).len(),
            k <= ls@.len(),
            byte_offset <= pos,
            (runs_view(out@), pos as int) == fold_runs(bytes(source), ls@, line_end as int, byte_offset as int, k as int),
        decreases ls@.len() - k,
    {
        let sp = ls[k];
        let seg_start = if sp.start > pos { sp.start } else { pos };
        let seg_end = if sp.end < line_end { sp.end } else { line_end };
        let ghost o0 = runs_view(out@);
        if seg_start > pos {
            push_piece(&mut out, source, pos, seg_start, Highlight::Plain);
        }
        let ghost o1 = runs_view(out@);
        if seg_start < seg_end && seg_start >= pos {
            push_piece(&mut out, source, seg_start, seg_end, sp.highlight);
        }
        proof {
            let gap = if seg_start > pos { run_if(piece(bytes(source), pos as int, seg_start as int), Highlight::Plain) } else { Seq::empty() };
            let body = if seg_start < seg_end { run_if(piece(bytes(source), seg_start as int, seg_end as int), sp.highlight) } else { Seq::empty() };
            assert(o1 =~= o0 + gap);
            assert(runs_view(out@) =~= o0 + gap + body);
        }
        if seg_end > pos {
            pos = seg_end;
        }
        k += 1;
    }
    if pos < line_end {
        push_piece(&mut out, source, pos, line_end, Highlight::Plain);
    }
    out
}

/// Spans of the full text rebased into a window of `window_len` bytes that
/// starts at byte `base`: each span overlapping the window, clipped to it,
/// in window coordinates; empty results dropped.
pub open spec fn rebase_spans(spans: Seq<HighlightSpan>, base: int, window_len: int) -> Seq<HighlightSpan>
    decreases spans.len(),
{
    if spans.len() == 0 {
        Seq::empty()
    } else {
        let rest = rebase_spans(spans.drop_last(), base, window_len);
        let s = spans.last();
        let start = if s.start > base { s.start - base } else { 0 };
        let end = if s.end - base < window_len { s.end - base } else { window_len };
        if s.end <= base || s.start >= base + window_len || !(start < end) {
            rest
        } else {
            rest.push(HighlightSpan { start: start as usize, end: end as usize, highlight: s.highlight })
        }
    }
}

/// Rebase full-text spans into a window `[base, base + window_len)`.
pub fn rebase_spans_to_window(spans: &[HighlightSpan], base: usize, window_len: usize) -> (r: Vec<HighlightSpan>)
    requires
        base + window_len <= usize::MAX,
    ensures
        r@ == rebase_spans(spans@, base as int, window_len as int),
{
    let window_end = base + window_len;
    let mut r: Vec<HighlightSpan> = Vec::new();
    let mut i: usize = 0;
    while i < spans.len()
        invariant
            window_end == base + window_len,
            i <= spans@.len(),
            r@ == rebase_spans(spans@.take(i as int), base as int, window_len as int),
        decreases spans@.len() - i,
    {
        proof {
            assert(spans@.take(i + 1).drop_last() =~= spans@.take(i as int));
        }
        let s = spans[i];
        if !(s.end <= base || s.start >= window_end) {
            let start = if s.start > base { s.start - base } else { 0 };
            let d = s.end - base;
            let end = if d < window_len { d } else { window_len };
            if start < end {
                r.push(HighlightSpan { start, end, highlight: s.highlight });
            }
        }
        i += 1;
    }
    proof {
        assert(spans@.take(spans@.len() as int) =~= spans@);
    }
    r
}

/// Colored runs of lines `i..` of a text whose line `i` starts at byte
/// `offset`: each line's runs, with a plain newline run between lines.
pub open spec fn colorize_lines(
    ls: Seq<Seq<char>>,
    i: int,
    offset: int,
    src: Seq<u8>,
    spans: Seq<HighlightSpan>,
) -> Seq<(Seq<u8>, Highlight)>
    decreases ls.len() - i,
{
    if i < 0 || i >= ls.len() {
        Seq::empty()
    } else {
        line_runs_spec(encode_utf8(ls[i]), offset, src, spans) + (if i + 1 < ls.len() {
            seq![(encode_utf8(seq!['\n']), Highlight::Plain)]
        } else {
            Seq::empty()
        }) + colorize_lines(ls, i + 1, offset + encode_utf8(ls[i]).len() + 1, src, spans)
    }
}

/// Byte length of the lines joined by newlines, counting a newline after
/// the last line too.
pub open spec fn lines_extent(ls: Seq<Seq<char>>) -> int
    decreases ls.len(),
{
    if ls.len() == 0 {
        0
    } else {
        lines_extent(ls.drop_last()) + encode_utf8(ls.last()).len() + 1
    }
}

pub(crate) proof fn lemma_lines_extent_prefix(ls: Seq<Seq<char>>, i: int)
    requires
        0 <= i < ls.len(),
    ensures
        lines_extent(ls.take(i)) + encode_utf8(ls[i]).len() + 1 == lines_extent(ls.take(i + 1)),
        lines_extent(ls.take(i + 1)) <= lines_extent(ls),
    decreases ls.len() - i,
{
    assert(ls.take(i + 1).drop_last() =~= ls.take(i));
    if i + 1 < ls.len() {
        lemma_lines_extent_prefix(ls, i + 1);
    } else {
        assert(ls.take(i + 1) =~= ls);
    }
}

/// Colorize a whole text given as lines: only spans valid against the text
/// the lines join to may color it; every line yields its runs, with a plain
/// newline run between lines.
pub fn colorize_source_runs(lines: &[String], spans: &[HighlightSpan]) -> (out: Vec<Run>)
    requires
        lines_extent(crate::text::strings_view(lines@)) <= usize::MAX,
    ensures
        ({
            let ls = crate::text::strings_view(lines@);
            let src = encode_utf8(crate::text::join_nl(ls));
            runs_view(out@) == colorize_lines(ls, 0, 0, src, valid_spans(src, spans@))
        }),
{
    let ghost ls = crate::text::strings_view(lines@);
    let mut joined: Vec<char> = Vec::new();
    let mut i: usize = 0;
    while i < lines.len()
        invariant
            ls == crate::text::strings_view(lines@),
            i <= lines@.len(),
            joined@ == crate::text::join_nl(ls.take(i as int)),
        decreases lines@.len() - i,
    {
        proof {
            assert(ls.take(i + 1).drop_last() =~= ls.take(i as int));
        }
        if i > 0 {
            joined.push('\n');
        }
        let lc = chars_of(lines[i].as_str());
        let ghost before = joined@;
        let mut k: usize = 0;
        while k < lc.len()
            invariant
                k <= lc@.len(),
                joined@ == before + lc@.take(k as int),
            decreases lc@.len() - k,
        {
            joined.push(lc[k]);
            proof {
                assert(lc@.take(k + 1) =~= lc@.take(k as int).push(lc@[k as int]));
            }
            k += 1;
        }
        proof {
            assert(lc@.take(k as int) =~= lc@);
            if i == 0 {
                assert(ls.take(1) =~= seq![ls[0]]);
            }
            assert(joined@ =~= crate::text::join_nl(ls.take(i + 1)));
        }
        i += 1;
    }
    proof {
        assert(ls.take(lines@.len() as int) =~= ls);
    }
    let source = crate::text::string_from_chars(joined.as_slice());
    let src = source.as_str();
    let valid = validate_spans_for_source(spans, src);
    let ghost sb = bytes(src);
    let ghost vs = valid@;
    let mut out: Vec<Run> = Vec::new();
    let mut offset: usize = 0;
    let mut j: usize = 0;
    while j < lines.len()
        invariant
            ls == crate::text::strings_view(lines@),
            lines_extent(ls) <= usize::MAX,
            j <= lines@.len(),
            offset == lines_extent(ls.take(j as int)),
            sb == bytes(src),
            vs == valid@,
            colorize_lines(ls, 0, 0, sb, vs) == runs_view(out@) + colorize_lines(ls, j as int, offset as int, sb, vs),
        decreases lines@.len() - j,
    {
        let line = lines[j].as_str();
        proof {
            lemma_lines_extent_prefix(ls, j as int);
            assert(ls[j as int] == line@);
        }
        let n = line.as_bytes().len();
        let mut runs = line_runs(line, offset, src, valid.as_slice());
        let ghost o = runs_view(out@);
        out.append(&mut runs);
        if j + 1 < lines.len() {
            let nl = crate::text::string_from_chars(&['\n']);
            out.push((nl, Highlight::Plain));
            proof {
                assert(nl@ =~= seq!['\n']);
                assert(runs_view(out@) =~= o + line_runs_spec(encode_utf8(line@), offset as int, sb, vs) + seq![
                    (encode_utf8(seq!['\n']), Highlight::Plain),
                ]);
            }
        } else {
            proof {
                assert(runs_view(out@) =~= o + line_runs_spec(encode_utf8(line@), offset as int, sb, vs) + Seq::<(Seq<u8>, Highlight)>::empty());
            }
        }
        offset = offset + n + 1;
        j += 1;
    }
    proof {
        assert(colorize_lines(ls, j as int, offset as int, sb, vs) =~= Seq::empty());
        assert(runs_view(out@) + Seq::<(Seq<u8>, Highlight)>::empty() =~= runs_view(out@));
    }
    out
}

/// Byte length of lines joined by newlines.
pub open spec fn joined_len(ls: Seq<Seq<char>>) -> int {
    if ls.len() == 0 {
        0
    } else {
        lines_extent(ls) - 1
    }
}

proof fn lemma_lines_extent_positive(ls: Seq<Seq<char>>)
    requires
        ls.len() > 0,
    ensures
        lines_extent(ls) >= 1,
{
    assert(ls.drop_last().len() < ls.len());
    lemma_lines_extent_nonneg(ls.drop_last());
}

proof fn lemma_lines_extent_nonneg(ls: Seq<Seq<char>>)
    ensures
        lines_extent(ls) >= 0,
    decreases ls.len(),
{
    if ls.len() > 0 {
        lemma_lines_extent_nonneg(ls.drop_last());
    }
}

/// Colorize only the lines of a viewport window whose first line starts at
/// byte `window_base` of the full text: spans are rebased and clipped to the
/// window, then the window is colorized as a text of its own.
pub fn colorize_window_runs(window_lines: &[String], window_base: usize, spans: &[HighlightSpan]) -> (out: Vec<Run>)
    requires
        window_base + lines_extent(crate::text::strings_view(window_lines@)) <= usize::MAX,
    ensures
        ({
            let ls = crate::text::strings_view(window_lines@);
            let src = encode_utf8(crate::text::join_nl(ls));
            let local = rebase_spans(spans@, window_base as int, joined_len(ls));
            runs_view(out@) == colorize_lines(ls, 0, 0, src, valid_spans(src, local))
        }),
{
    let ghost ls = crate::text::strings_view(window_lines@);
    let mut total: usize = 0;
    let mut i: usize = 0;
    while i < window_lines.len()
        invariant
            ls == crate::text::strings_view(window_lines@),
            window_base + lines_extent(ls) <= usize::MAX,
            i <= window_lines@.len(),
            total == lines_extent(ls.take(i as int)),
        decreases window_lines@.len() - i,
    {
        proof {
            lemma_lines_extent_prefix(ls, i as int);
            assert(ls[i as int] == window_lines@[i as int]@);
        }
        total = total + window_lines[i].as_str().as_bytes().len() + 1;
        i += 1;
    }
    proof {
        assert(ls.take(window_lines@.len() as int) =~= ls);
    }
    let window_len = if window_lines.len() == 0 {
        0
    } else {
        proof {
            lemma_lines_extent_positive(ls);
        }
        total - 1
    };
    let local = rebase_spans_to_window(spans, window_base, window_len);
    colorize_source_runs(window_lines, local.as_slice())
}

/// The bytes of runs, concatenated.
pub open spec fn concat_runs(rs: Seq<(Seq<u8>, Highlight)>) -> Seq<u8>
    decreases rs.len(),
{
    if rs.len() == 0 {
        Seq::empty()
    } else {
        concat_runs(rs.drop_last()) + rs.last().0
    }
}

proof fn lemma_concat_runs_append(a: Seq<(Seq<u8>, Highlight)>, b: Seq<(Seq<u8>, Highlight)>)
    ensures
        concat_runs(a + b) == concat_runs(a) + concat_runs(b),
    decreases b.len(),
{
    if b.len() == 0 {
        assert(a + b =~= a);
        assert(concat_runs(a) + Seq::<u8>::empty() =~= concat_runs(a));
    } else {
        assert((a + b).drop_last() =~= a + b.drop_last());
        lemma_concat_runs_append(a, b.drop_last());
        assert(concat_runs(a) + concat_runs(b.drop_last()) + b.last().0 =~= concat_runs(a) + (concat_runs(
            b.drop_last(),
        ) + b.last().0));
    }
}

proof fn lemma_run_if_piece(src: Seq<u8>, a: int, b: int, h: Highlight)
    requires
        valid_utf8(src),
        well_formed_range(src, a, b),
    ensures
        concat_runs(run_if(piece(src, a, b), h)) == src.subrange(a, b),
{
    lemma_boundary_in_bounds(src, a);
    let p = piece(src, a, b);
    if p.len() > 0 {
        let one = seq![(p, h)];
        assert(one.drop_last() =~= Seq::<(Seq<u8>, Highlight)>::empty());
        assert(concat_runs(Seq::<(Seq<u8>, Highlight)>::empty()) =~= Seq::<u8>::empty());
        assert(concat_runs(one.drop_last()) =~= Seq::<u8>::empty());
        assert(one.last().0 == p);
        assert(concat_runs(one) =~= Seq::<u8>::empty() + p);
        assert(Seq::<u8>::empty() + p =~= p);
        assert(run_if(p, h) == one);
    } else {
        assert(src.subrange(a, b) =~= Seq::<u8>::empty());
    }
}

proof fn lemma_fold_runs_covers(src: Seq<u8>, ls: Seq<HighlightSpan>, line_end: int, off: int, k: int)
    requires
        valid_utf8(src),
        well_formed_range(src, off, line_end),
        0 <= k <= ls.len(),
        forall|i: int| 0 <= i < ls.len() ==> #[trigger] valid_span(src, ls[i]) && ls[i].start < line_end,
    ensures
        off <= fold_runs(src, ls, line_end, off, k).1 <= line_end,
        is_char_boundary(src, fold_runs(src, ls, line_end, off, k).1),
        concat_runs(fold_runs(src, ls, line_end, off, k).0) == src.subrange(off, fold_runs(src, ls, line_end, off, k).1),
    decreases k,
{
    if k == 0 {
        assert(src.subrange(off, off) =~= Seq::<u8>::empty());
    } else {
        lemma_fold_runs_covers(src, ls, line_end, off, k - 1);
        let (out, pos) = fold_runs(src, ls, line_end, off, k - 1);
        let sp = ls[k - 1];
        assert(valid_span(src, sp));
        let seg_start = if sp.start > pos { sp.start as int } else { pos };
        let seg_end = if sp.end < line_end { sp.end as int } else { line_end };
        let gap = if seg_start > pos { run_if(piece(src, pos, seg_start), Highlight::Plain) } else { Seq::empty() };
        let body = if seg_start < seg_end { run_if(piece(src, seg_start, seg_end), sp.highlight) } else { Seq::empty() };
        lemma_concat_runs_append(out, gap);
        lemma_concat_runs_append(out + gap, body);
        if seg_start > pos {
            lemma_run_if_piece(src, pos, seg_start, Highlight::Plain);
        } else {
            assert(concat_runs(gap) =~= Seq::<u8>::empty());
        }
        if seg_start < seg_end {
            lemma_run_if_piece(src, seg_start, seg_end, sp.highlight);
            assert(src.subrange(off, pos) + src.subrange(pos, seg_start) + src.subrange(seg_start, seg_end)
                =~= src.subrange(off, seg_end));
            if seg_start == pos {
                assert(src.subrange(pos, seg_start) =~= Seq::<u8>::empty());
            }
        } else {
            assert(concat_runs(body) =~= Seq::<u8>::empty());
            if seg_start > pos {
                assert(false);
            }
            assert(concat_runs(gap) =~= Seq::<u8>::empty());
        }
        assert(concat_runs(out + gap + body) =~= src.subrange(off, fold_runs(src, ls, line_end, off, k).1));
    }
}

/// Law: when the line sits in the text at `offset` on char boundaries and
/// every span is valid for the text, the runs of the line spell out exactly
/// the line's bytes: nothing is lost, repeated or reordered, whatever the
/// spans color.
pub proof fn law_line_runs_spell_the_line(line: Seq<u8>, offset: int, src: Seq<u8>, spans: Seq<HighlightSpan>)
    requires
        valid_utf8(src),
        well_formed_range(src, offset, offset + line.len()),
        src.subrange(offset, offset + line.len()) == line,
        forall|i: int| 0 <= i < spans.len() ==> #[trigger] valid_span(src, spans[i]),
    ensures
        concat_runs(line_runs_spec(line, offset, src, spans)) == line,
{
    let line_end = offset + line.len();
    let ls = overlapping(spans, offset, line_end);
    lemma_overlapping_members(spans, offset, line_end, src);
    lemma_boundary_in_bounds(src, offset);
    if ls.len() == 0 {
        let one = seq![(line, Highlight::Plain)];
        assert(one.drop_last() =~= Seq::<(Seq<u8>, Highlight)>::empty());
        assert(concat_runs(Seq::<(Seq<u8>, Highlight)>::empty()) =~= Seq::<u8>::empty());
        assert(concat_runs(one.drop_last()) =~= Seq::<u8>::empty());
        assert(concat_runs(one) =~= Seq::<u8>::empty() + line);
        assert(Seq::<u8>::empty() + line =~= line);
    } else {
        lemma_fold_runs_covers(src, ls, line_end, offset, ls.len() as int);
        let (out, pos) = fold_runs(src, ls, line_end, offset, ls.len() as int);
        if pos < line_end {
            lemma_concat_runs_append(out, run_if(piece(src, pos, line_end), Highlight::Plain));
            lemma_run_if_piece(src, pos, line_end, Highlight::Plain);
            assert(src.subrange(offset, pos) + src.subrange(pos, line_end) =~= src.subrange(offset, line_end));
        } else {
            assert(pos == line_end);
        }
    }
}

proof fn lemma_overlapping_members(s: Seq<HighlightSpan>, lo: int, hi: int, src: Seq<u8>)
    requires
        forall|i: int| 0 <= i < s.len() ==> #[trigger] valid_span(src, s[i]),
    ensures
        forall|i: int|
            0 <= i < overlapping(s, lo, hi).len() ==> #[trigger] valid_span(src, overlapping(s, lo, hi)[i])
                && overlapping(s, lo, hi)[i].start < hi,
    decreases s.len(),
{
    if s.len() > 0 {
        let d = s.drop_last();
        assert forall|i: int| 0 <= i < d.len() implies #[trigger] valid_span(src, d[i]) by {
            assert(d[i] == s[i]);
        }
        assert(valid_span(src, s[s.len() - 1]));
        lemma_overlapping_members(d, lo, hi, src);
        let r = overlapping(d, lo, hi);
        assert forall|i: int| 0 <= i < overlapping(s, lo, hi).len() implies #[trigger] valid_span(
            src,
            overlapping(s, lo, hi)[i],
        ) && overlapping(s, lo, hi)[i].start < hi by {
            if i < r.len() {
                assert(valid_span(src, r[i]));
            }
        }
    }
}

/// Law: validation keeps exactly the valid spans: every kept span is valid
/// for the text, and a span set that is all valid is kept whole.
pub proof fn law_validation_keeps_valid(b: Seq<u8>, s: Seq<HighlightSpan>)
    ensures
        forall|k: int| 0 <= k < valid_spans(b, s).len() ==> #[trigger] valid_span(b, valid_spans(b, s)[k]),
        (forall|k: int| 0 <= k < s.len() ==> #[trigger] valid_span(b, s[k])) ==> valid_spans(b, s) == s,
    decreases s.len(),
{
    if s.len() > 0 {
        let d = s.drop_last();
        law_validation_keeps_valid(b, d);
        let r = valid_spans(b, d);
        if valid_span(b, s.last()) {
            assert forall|k: int| 0 <= k < r.push(s.last()).len() implies #[trigger] valid_span(b, r.push(s.last())[k]) by {
                if k < r.len() {
                    assert(r.push(s.last())[k] == r[k]);
                }
            }
        }
        if forall|k: int| 0 <= k < s.len() ==> #[trigger] valid_span(b, s[k]) {
            assert forall|k: int| 0 <= k < d.len() implies #[trigger] valid_span(b, d[k]) by {
                assert(d[k] == s[k]);
            }
            assert(valid_span(b, s[s.len() - 1]));
            assert(d.push(s.last()) =~= s);
        }
    }
}

} // verus!
