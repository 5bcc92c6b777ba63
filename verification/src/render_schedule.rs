//! Frame scheduling: redraw coalescing and frame pacing.
//!
//! Many small invalidations are merged into the reasons for one pending frame,
//! and frames are paced to a target interval. Times are nanoseconds on one
//! monotonic clock.
use vstd::prelude::*;
use crate::text::{join_sep, lemma_join_sep_push, push_str, string_from_chars, string_of};

verus! {

/// Why the next frame is needed. Multiple reasons merge into one frame.
#[derive(Clone, Copy, Debug, PartialEq, Eq, Structural)]
pub struct InvalidationFlags {
    /// Keyboard / editing / caret movement.
    pub input: bool,
    /// Wheel / trackpad / scrollbar movement (scroll-offset dirty).
    pub scroll: bool,
    /// Window resize or scale-factor change (geometry dirty).
    pub resize: bool,
    /// Work-content / document / panel change (content dirty).
    pub content: bool,
    /// Background syntax-highlight result applied.
    pub syntax: bool,
    /// Caret move / selection change with no content edit.
    pub cursor_selection: bool,
    /// Theme / style-token change.
    pub style: bool,
}

pub open spec fn no_flags() -> InvalidationFlags {
    InvalidationFlags {
        input: false,
        scroll: false,
        resize: false,
        content: false,
        syntax: false,
        cursor_selection: false,
        style: false,
    }
}

/// Field-wise union of two reason sets.
pub open spec fn merged(a: InvalidationFlags, b: InvalidationFlags) -> InvalidationFlags {
    InvalidationFlags {
        input: a.input || b.input,
        scroll: a.scroll || b.scroll,
        resize: a.resize || b.resize,
        content: a.content || b.content,
        syntax: a.syntax || b.syntax,
        cursor_selection: a.cursor_selection || b.cursor_selection,
        style: a.style || b.style,
    }
}

/// Labels of the active reasons, in declaration order.
pub open spec fn flag_labels(f: InvalidationFlags) -> Seq<Seq<char>> {
    let s0 = Seq::<Seq<char>>::empty();
    let s1 = if f.input { s0.push("input"@) } else { s0 };
    let s2 = if f.scroll { s1.push("scroll"@) } else { s1 };
    let s3 = if f.resize { s2.push("resize"@) } else { s2 };
    let s4 = if f.content { s3.push("content"@) } else { s3 };
    let s5 = if f.syntax { s4.push("syntax"@) } else { s4 };
    let s6 = if f.cursor_selection { s5.push("cursor_sel"@) } else { s5 };
    if f.style { s6.push("style"@) } else { s6 }
}

/// Compact label of the active reasons: their names joined by `+`, or `none`.
pub open spec fn summary_spec(f: InvalidationFlags) -> Seq<char> {
    if flag_labels(f).len() == 0 {
        "none"@
    } else {
        join_sep(flag_labels(f), "+"@)
    }
}

impl Default for InvalidationFlags {
    fn default() -> (f: Self)
        ensures
            f == no_flags(),
    {
        InvalidationFlags {
            input: false,
            scroll: false,
            resize: false,
            content: false,
            syntax: false,
            cursor_selection: false,
            style: false,
        }
    }
}

impl InvalidationFlags {
    /// Input/editing invalidation.
    pub fn input() -> (f: Self)
        ensures
            f == (InvalidationFlags { input: true, ..no_flags() }),
    {
        InvalidationFlags { input: true, ..Self::default() }
    }

    /// Scroll invalidation (scroll-offset dirty).
    pub fn scroll() -> (f: Self)
        ensures
            f == (InvalidationFlags { scroll: true, ..no_flags() }),
    {
        InvalidationFlags { scroll: true, ..Self::default() }
    }

    /// Resize / scale-factor invalidation (geometry dirty).
    pub fn resize() -> (f: Self)
        ensures
            f == (InvalidationFlags { resize: true, ..no_flags() }),
    {
        InvalidationFlags { resize: true, ..Self::default() }
    }

    /// Content / document invalidation.
    pub fn content() -> (f: Self)
        ensures
            f == (InvalidationFlags { content: true, ..no_flags() }),
    {
        InvalidationFlags { content: true, ..Self::default() }
    }

    /// Syntax-highlight invalidation.
    pub fn syntax() -> (f: Self)
        ensures
            f == (InvalidationFlags { syntax: true, ..no_flags() }),
    {
        InvalidationFlags { syntax: true, ..Self::default() }
    }

    /// Cursor / selection invalidation (no content edit).
    pub fn cursor_selection() -> (f: Self)
        ensures
            f == (InvalidationFlags { cursor_selection: true, ..no_flags() }),
    {
        InvalidationFlags { cursor_selection: true, ..Self::default() }
    }

    /// Theme / style-token invalidation.
    pub fn style() -> (f: Self)
        ensures
            f == (InvalidationFlags { style: true, ..no_flags() }),
    {
        InvalidationFlags { style: true, ..Self::default() }
    }

    /// Merge another set of reasons into this one.
    pub fn merge(&mut self, other: InvalidationFlags)
        ensures
            *final(self) == merged(*old(self), other),
    {
        self.input = self.input || other.input;
        self.scroll = self.scroll || other.scroll;
        self.resize = self.resize || other.resize;
        self.content = self.content || other.content;
        self.syntax = self.syntax || other.syntax;
        self.cursor_selection = self.cursor_selection || other.cursor_selection;
        self.style = self.style || other.style;
    }

    /// Compact label of the active reasons, for opt-in frame tracing.
    pub fn summary(&self) -> (s: String)
        ensures
            s@ == summary_spec(*self),
    {
        let f = *self;
        let ghost mut labels = Seq::<Seq<char>>::empty();
        let mut out: Vec<char> = Vec::new();
        if f.input {
            proof { reveal_strlit("input"); }
            push_label(&mut out, "input", Ghost(labels));
            proof { labels = labels.push("input"@); }
        }
        if f.scroll {
            proof { reveal_strlit("scroll"); }
            push_label(&mut out, "scroll", Ghost(labels));
            proof { labels = labels.push("scroll"@); }
        }
        if f.resize {
            proof { reveal_strlit("resize"); }
            push_label(&mut out, "resize", Ghost(labels));
            proof { labels = labels.push("resize"@); }
        }
        if f.content {
            proof { reveal_strlit("content"); }
            push_label(&mut out, "content", Ghost(labels));
            proof { labels = labels.push("content"@); }
        }
        if f.syntax {
            proof { reveal_strlit("syntax"); }
            push_label(&mut out, "syntax", Ghost(labels));
            proof { labels = labels.push("syntax"@); }
        }
        if f.cursor_selection {
            proof { reveal_strlit("cursor_sel"); }
            push_label(&mut out, "cursor_sel", Ghost(labels));
            proof { labels = labels.push("cursor_sel"@); }
        }
        if f.style {
            proof { reveal_strlit("style"); }
            push_label(&mut out, "style", Ghost(labels));
            proof { labels = labels.push("style"@); }
        }
        assert(labels == flag_labels(f));
        if out.len() == 0 {
            proof {
                if labels.len() > 0 {
                    lemma_join_nonempty(labels);
                }
            }
            string_of("none")
        } else {
            string_from_chars(out.as_slice())
        }
    }
}

proof fn lemma_join_nonempty(ls: Seq<Seq<char>>)
    requires
        ls.len() > 0,
        forall|i: int| 0 <= i < ls.len() ==> #[trigger] ls[i].len() > 0,
    ensures
        join_sep(ls, "+"@).len() > 0,
    decreases ls.len(),
{
    if ls.len() > 1 {
        lemma_join_nonempty(ls.drop_last());
    }
}

/// Append `label` to `out`, which holds `labels` joined by `+`.
fn push_label(out: &mut Vec<char>, label: &str, Ghost(labels): Ghost<Seq<Seq<char>>>)
    requires
        old(out)@ == join_sep(labels, "+"@),
        label@.len() > 0,
        forall|i: int| 0 <= i < labels.len() ==> #[trigger] labels[i].len() > 0,
    ensures
        final(out)@ == join_sep(labels.push(label@), "+"@),
        forall|i: int| 0 <= i < labels.push(label@).len() ==> #[trigger] labels.push(label@)[i].len() > 0,
{
    proof {
        lemma_join_sep_push(labels, "+"@, label@);
        if labels.len() > 0 {
            lemma_join_nonempty(labels);
        }
    }
    if out.len() > 0 {
        push_str(out, "+");
    }
    push_str(out, label);
    proof {
        assert forall|i: int| 0 <= i < labels.push(label@).len() implies #[trigger] labels.push(label@)[i].len() > 0 by {
            if i < labels.len() {
                assert(labels.push(label@)[i] == labels[i]);
            }
        }
    }
}

/// Small, explicit redraw scheduler: coalesces invalidations and paces redraws
/// toward a target cadence.
pub struct FrameScheduler {
    /// Minimum interval between presented frames, in nanoseconds.
    target_interval: u64,
    /// When the last frame was presented (None before the first frame).
    last_present: Option<u64>,
    /// Whether a redraw request is currently outstanding.
    redraw_requested: bool,
    /// Merged reasons for the pending (not-yet-presented) frame.
    pending: InvalidationFlags,
}

/// Whether a frame budget has elapsed at `now`.
pub open spec fn budget_elapsed_spec(interval: u64, last: Option<u64>, now: u64) -> bool {
    match last {
        None => true,
        Some(l) => (if now >= l { now - l } else { 0 }) >= interval,
    }
}

/// When a deferred frame should be painted: never before `now`.
pub open spec fn next_deadline_spec(interval: u64, last: Option<u64>, now: u64) -> int {
    match last {
        None => now as int,
        Some(l) => if l + interval > now {
            l + interval
        } else {
            now as int
        },
    }
}

impl FrameScheduler {
    pub closed spec fn interval(&self) -> u64 {
        self.target_interval
    }

    pub closed spec fn last_present(&self) -> Option<u64> {
        self.last_present
    }

    pub closed spec fn outstanding(&self) -> bool {
        self.redraw_requested
    }

    pub closed spec fn pending_reasons(&self) -> InvalidationFlags {
        self.pending
    }

    /// A scheduler pacing frames `interval_nanos` apart, with nothing pending.
    pub fn with_target_interval(interval_nanos: u64) -> (s: Self)
        ensures
            s.interval() == interval_nanos,
            s.last_present() is None,
            !s.outstanding(),
            s.pending_reasons() == no_flags(),
    {
        FrameScheduler {
            target_interval: interval_nanos,
            last_present: None,
            redraw_requested: false,
            pending: InvalidationFlags::default(),
        }
    }

    /// Record a reason for the pending frame.
    pub fn note_reason(&mut self, reason: InvalidationFlags)
        ensures
            final(self).pending_reasons() == merged(old(self).pending_reasons(), reason),
            final(self).interval() == old(self).interval(),
            final(self).last_present() == old(self).last_present(),
            final(self).outstanding() == old(self).outstanding(),
    {
        self.pending.merge(reason);
    }

    /// Whether at least one frame budget has elapsed since the last present.
    pub fn budget_elapsed(&self, now: u64) -> (b: bool)
        ensures
            b == budget_elapsed_spec(self.interval(), self.last_present(), now),
    {
        match self.last_present {
            None => true,
            Some(last) => now.saturating_sub(last) >= self.target_interval,
        }
    }

    /// The time at which a deferred frame should be painted (never before
    /// `now`).
    pub fn next_deadline(&self, now: u64) -> (d: u64)
        requires
            self.last_present() matches Some(l) ==> l + self.interval() <= u64::MAX,
        ensures
            d == next_deadline_spec(self.interval(), self.last_present(), now),
    {
        match self.last_present {
            None => now,
            Some(last) => {
                let deadline = last + self.target_interval;
                if deadline > now {
                    deadline
                } else {
                    now
                }
            },
        }
    }

    /// Whether a redraw request is already outstanding.
    pub fn redraw_outstanding(&self) -> (b: bool)
        ensures
            b == self.outstanding(),
    {
        self.redraw_requested
    }

    /// Mark that a redraw request has been issued.
    pub fn mark_redraw_requested(&mut self)
        ensures
            final(self).outstanding(),
            final(self).interval() == old(self).interval(),
            final(self).last_present() == old(self).last_present(),
            final(self).pending_reasons() == old(self).pending_reasons(),
    {
        self.redraw_requested = true;
    }

    /// Clear the outstanding-redraw flag when a redraw arrives.
    pub fn on_redraw_received(&mut self)
        ensures
            !final(self).outstanding(),
            final(self).interval() == old(self).interval(),
            final(self).last_present() == old(self).last_present(),
            final(self).pending_reasons() == old(self).pending_reasons(),
    {
        self.redraw_requested = false;
    }

    /// Record that a frame was presented at `now`, clearing pacing state.
    pub fn on_frame_presented(&mut self, now: u64)
        ensures
            final(self).last_present() == Some(now),
            final(self).pending_reasons() == no_flags(),
            final(self).interval() == old(self).interval(),
            final(self).outstanding() == old(self).outstanding(),
    {
        self.last_present = Some(now);
        self.pending = InvalidationFlags::default();
    }

    /// A redraw event arrived: the outstanding request is cleared and the
    /// frame is painted exactly when the UI is dirty; a clean UI skips it.
    pub fn begin_redraw(&mut self, needs_render: bool) -> (paint: bool)
        ensures
            paint == needs_render,
            !final(self).outstanding(),
            final(self).interval() == old(self).interval(),
            final(self).last_present() == old(self).last_present(),
            final(self).pending_reasons() == old(self).pending_reasons(),
    {
        self.on_redraw_received();
        needs_render
    }

    /// A painted frame was presented at `now`: the pacing state restarts from
    /// it and the UI is clean, unless the renderer deferred some shaping, in
    /// which case the UI stays dirty and another redraw is requested. Returns
    /// whether the UI is still dirty.
    pub fn finish_frame(&mut self, now: u64, shaping_pending: usize) -> (needs_render: bool)
        ensures
            needs_render == (shaping_pending > 0),
            final(self).last_present() == Some(now),
            final(self).pending_reasons() == no_flags(),
            final(self).interval() == old(self).interval(),
            final(self).outstanding() == (shaping_pending > 0 || old(self).outstanding()),
    {
        self.on_frame_presented(now);
        if shaping_pending > 0 {
            self.mark_redraw_requested();
            true
        } else {
            false
        }
    }

    /// Rendering a frame failed: the UI stays dirty and a redraw is
    /// requested again so the frame is retried; pacing and reasons are kept.
    /// Returns whether the UI is still dirty.
    pub fn frame_failed(&mut self) -> (needs_render: bool)
        ensures
            needs_render,
            final(self).outstanding(),
            final(self).interval() == old(self).interval(),
            final(self).last_present() == old(self).last_present(),
            final(self).pending_reasons() == old(self).pending_reasons(),
    {
        self.mark_redraw_requested();
        true
    }

    /// Reasons accumulated for the pending frame, as a compact label.
    pub fn pending_summary(&self) -> (s: String)
        ensures
            s@ == summary_spec(self.pending_reasons()),
    {
        self.pending.summary()
    }

    /// The merged invalidation reasons accumulated for the pending frame.
    pub fn pending(&self) -> (f: InvalidationFlags)
        ensures
            f == self.pending_reasons(),
    {
        self.pending
    }
}

/// Merging reasons is a set union: commutative, associative, idempotent, and
/// the empty set is its identity.
pub proof fn law_merge_is_union(a: InvalidationFlags, b: InvalidationFlags, c: InvalidationFlags)
    ensures
        merged(a, b) == merged(b, a),
        merged(merged(a, b), c) == merged(a, merged(b, c)),
        merged(a, a) == a,
        merged(a, no_flags()) == a,
{
}

/// A paint deadline is never in the past.
pub proof fn law_deadline_not_before_now(interval: u64, last: Option<u64>, now: u64)
    ensures
        next_deadline_spec(interval, last, now) >= now,
{
}

/// The frame budget has elapsed exactly when the paint deadline is now —
/// except for a zero interval with a last present later than `now`, where the
/// budget counts as elapsed while the deadline is still the last present.
pub proof fn law_budget_elapsed_iff_deadline_is_now(interval: u64, last: Option<u64>, now: u64)
    requires
        last matches Some(l) ==> (now >= l || interval > 0),
    ensures
        budget_elapsed_spec(interval, last, now) <==> next_deadline_spec(interval, last, now) == now,
{
}

/// The reasons of a presented frame are gone: what is pending after a present
/// and new notes is exactly what was noted since.
pub proof fn law_present_resets_reasons(a: InvalidationFlags, b: InvalidationFlags)
    ensures
        merged(merged(no_flags(), a), b) == merged(a, b),
{
}

/// Pending reasons after noting each reason of `rs` in turn, starting from
/// `p` (what consecutive calls of `note_reason` leave, by its contract).
pub open spec fn noted(p: InvalidationFlags, rs: Seq<InvalidationFlags>) -> InvalidationFlags
    decreases rs.len(),
{
    if rs.len() == 0 {
        p
    } else {
        merged(noted(p, rs.drop_last()), rs.last())
    }
}

/// The union of a set of reasons: a reason is in it when any member has it.
pub open spec fn union_of(rs: Seq<InvalidationFlags>) -> InvalidationFlags {
    InvalidationFlags {
        input: exists|i: int| 0 <= i < rs.len() && (#[trigger] rs[i]).input,
        scroll: exists|i: int| 0 <= i < rs.len() && (#[trigger] rs[i]).scroll,
        resize: exists|i: int| 0 <= i < rs.len() && (#[trigger] rs[i]).resize,
        content: exists|i: int| 0 <= i < rs.len() && (#[trigger] rs[i]).content,
        syntax: exists|i: int| 0 <= i < rs.len() && (#[trigger] rs[i]).syntax,
        cursor_selection: exists|i: int| 0 <= i < rs.len() && (#[trigger] rs[i]).cursor_selection,
        style: exists|i: int| 0 <= i < rs.len() && (#[trigger] rs[i]).style,
    }
}

/// Some reason of `rs` has the flag `f`.
pub open spec fn any_has(rs: Seq<InvalidationFlags>, f: spec_fn(InvalidationFlags) -> bool) -> bool {
    exists|i: int| 0 <= i < rs.len() && f(#[trigger] rs[i])
}

proof fn lemma_any_has_push(rs: Seq<InvalidationFlags>, f: spec_fn(InvalidationFlags) -> bool)
    requires
        rs.len() > 0,
    ensures
        any_has(rs, f) == (any_has(rs.drop_last(), f) || f(rs.last())),
{
    let d = rs.drop_last();
    if any_has(rs, f) {
        let i = choose|i: int| 0 <= i < rs.len() && f(#[trigger] rs[i]);
        if i < d.len() {
            assert(d[i] == rs[i]);
        }
    }
    if any_has(d, f) {
        let i = choose|i: int| 0 <= i < d.len() && f(#[trigger] d[i]);
        assert(rs[i] == d[i]);
    }
    if f(rs.last()) {
        assert(rs[rs.len() - 1] == rs.last());
    }
}

/// Law: a burst of invalidations coalesces into one pending frame: noting
/// any number of reasons leaves the reasons pending before merged with the
/// union of the burst; after a present (nothing pending) exactly the union.
pub proof fn law_burst_coalesces(p: InvalidationFlags, rs: Seq<InvalidationFlags>)
    ensures
        noted(p, rs) == merged(p, union_of(rs)),
        noted(no_flags(), rs) == union_of(rs),
    decreases rs.len(),
{
    if rs.len() > 0 {
        let d = rs.drop_last();
        law_burst_coalesces(p, d);
        law_burst_coalesces(no_flags(), d);
        let fs: Seq<spec_fn(InvalidationFlags) -> bool> = seq![
            |x: InvalidationFlags| x.input,
            |x: InvalidationFlags| x.scroll,
            |x: InvalidationFlags| x.resize,
            |x: InvalidationFlags| x.content,
            |x: InvalidationFlags| x.syntax,
            |x: InvalidationFlags| x.cursor_selection,
            |x: InvalidationFlags| x.style,
        ];
        assert forall|k: int| 0 <= k < 7 implies any_has(rs, #[trigger] fs[k]) == (any_has(d, fs[k]) || fs[k](
            rs.last(),
        )) by {
            lemma_any_has_push(rs, fs[k]);
        }
        assert(union_of(rs).input == any_has(rs, fs[0]));
        assert(union_of(d).input == any_has(d, fs[0]));
        assert(union_of(rs).scroll == any_has(rs, fs[1]));
        assert(union_of(d).scroll == any_has(d, fs[1]));
        assert(union_of(rs).resize == any_has(rs, fs[2]));
        assert(union_of(d).resize == any_has(d, fs[2]));
        assert(union_of(rs).content == any_has(rs, fs[3]));
        assert(union_of(d).content == any_has(d, fs[3]));
        assert(union_of(rs).syntax == any_has(rs, fs[4]));
        assert(union_of(d).syntax == any_has(d, fs[4]));
        assert(union_of(rs).cursor_selection == any_has(rs, fs[5]));
        assert(union_of(d).cursor_selection == any_has(d, fs[5]));
        assert(union_of(rs).style == any_has(rs, fs[6]));
        assert(union_of(d).style == any_has(d, fs[6]));
    }
}

/// Law: after a present at `t0` the paint deadline is `t0` plus the
/// interval, or `now` once that has passed; before any present it is
/// `now`. Right at the present, a positive interval has not elapsed and
/// nothing is pending.
pub proof fn law_deadline_after_present(interval: u64, t0: u64, now: u64)
    ensures
        next_deadline_spec(interval, Some(t0), now) == if t0 + interval > now {
            t0 + interval
        } else {
            now as int
        },
        next_deadline_spec(interval, None, now) == now,
        next_deadline_spec(interval, Some(t0), t0) == t0 + interval,
        interval > 0 ==> !budget_elapsed_spec(interval, Some(t0), t0),
        summary_spec(no_flags()) == "none"@,
{
    assert(flag_labels(no_flags()) =~= Seq::<Seq<char>>::empty());
}

} // verus!
