//! Retained UI-node bookkeeping: each major shell element (editor text,
//! gutter, status bar, chrome, side panel, AI pane, bottom dock, other) is a
//! node with a content fingerprint; each frame the nodes whose fingerprint
//! changed, or all of them after a resize or theme switch, are rebuilt and
//! the rest reused. Also the cheap fingerprint of the workspace fields that
//! drive widget-tree rebuilds.
use vstd::prelude::*;
use crate::syntax_spans::{fnv_mix, FNV_PRIME};
use crate::destination::opt_view;
use crate::text::chars_of;

verus! {

/// Number of tracked element classes.
pub const ELEMENT_COUNT: usize = 8;

pub const EL_EDITOR: usize = 0;
pub const EL_GUTTER: usize = 1;
pub const EL_STATUS: usize = 2;
pub const EL_CHROME: usize = 3;
pub const EL_SIDE: usize = 4;
pub const EL_AI: usize = 5;
pub const EL_BOTTOM: usize = 6;
pub const EL_OTHER: usize = 7;

/// One FNV-1a step folding `v` into the fingerprint `h`.
pub fn mix(h: &mut u64, v: u64)
    ensures
        *final(h) == fnv_mix(*old(h), v),
{
    *h = (*h ^ v).wrapping_mul(FNV_PRIME);
}

/// `n` occurs in `h` starting at `i`.
pub open spec fn occurs_at(h: Seq<char>, n: Seq<char>, i: int) -> bool {
    0 <= i && i + n.len() <= h.len() && h.subrange(i, i + n.len()) == n
}

/// `n` occurs somewhere in `h`.
pub open spec fn contains(h: Seq<char>, n: Seq<char>) -> bool {
    exists|i: int| #[trigger] occurs_at(h, n, i)
}

/// `h` starts with `n`.
pub open spec fn starts_with(h: Seq<char>, n: Seq<char>) -> bool {
    occurs_at(h, n, 0)
}

fn occurs_at_exec(h: &[char], n: &[char], i: usize) -> (b: bool)
    requires
        i + n@.len() <= h@.len(),
    ensures
        b == occurs_at(h@, n@, i as int),
{
    let mut k: usize = 0;
    while k < n.len()
        invariant
            i + n@.len() <= h@.len(),
            h@.len() == h.len(),
            k <= n@.len(),
            forall|j: int| 0 <= j < k ==> h@[i + j] == n@[j],
        decreases n@.len() - k,
    {
        if h[i + k] != n[k] {
            proof {
                assert(h@.subrange(i as int, i + n@.len())[k as int] != n@[k as int]);
            }
            return false;
        }
        k += 1;
    }
    proof {
        assert(h@.subrange(i as int, i + n@.len()) =~= n@);
    }
    true
}

/// Whether `needle` occurs in `hay`.
pub fn contains_str(hay: &[char], needle: &str) -> (b: bool)
    ensures
        b == contains(hay@, needle@),
{
    let n = chars_of(needle);
    if n.len() > hay.len() {
        proof {
            assert forall|i: int| !#[trigger] occurs_at(hay@, needle@, i) by {
            }
        }
        return false;
    }
    let last = hay.len() - n.len();
    let mut i: usize = 0;
    while i <= last
        invariant
            n@ == needle@,
            last + n@.len() == hay@.len(),
            forall|j: int| 0 <= j < i ==> !#[trigger] occurs_at(hay@, needle@, j),
        decreases last + 1 - i,
    {
        if occurs_at_exec(hay, n.as_slice(), i) {
            return true;
        }
        if i == last {
            proof {
                assert forall|j: int| !#[trigger] occurs_at(hay@, needle@, j) by {
                    if 0 <= j <= last {
                    }
                }
            }
            return false;
        }
        i += 1;
    }
    false
}

/// Whether `hay` starts with `prefix`.
pub fn starts_with_str(hay: &[char], prefix: &str) -> (b: bool)
    ensures
        b == starts_with(hay@, prefix@),
{
    let n = chars_of(prefix);
    if n.len() > hay.len() {
        return false;
    }
    occurs_at_exec(hay, n.as_slice(), 0)
}

/// Element class of a render block id (see the `EL_*` constants).
pub open spec fn element_class_spec(id: Seq<char>) -> usize {
    if id == "editor_content"@ || contains(id, "ContentArea"@) || contains(id, "content_area"@) {
        EL_EDITOR
    } else if contains(id, "gutter"@) {
        EL_GUTTER
    } else if contains(id, "status"@) {
        EL_STATUS
    } else if contains(id, "ai_panel"@) || starts_with(id, "ai_"@) {
        EL_AI
    } else if contains(id, "explorer"@) || contains(id, "sidebar"@) || contains(id, "side_panel"@) {
        EL_SIDE
    } else if contains(id, "bottom"@) || contains(id, "terminal"@) {
        EL_BOTTOM
    } else if id == "toolbar"@ || contains(id, "titlebar"@) || contains(id, "title_bar"@)
        || contains(id, "title-bar"@) || contains(id, "tab"@) || contains(id, "header"@)
        || contains(id, "rail"@) || contains(id, "chrome"@) {
        EL_CHROME
    } else {
        EL_OTHER
    }
}

/// Classify a render block id into an element class.
pub fn element_class(id: &str) -> (c: usize)
    ensures
        c == element_class_spec(id@),
        c < ELEMENT_COUNT,
{
    let v = chars_of(id);
    let h = v.as_slice();
    if crate::text::chars_eq_str(h, "editor_content") || contains_str(h, "ContentArea")
        || contains_str(h, "content_area") {
        EL_EDITOR
    } else if contains_str(h, "gutter") {
        EL_GUTTER
    } else if contains_str(h, "status") {
        EL_STATUS
    } else if contains_str(h, "ai_panel") || starts_with_str(h, "ai_") {
        EL_AI
    } else if contains_str(h, "explorer") || contains_str(h, "sidebar") || contains_str(
        h,
        "side_panel",
    ) {
        EL_SIDE
    } else if contains_str(h, "bottom") || contains_str(h, "terminal") {
        EL_BOTTOM
    } else if crate::text::chars_eq_str(h, "toolbar") || contains_str(h, "titlebar")
        || contains_str(h, "title_bar") || contains_str(h, "title-bar") || contains_str(h, "tab")
        || contains_str(h, "header") || contains_str(h, "rail") || contains_str(h, "chrome") {
        EL_CHROME
    } else {
        EL_OTHER
    }
}

/// Label of an element class.
pub open spec fn element_label_spec(class: usize) -> Seq<char> {
    if class == EL_EDITOR {
        "editor"@
    } else if class == EL_GUTTER {
        "gutter"@
    } else if class == EL_STATUS {
        "status"@
    } else if class == EL_CHROME {
        "chrome"@
    } else if class == EL_SIDE {
        "side"@
    } else if class == EL_AI {
        "ai"@
    } else if class == EL_BOTTOM {
        "bottom"@
    } else {
        "other"@
    }
}

/// Label of an element class, as the trace line prints it.
pub fn element_label(class: usize) -> (s: &'static str)
    ensures
        s@ == element_label_spec(class),
{
    if class == EL_EDITOR {
        "editor"
    } else if class == EL_GUTTER {
        "gutter"
    } else if class == EL_STATUS {
        "status"
    } else if class == EL_CHROME {
        "chrome"
    } else if class == EL_SIDE {
        "side"
    } else if class == EL_AI {
        "ai"
    } else if class == EL_BOTTOM {
        "bottom"
    } else {
        "other"
    }
}

/// Per-element fingerprints retained across frames.
pub struct UiNodeTracker {
    last_fp: Vec<u64>,
    present: Vec<bool>,
    last_size: (u32, u32),
    last_theme_dark: Option<bool>,
    initialized: bool,
}

/// The retained state as plain values.
pub struct TrackerView {
    pub last_fp: Seq<u64>,
    pub present: Seq<bool>,
    pub last_size: (u32, u32),
    pub last_theme_dark: Option<bool>,
    pub initialized: bool,
}

impl View for UiNodeTracker {
    type V = TrackerView;

    closed spec fn view(&self) -> TrackerView {
        TrackerView {
            last_fp: self.last_fp@,
            present: self.present@,
            last_size: self.last_size,
            last_theme_dark: self.last_theme_dark,
            initialized: self.initialized,
        }
    }
}

/// What one frame's diff of the nodes decided.
pub struct FrameDiff {
    /// Per class: present this frame and rebuilt.
    pub dirty: Vec<bool>,
    /// Classes rebuilt, in class order.
    pub rebuilt: Vec<usize>,
    /// Classes reused, in class order.
    pub reused: Vec<usize>,
    /// Layout carried over: not the first frame, and neither size nor theme
    /// changed.
    pub layout_reused: bool,
}

/// Every node is rebuilt: on the first frame, after a resize, or after a
/// theme switch.
pub open spec fn force_all(t: TrackerView, size: (u32, u32), theme_dark: bool) -> bool {
    !t.initialized || t.last_size != size || t.last_theme_dark != Some(theme_dark)
}

/// A present node is dirty when everything is rebuilt, when it was absent the
/// frame before, or when its fingerprint changed.
pub open spec fn node_dirty(t: TrackerView, fp: Seq<u64>, size: (u32, u32), theme_dark: bool, c: int) -> bool {
    force_all(t, size, theme_dark) || !t.present[c] || t.last_fp[c] != fp[c]
}

/// The classes in `[0, n)` that are present and satisfy `dirty == want`.
pub open spec fn classes_where(
    t: TrackerView,
    fp: Seq<u64>,
    present: Seq<bool>,
    size: (u32, u32),
    theme_dark: bool,
    want: bool,
    n: int,
) -> Seq<usize>
    decreases n,
{
    if n <= 0 {
        Seq::empty()
    } else {
        let rest = classes_where(t, fp, present, size, theme_dark, want, n - 1);
        if present[n - 1] && node_dirty(t, fp, size, theme_dark, n - 1) == want {
            rest.push((n - 1) as usize)
        } else {
            rest
        }
    }
}

/// Well-formed retained state: one entry per class.
pub open spec fn tracker_wf(t: TrackerView) -> bool {
    t.last_fp.len() == ELEMENT_COUNT && t.present.len() == ELEMENT_COUNT
}

impl UiNodeTracker {
    /// A tracker that has seen no frame.
    pub fn new() -> (t: Self)
        ensures
            tracker_wf(t@),
            !t@.initialized,
            t@.last_theme_dark is None,
    {
        UiNodeTracker {
            last_fp: vec![0u64; ELEMENT_COUNT],
            present: vec![false; ELEMENT_COUNT],
            last_size: (0, 0),
            last_theme_dark: None,
            initialized: false,
        }
    }

    /// One frame of node tracking: when tracing is off nothing happens and
    /// no diff is produced; when it is on, the frame is diffed against the
    /// retained state (see [`UiNodeTracker::diff_frame`]).
    pub fn record_frame(
        &mut self,
        traced: bool,
        fp: &Vec<u64>,
        present: &Vec<bool>,
        size: (u32, u32),
        theme_dark: bool,
    ) -> (d: Option<FrameDiff>)
        requires
            tracker_wf(old(self)@),
            fp@.len() == ELEMENT_COUNT,
            present@.len() == ELEMENT_COUNT,
        ensures
            !traced ==> final(self)@ == old(self)@ && d is None,
            traced ==> d is Some && final(self)@ == (TrackerView {
                last_fp: fp@,
                present: present@,
                last_size: size,
                last_theme_dark: Some(theme_dark),
                initialized: true,
            }) && d->0.rebuilt@ == classes_where(old(self)@, fp@, present@, size, theme_dark, true, ELEMENT_COUNT as int)
                && d->0.reused@ == classes_where(old(self)@, fp@, present@, size, theme_dark, false, ELEMENT_COUNT as int)
                && d->0.layout_reused == (old(self)@.initialized && old(self)@.last_size == size
                && old(self)@.last_theme_dark == Some(theme_dark)),
    {
        if !traced {
            return None;
        }
        Some(self.diff_frame(fp, present, size, theme_dark))
    }

    /// Diff this frame's per-class fingerprints and presence against the
    /// retained state, then retain them.
    pub fn diff_frame(&mut self, fp: &Vec<u64>, present: &Vec<bool>, size: (u32, u32), theme_dark: bool) -> (d: FrameDiff)
        requires
            tracker_wf(old(self)@),
            fp@.len() == ELEMENT_COUNT,
            present@.len() == ELEMENT_COUNT,
        ensures
            d.dirty@.len() == ELEMENT_COUNT,
            forall|c: int|
                0 <= c < ELEMENT_COUNT ==> #[trigger] d.dirty@[c] == (present@[c] && node_dirty(
                    old(self)@,
                    fp@,
                    size,
                    theme_dark,
                    c,
                )),
            d.rebuilt@ == classes_where(old(self)@, fp@, present@, size, theme_dark, true, ELEMENT_COUNT as int),
            d.reused@ == classes_where(old(self)@, fp@, present@, size, theme_dark, false, ELEMENT_COUNT as int),
            d.layout_reused == (old(self)@.initialized && old(self)@.last_size == size
                && old(self)@.last_theme_dark == Some(theme_dark)),
            final(self)@ == (TrackerView {
                last_fp: fp@,
                present: present@,
                last_size: size,
                last_theme_dark: Some(theme_dark),
                initialized: true,
            }),
    {
        let same_size = self.last_size.0 == size.0 && self.last_size.1 == size.1;
        let same_theme = match self.last_theme_dark {
            Some(d) => d == theme_dark,
            None => false,
        };
        let geometry_changed = self.initialized && !same_size;
        let style_changed = self.initialized && !same_theme;
        let all = !self.initialized || geometry_changed || style_changed;
        let ghost t = self@;
        proof {
            assert(all == force_all(t, size, theme_dark));
        }
        let mut dirty: Vec<bool> = Vec::with_capacity(ELEMENT_COUNT);
        let mut rebuilt: Vec<usize> = Vec::new();
        let mut reused: Vec<usize> = Vec::new();
        let mut c: usize = 0;
        while c < ELEMENT_COUNT
            invariant
                t == self@,
                tracker_wf(t),
                fp@.len() == ELEMENT_COUNT,
                present@.len() == ELEMENT_COUNT,
                all == force_all(t, size, theme_dark),
                c <= ELEMENT_COUNT,
                dirty@.len() == c,
                forall|k: int|
                    0 <= k < c ==> #[trigger] dirty@[k] == (present@[k] && node_dirty(t, fp@, size, theme_dark, k)),
                rebuilt@ == classes_where(t, fp@, present@, size, theme_dark, true, c as int),
                reused@ == classes_where(t, fp@, present@, size, theme_dark, false, c as int),
            decreases ELEMENT_COUNT - c,
        {
            if !present[c] {
                dirty.push(false);
            } else {
                let changed = all || !self.present[c] || self.last_fp[c] != fp[c];
                dirty.push(changed);
                if changed {
                    rebuilt.push(c);
                } else {
                    reused.push(c);
                }
            }
            c += 1;
        }
        let layout_reused = !geometry_changed && !style_changed && self.initialized;
        self.last_fp = fp.clone();
        self.present = present.clone();
        self.last_size = size;
        self.last_theme_dark = Some(theme_dark);
        self.initialized = true;
        proof {
            assert(self.last_fp@ =~= fp@);
            assert(self.present@ =~= present@);
        }
        FrameDiff { dirty, rebuilt, reused, layout_reused }
    }
}

/// Syntax commit accounting of a frame: the visible lines and colored
/// regions of the editor, counted only when a fresh highlight result was
/// applied and the editor text node rebuilt.
pub fn syntax_commit(syntax_applied: bool, editor_dirty: bool, visible_lines: usize, regions: usize) -> (r: (usize, usize))
    ensures
        r == (if syntax_applied && editor_dirty {
            (visible_lines, regions)
        } else {
            (0usize, 0usize)
        }),
{
    if syntax_applied && editor_dirty {
        (visible_lines, regions)
    } else {
        (0, 0)
    }
}

/// Fingerprint of the workspace fields that drive widget-tree rebuilds.
pub struct WidgetTreeFingerprint {
    pub explorer_empty_button: Option<String>,
    pub explorer_items_len: Option<usize>,
    pub explorer_scroll_top: usize,
    pub editor_lines_len: Option<usize>,
    pub active_file: Option<String>,
}

/// The fingerprint as plain values.
pub struct FingerprintView {
    pub explorer_empty_button: Option<Seq<char>>,
    pub explorer_items_len: Option<usize>,
    pub explorer_scroll_top: usize,
    pub editor_lines_len: Option<usize>,
    pub active_file: Option<Seq<char>>,
}

impl View for WidgetTreeFingerprint {
    type V = FingerprintView;

    open spec fn view(&self) -> FingerprintView {
        FingerprintView {
            explorer_empty_button: opt_view(self.explorer_empty_button),
            explorer_items_len: self.explorer_items_len,
            explorer_scroll_top: self.explorer_scroll_top,
            editor_lines_len: self.editor_lines_len,
            active_file: opt_view(self.active_file),
        }
    }
}

fn opt_string_eq(a: &Option<String>, b: &Option<String>) -> (r: bool)
    ensures
        r == (opt_view(*a) == opt_view(*b)),
{
    match (a, b) {
        (Some(x), Some(y)) => x.eq(y),
        (None, None) => true,
        _ => false,
    }
}

impl PartialEq for WidgetTreeFingerprint {
    fn eq(&self, other: &Self) -> (r: bool) {
        opt_string_eq(&self.explorer_empty_button, &other.explorer_empty_button)
            && self.explorer_items_len == other.explorer_items_len
            && self.explorer_scroll_top == other.explorer_scroll_top
            && self.editor_lines_len == other.editor_lines_len && opt_string_eq(
            &self.active_file,
            &other.active_file,
        )
    }
}

impl vstd::std_specs::cmp::PartialEqSpecImpl for WidgetTreeFingerprint {
    open spec fn obeys_eq_spec() -> bool {
        true
    }

    open spec fn eq_spec(&self, other: &Self) -> bool {
        self@ == other@
    }
}

/// Which parts of the workspace changed between two fingerprints.
pub struct RebuildReasons {
    /// Explorer empty-state button, item count or scroll position.
    pub explorer_changed: bool,
    /// Editor line count.
    pub editor_changed: bool,
    /// Active file.
    pub file_changed: bool,
}

impl WidgetTreeFingerprint {
    /// Whether the widget tree must be rebuilt: the window size changed, or
    /// the workspace fingerprint changed or is missing on either side.
    pub fn rebuild_needed(
        last_size: (u32, u32),
        size: (u32, u32),
        last: Option<&WidgetTreeFingerprint>,
        current: Option<&WidgetTreeFingerprint>,
    ) -> (b: bool)
        ensures
            b == (last_size != size || match (last, current) {
                (Some(o), Some(n)) => o@ != n@,
                _ => true,
            }),
    {
        let content_changed = match (last, current) {
            (Some(o), Some(n)) => !o.eq(n),
            _ => true,
        };
        last_size.0 != size.0 || last_size.1 != size.1 || content_changed
    }

    /// The parts of the workspace that differ between two fingerprints.
    pub fn reasons(&self, new: &WidgetTreeFingerprint) -> (r: RebuildReasons)
        ensures
            r.explorer_changed == (self@.explorer_empty_button != new@.explorer_empty_button
                || self@.explorer_items_len != new@.explorer_items_len
                || self@.explorer_scroll_top != new@.explorer_scroll_top),
            r.editor_changed == (self@.editor_lines_len != new@.editor_lines_len),
            r.file_changed == (self@.active_file != new@.active_file),
    {
        RebuildReasons {
            explorer_changed: !opt_string_eq(&self.explorer_empty_button, &new.explorer_empty_button)
                || self.explorer_items_len != new.explorer_items_len
                || self.explorer_scroll_top != new.explorer_scroll_top,
            editor_changed: self.editor_lines_len != new.editor_lines_len,
            file_changed: !opt_string_eq(&self.active_file, &new.active_file),
        }
    }
}

/// Law: a frame partitions its present nodes: every present class is either
/// rebuilt or reused, never both, and an absent class is neither.
pub proof fn law_nodes_partition(
    t: TrackerView,
    fp: Seq<u64>,
    present: Seq<bool>,
    size: (u32, u32),
    theme_dark: bool,
    n: int,
    c: usize,
)
    requires
        n <= ELEMENT_COUNT,
    ensures
        classes_where(t, fp, present, size, theme_dark, true, n).contains(c) ==> present[c as int]
            && node_dirty(t, fp, size, theme_dark, c as int),
        classes_where(t, fp, present, size, theme_dark, false, n).contains(c) ==> present[c as int]
            && !node_dirty(t, fp, size, theme_dark, c as int),
        0 <= c < n ==> (present[c as int] <==> (classes_where(t, fp, present, size, theme_dark, true, n).contains(c)
            || classes_where(t, fp, present, size, theme_dark, false, n).contains(c))),
    decreases n,
{
    if n > 0 {
        law_nodes_partition(t, fp, present, size, theme_dark, n - 1, c);
        let r1 = classes_where(t, fp, present, size, theme_dark, true, n - 1);
        let r2 = classes_where(t, fp, present, size, theme_dark, false, n - 1);
        lemma_classes_below(t, fp, present, size, theme_dark, true, n - 1);
        lemma_classes_below(t, fp, present, size, theme_dark, false, n - 1);
        if present[n - 1] {
            let w = node_dirty(t, fp, size, theme_dark, n - 1);
            if c as int == n - 1 {
                if w {
                    assert(r1.push(c)[r1.len() as int] == c);
                } else {
                    assert(r2.push(c)[r2.len() as int] == c);
                }
            }
            vstd::seq_lib::lemma_seq_contains_after_push(r1, (n - 1) as usize, c);
            vstd::seq_lib::lemma_seq_contains_after_push(r2, (n - 1) as usize, c);
        }
    }
}

proof fn lemma_classes_below(
    t: TrackerView,
    fp: Seq<u64>,
    present: Seq<bool>,
    size: (u32, u32),
    theme_dark: bool,
    want: bool,
    n: int,
)
    ensures
        forall|i: int|
            0 <= i < classes_where(t, fp, present, size, theme_dark, want, n).len() ==> #[trigger] classes_where(
                t,
                fp,
                present,
                size,
                theme_dark,
                want,
                n,
            )[i] < n,
    decreases n,
{
    if n > 0 {
        lemma_classes_below(t, fp, present, size, theme_dark, want, n - 1);
        let r = classes_where(t, fp, present, size, theme_dark, want, n - 1);
        assert forall|i: int| 0 <= i < r.push((n - 1) as usize).len() implies #[trigger] r.push((n - 1) as usize)[i] < n by {
            if i < r.len() {
                assert(r.push((n - 1) as usize)[i] == r[i]);
            }
        }
    }
}

} // verus!
