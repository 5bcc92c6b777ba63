//! The single canonical tab state of the workbench: the ordered tab entries
//! and the active tab. Every open, close and focus goes through it.
use vstd::prelude::*;
use crate::destination::{key_destination, rail_index_spec, 
    entry_key, file_tab_label_spec, format_file_tab_label, key_is_editor, key_is_file_buffer,
    tab_title, tab_title_spec, EntryView, TabKey, WorkbenchDestination, WorkbenchTabEntry,
    WorkbenchTabId,
};
use crate::text::string_of;

verus! {

/// Value of a [`WorkbenchTabState`].
pub struct TabStateView {
    pub entries: Seq<EntryView>,
    pub active: TabKey,
}

/// The tab entries and the active tab identity. The tab strip's horizontal
/// scroll position is kept by the caller.
#[derive(Debug)]
pub struct WorkbenchTabState {
    entries: Vec<WorkbenchTabEntry>,
    active: WorkbenchTabId,
}

impl View for WorkbenchTabState {
    type V = TabStateView;

    closed spec fn view(&self) -> TabStateView {
        TabStateView { entries: self.entries@.map_values(|e: WorkbenchTabEntry| e@), active: self.active@ }
    }
}

/// Position of the first entry at or after `i` whose identity is `k`, or
/// `es.len()` when there is none.
pub open spec fn key_pos_from(es: Seq<EntryView>, k: TabKey, i: int) -> int
    decreases es.len() - i,
{
    if i < 0 || i >= es.len() {
        es.len() as int
    } else if entry_key(es[i]) == k {
        i
    } else {
        key_pos_from(es, k, i + 1)
    }
}

pub open spec fn key_pos(es: Seq<EntryView>, k: TabKey) -> int {
    key_pos_from(es, k, 0)
}

/// The initial state: a single Welcome tab, active.
pub open spec fn initial_state() -> TabStateView {
    TabStateView {
        entries: seq![EntryView::NonFile { id: TabKey::Welcome, title: "Welcome"@ }],
        active: TabKey::Welcome,
    }
}

/// Opening or focusing a non-file tab: editor and file identities select the
/// editor; an existing tab is focused; a new one is appended and focused.
pub open spec fn open_spec(s: TabStateView, k: TabKey) -> TabStateView {
    if key_is_editor(k) || key_is_file_buffer(k) {
        TabStateView { entries: s.entries, active: TabKey::Editor }
    } else if key_pos(s.entries, k) < s.entries.len() {
        TabStateView { entries: s.entries, active: k }
    } else {
        TabStateView {
            entries: s.entries.push(EntryView::NonFile { id: k, title: tab_title_spec(k) }),
            active: k,
        }
    }
}

/// Closing a tab: its entry is removed; if it was active, the tab now in its
/// slot becomes active, else the one before it, else the editor. The result
/// says whether the active tab changed. Closing an absent tab changes nothing.
pub open spec fn close_spec(s: TabStateView, k: TabKey) -> (TabStateView, bool) {
    let p = key_pos(s.entries, k);
    if p >= s.entries.len() {
        (s, false)
    } else {
        let was_active = s.active == k;
        let es = s.entries.remove(p);
        let active = if was_active {
            if p < es.len() {
                entry_key(es[p])
            } else if p > 0 {
                entry_key(es[p - 1])
            } else {
                TabKey::Editor
            }
        } else {
            s.active
        };
        (TabStateView { entries: es, active }, was_active)
    }
}

/// Focusing an existing tab; editor and file identities select the editor.
/// The result says whether the active tab changed.
pub open spec fn focus_spec(s: TabStateView, k: TabKey) -> (TabStateView, bool) {
    if s.active == k {
        (s, false)
    } else if key_is_editor(k) || key_is_file_buffer(k) {
        (TabStateView { entries: s.entries, active: TabKey::Editor }, s.active != TabKey::Editor)
    } else if key_pos(s.entries, k) < s.entries.len() {
        (TabStateView { entries: s.entries, active: k }, true)
    } else {
        (s, false)
    }
}

proof fn lemma_key_pos_bounds(es: Seq<EntryView>, k: TabKey, i: int)
    requires
        0 <= i,
    ensures
        i <= key_pos_from(es, k, i) <= es.len() || key_pos_from(es, k, i) == es.len(),
        key_pos_from(es, k, i) < es.len() ==> entry_key(es[key_pos_from(es, k, i)]) == k,
        forall|j: int| i <= j < key_pos_from(es, k, i) ==> entry_key(#[trigger] es[j]) != k,
    decreases es.len() - i,
{
    if i < es.len() && entry_key(es[i]) != k {
        lemma_key_pos_bounds(es, k, i + 1);
    }
}

/// Entries have pairwise distinct identities.
pub open spec fn unique_keys(es: Seq<EntryView>) -> bool {
    forall|i: int, j: int|
        0 <= i < j < es.len() ==> entry_key(#[trigger] es[i]) != entry_key(#[trigger] es[j])
}

impl Default for WorkbenchTabState {
    /// The Welcome tab open and active.
    fn default() -> (s: Self)
        ensures
            s@ == initial_state(),
    {
        WorkbenchTabState::new()
    }
}

impl WorkbenchTabState {
    /// A state with the Welcome tab open and active.
    pub fn new() -> (s: Self)
        ensures
            s@ == initial_state(),
    {
        let mut entries: Vec<WorkbenchTabEntry> = Vec::new();
        entries.push(WorkbenchTabEntry::NonFile { id: WorkbenchTabId::Welcome, title: string_of("Welcome") });
        let s = WorkbenchTabState { entries, active: WorkbenchTabId::Welcome };
        proof {
            assert(s@.entries =~= initial_state().entries);
        }
        s
    }

    /// The ordered set of canonical tab entries.
    pub fn entries(&self) -> (es: &[WorkbenchTabEntry])
        ensures
            es@.map_values(|e: WorkbenchTabEntry| e@) == self@.entries,
    {
        self.entries.as_slice()
    }

    /// The active tab identity.
    pub fn active(&self) -> (a: &WorkbenchTabId)
        ensures
            a@ == self@.active,
    {
        &self.active
    }

    /// Whether the active tab is in file-editor mode.
    pub fn is_editor_active(&self) -> (b: bool)
        ensures
            b == key_is_editor(self@.active),
    {
        self.active.is_editor()
    }

    fn position_of(&self, id: &WorkbenchTabId) -> (p: usize)
        ensures
            p as int == key_pos(self@.entries, id@),
    {
        let ghost es = self@.entries;
        let mut i: usize = 0;
        while i < self.entries.len()
            invariant
                es == self@.entries,
                es.len() == self.entries@.len(),
                i <= es.len(),
                key_pos(es, id@) == key_pos_from(es, id@, i as int),
            decreases self.entries.len() - i,
        {
            let k = self.entries[i].stable_id();
            assert(es[i as int] == self.entries@[i as int]@);
            if k == *id {
                return i;
            }
            i = i + 1;
        }
        i
    }

    /// Open or focus a non-file tab. Deduplicates by id; editor and file
    /// identities select the file editor.
    pub fn open_or_focus_non_file(&mut self, id: WorkbenchTabId)
        ensures
            final(self)@ == open_spec(old(self)@, id@),
    {
        if id.is_editor() || id.is_file_buffer() {
            self.active = WorkbenchTabId::Editor;
            proof {
                assert(self@.entries =~= old(self)@.entries);
            }
            return;
        }
        let pos = self.position_of(&id);
        if pos < self.entries.len() {
            proof {
                lemma_key_pos_bounds(old(self)@.entries, id@, 0);
            }
            self.active = self.entries[pos].stable_id();
            proof {
                assert(self@.entries =~= old(self)@.entries);
            }
        } else {
            let title = tab_title(&id);
            let ghost old_entries = self.entries@;
            self.entries.push(WorkbenchTabEntry::NonFile { id: id.clone(), title });
            self.active = id;
            proof {
                assert(self.entries@ == old_entries.push(self.entries@.last()));
                assert(self@.entries =~= old(self)@.entries.push(
                    EntryView::NonFile { id: id@, title: tab_title_spec(id@) },
                ));
            }
        }
    }

    /// Close a tab by its stable identity. Returns `true` if the active tab
    /// changed and the caller needs to update content.
    pub fn close_tab(&mut self, id: &WorkbenchTabId) -> (changed: bool)
        ensures
            (final(self)@, changed) == close_spec(old(self)@, id@),
    {
        let pos = self.position_of(id);
        if pos >= self.entries.len() {
            return false;
        }
        proof {
            lemma_key_pos_bounds(old(self)@.entries, id@, 0);
        }
        let was_active = self.active == *id;
        let ghost old_entries = self.entries@;
        self.entries.remove(pos);
        proof {
            assert(self@.entries =~= old(self)@.entries.remove(pos as int));
        }
        if was_active {
            let fallback = if pos < self.entries.len() {
                self.entries[pos].stable_id()
            } else if pos > 0 {
                self.entries[pos - 1].stable_id()
            } else {
                WorkbenchTabId::Editor
            };
            self.active = fallback;
        }
        proof {
            assert(self@.entries =~= old(self)@.entries.remove(pos as int));
        }
        was_active
    }

    /// Focus an existing tab by id. Returns `true` if the active tab changed.
    pub fn focus_tab(&mut self, id: &WorkbenchTabId) -> (changed: bool)
        ensures
            (final(self)@, changed) == focus_spec(old(self)@, id@),
    {
        if self.active == *id {
            return false;
        }
        if id.is_editor() || id.is_file_buffer() {
            let changed = self.active != WorkbenchTabId::Editor;
            self.active = WorkbenchTabId::Editor;
            proof {
                assert(self@.entries =~= old(self)@.entries);
            }
            return changed;
        }
        let pos = self.position_of(id);
        if pos < self.entries.len() {
            self.active = id.clone();
            proof {
                assert(self@.entries =~= old(self)@.entries);
            }
            return true;
        }
        false
    }

    /// The single activation entry point for a destination selected from the
    /// activity rail: the Explorer focuses the file editor, every other
    /// destination opens or focuses its root tab.
    pub fn activate_destination(&mut self, dest: WorkbenchDestination)
        ensures
            final(self)@ == open_spec(
                old(self)@,
                if dest == WorkbenchDestination::Explorer {
                    TabKey::Editor
                } else {
                    TabKey::DestinationRoot(dest)
                },
            ),
    {
        let target = if dest.is_explorer() {
            WorkbenchTabId::Editor
        } else {
            WorkbenchTabId::DestinationRoot(dest)
        };
        self.open_or_focus_non_file(target);
    }
}

// ---------------------------------------------------------------------------
// Laws of the tab state.

/// The initial state has pairwise distinct identities.
pub proof fn law_initial_unique()
    ensures
        unique_keys(initial_state().entries),
{
}

/// Opening a non-file tab makes it active and present exactly where it was
/// (or at the end when new); the entries are otherwise unchanged.
pub proof fn law_open_focuses(s: TabStateView, k: TabKey)
    requires
        !key_is_editor(k),
        !key_is_file_buffer(k),
    ensures
        open_spec(s, k).active == k,
        key_pos(open_spec(s, k).entries, k) < open_spec(s, k).entries.len(),
        open_spec(s, k).entries.take(s.entries.len() as int) == s.entries,
{
    lemma_key_pos_bounds(s.entries, k, 0);
    let t = open_spec(s, k);
    if key_pos(s.entries, k) >= s.entries.len() {
        lemma_key_pos_bounds(t.entries, k, 0);
        assert(t.entries.take(s.entries.len() as int) =~= s.entries);
        let n = s.entries.len() as int;
        assert(entry_key(t.entries[n]) == k);
        assert forall|j: int| 0 <= j < n implies entry_key(#[trigger] t.entries[j]) != k by {
            assert(t.entries[j] == s.entries[j]);
        }
        assert(key_pos(t.entries, k) == n) by {
            lemma_key_pos_bounds(t.entries, k, 0);
            if key_pos(t.entries, k) < n {
                assert(t.entries[key_pos(t.entries, k)] == s.entries[key_pos(t.entries, k)]);
            }
        }
    } else {
        assert(t.entries.take(s.entries.len() as int) =~= s.entries);
    }
}

/// Opening the same tab twice is the same as opening it once.
pub proof fn law_open_idempotent(s: TabStateView, k: TabKey)
    ensures
        open_spec(open_spec(s, k), k) == open_spec(s, k),
{
    if !key_is_editor(k) && !key_is_file_buffer(k) {
        law_open_focuses(s, k);
    }
}

/// Opening a new non-file tab and closing it again restores the entries; the
/// tab that was last before it becomes active (the editor when none).
pub proof fn law_open_then_close_restores_entries(s: TabStateView, k: TabKey)
    requires
        !key_is_editor(k),
        !key_is_file_buffer(k),
        key_pos(s.entries, k) >= s.entries.len(),
    ensures
        close_spec(open_spec(s, k), k).0.entries == s.entries,
        close_spec(open_spec(s, k), k).0.active == if s.entries.len() > 0 {
            entry_key(s.entries.last())
        } else {
            TabKey::Editor
        },
        close_spec(open_spec(s, k), k).1,
{
    law_open_focuses(s, k);
    lemma_key_pos_bounds(s.entries, k, 0);
    let t = open_spec(s, k);
    let n = s.entries.len() as int;
    assert(key_pos(t.entries, k) == n) by {
        lemma_key_pos_bounds(t.entries, k, 0);
        if key_pos(t.entries, k) < n {
            assert(t.entries[key_pos(t.entries, k)] == s.entries[key_pos(t.entries, k)]);
        }
    }
    assert(t.entries.remove(n) =~= s.entries);
}

/// Opening a tab keeps identities pairwise distinct.
pub proof fn law_open_keeps_unique(s: TabStateView, k: TabKey)
    requires
        unique_keys(s.entries),
    ensures
        unique_keys(open_spec(s, k).entries),
{
    lemma_key_pos_bounds(s.entries, k, 0);
    let t = open_spec(s, k);
    if !key_is_editor(k) && !key_is_file_buffer(k) && key_pos(s.entries, k) >= s.entries.len() {
        assert forall|i: int, j: int| 0 <= i < j < t.entries.len() implies entry_key(
            #[trigger] t.entries[i],
        ) != entry_key(#[trigger] t.entries[j]) by {
            if j == s.entries.len() {
                assert(t.entries[i] == s.entries[i]);
            } else {
                assert(t.entries[i] == s.entries[i]);
                assert(t.entries[j] == s.entries[j]);
            }
        }
    }
}

/// Closing a tab keeps identities pairwise distinct and removes the closed
/// tab; closing the active tab (other than the editor) never leaves it
/// active.
pub proof fn law_close_removes(s: TabStateView, k: TabKey)
    requires
        unique_keys(s.entries),
    ensures
        unique_keys(close_spec(s, k).0.entries),
        key_pos(close_spec(s, k).0.entries, k) >= close_spec(s, k).0.entries.len(),
        (s.active == k && key_pos(s.entries, k) < s.entries.len() && k != TabKey::Editor)
            ==> close_spec(s, k).0.active != k,
{
    lemma_key_pos_bounds(s.entries, k, 0);
    let p = key_pos(s.entries, k);
    let t = close_spec(s, k).0;
    if p < s.entries.len() {
        let es = s.entries.remove(p);
        assert forall|i: int| 0 <= i < es.len() implies #[trigger] es[i] == if i < p {
            s.entries[i]
        } else {
            s.entries[i + 1]
        } by {}
        assert forall|i: int, j: int| 0 <= i < j < es.len() implies entry_key(#[trigger] es[i])
            != entry_key(#[trigger] es[j]) by {
            let a = if i < p { i } else { i + 1 };
            let b = if j < p { j } else { j + 1 };
            assert(es[i] == s.entries[a]);
            assert(es[j] == s.entries[b]);
        }
        assert forall|j: int| 0 <= j < es.len() implies entry_key(#[trigger] es[j]) != k by {
            let b = if j < p { j } else { j + 1 };
            assert(es[j] == s.entries[b]);
            if b != p {
                if b < p {
                    assert(entry_key(s.entries[b]) != entry_key(s.entries[p]));
                } else {
                    assert(entry_key(s.entries[p]) != entry_key(s.entries[b]));
                }
            }
        }
        lemma_key_pos_bounds(es, k, 0);
    } else {
        assert forall|j: int| 0 <= j < s.entries.len() implies entry_key(#[trigger] s.entries[j]) != k by {}
    }
}

/// A focus that reports a change leaves the requested tab (or the editor,
/// for editor and file identities) active, and never changes the entries.
pub proof fn law_focus(s: TabStateView, k: TabKey)
    ensures
        focus_spec(s, k).0.entries == s.entries,
        focus_spec(s, k).1 ==> focus_spec(s, k).0.active == if key_is_editor(k)
            || key_is_file_buffer(k) {
            TabKey::Editor
        } else {
            k
        },
        !focus_spec(s, k).1 ==> focus_spec(s, k).0 == s,
{
}


// ---------------------------------------------------------------------------
// Syncing file tabs.

pub open spec fn titles_view(t: Seq<(String, String, bool)>) -> Seq<(Seq<char>, Seq<char>, bool)> {
    t.map_values(|x: (String, String, bool)| (x.0@, x.1@, x.2))
}

/// Dedup state after the first `k` of `titles` (each `(path, buffer_id,
/// is_active)`): buffer ids seen, paths seen, and indices kept. A title whose
/// buffer id was seen is skipped; otherwise its id is recorded, and it is
/// kept unless its path was seen.
pub open spec fn sync_seen(titles: Seq<(Seq<char>, Seq<char>, bool)>, k: int) -> (
    Seq<Seq<char>>,
    Seq<Seq<char>>,
    Seq<int>,
)
    decreases k,
{
    if k <= 0 {
        (Seq::empty(), Seq::empty(), Seq::empty())
    } else {
        let prev = sync_seen(titles, k - 1);
        let t = titles[k - 1];
        if prev.0.contains(t.1) {
            prev
        } else if prev.1.contains(t.0) {
            (prev.0.push(t.1), prev.1, prev.2)
        } else {
            (prev.0.push(t.1), prev.1.push(t.0), prev.2.push(k - 1))
        }
    }
}

/// File entries synced from `titles`, in order, duplicates removed.
pub open spec fn file_entries(titles: Seq<(Seq<char>, Seq<char>, bool)>) -> Seq<EntryView> {
    let kept = sync_seen(titles, titles.len() as int).2;
    let paths = titles.map_values(|t: (Seq<char>, Seq<char>, bool)| t.0);
    kept.map_values(
        |i: int|
            EntryView::File {
                buffer_id: titles[i].1,
                title: file_tab_label_spec(titles[i].0, paths),
                is_active_buffer: titles[i].2,
            },
    )
}

/// The non-file entries of `es`, in order.
pub open spec fn non_file_entries(es: Seq<EntryView>) -> Seq<EntryView>
    decreases es.len(),
{
    if es.len() == 0 {
        Seq::empty()
    } else if es.last() is File {
        non_file_entries(es.drop_last())
    } else {
        non_file_entries(es.drop_last()).push(es.last())
    }
}

/// Syncing file tabs: file entries rebuilt from `titles` in front, the
/// non-file entries kept in their order after them; the active tab unchanged.
pub open spec fn sync_spec(s: TabStateView, titles: Seq<(Seq<char>, Seq<char>, bool)>) -> TabStateView {
    TabStateView { entries: file_entries(titles) + non_file_entries(s.entries), active: s.active }
}

fn contains_string(v: &Vec<String>, x: &String) -> (b: bool)
    ensures
        b == v@.map_values(|s: String| s@).contains(x@),
{
    let ghost sv = v@.map_values(|s: String| s@);
    let mut i: usize = 0;
    while i < v.len()
        invariant
            sv == v@.map_values(|s: String| s@),
            i <= v@.len(),
            forall|j: int| 0 <= j < i ==> sv[j] != x@,
        decreases v.len() - i,
    {
        if v[i] == *x {
            proof {
                assert(sv[i as int] == x@);
            }
            return true;
        }
        i = i + 1;
    }
    false
}

impl WorkbenchTabState {
    /// Sync file tabs from the opened-buffers summary `(path, buffer_id,
    /// is_active)`: the file-tab portion is rebuilt (duplicate buffer ids or
    /// paths dropped, first occurrence kept) in front of the non-file tabs,
    /// which keep their order.
    pub fn sync_file_tabs(&mut self, titles: &[(String, String, bool)])
        ensures
            final(self)@ == sync_spec(old(self)@, titles_view(titles@)),
    {
        let ghost tv = titles_view(titles@);
        let ghost es0 = self@.entries;
        // Non-file tabs, in order.
        let mut non_file: Vec<WorkbenchTabEntry> = Vec::new();
        let mut i: usize = 0;
        while i < self.entries.len()
            invariant
                es0 == self@.entries,
                es0.len() == self.entries@.len(),
                i <= es0.len(),
                non_file@.map_values(|e: WorkbenchTabEntry| e@) == non_file_entries(es0.take(i as int)),
            decreases self.entries.len() - i,
        {
            proof {
                assert(es0.take(i + 1).drop_last() =~= es0.take(i as int));
                assert(es0[i as int] == self.entries@[i as int]@);
            }
            if !self.entries[i].is_file() {
                let ghost nb = non_file@;
                let e = self.entries[i].clone();
                non_file.push(e);
                proof {
                    assert(non_file@.map_values(|e: WorkbenchTabEntry| e@) =~= nb.map_values(
                        |e: WorkbenchTabEntry| e@,
                    ).push(e@));
                }
            }
            i = i + 1;
        }
        proof {
            assert(es0.take(i as int) =~= es0);
        }
        // All paths, for label disambiguation.
        let mut all_paths: Vec<&str> = Vec::new();
        let mut k: usize = 0;
        while k < titles.len()
            invariant
                k <= titles@.len(),
                all_paths@.map_values(|p: &str| p@) =~= titles@.take(k as int).map_values(
                    |t: (String, String, bool)| t.0@,
                ),
            decreases titles.len() - k,
        {
            let ghost ab = all_paths@;
            all_paths.push(titles[k].0.as_str());
            proof {
                assert(titles@.take(k + 1) =~= titles@.take(k as int).push(titles@[k as int]));
                assert(all_paths@.map_values(|p: &str| p@) =~= ab.map_values(|p: &str| p@).push(
                    titles@[k as int].0@,
                ));
            }
            k = k + 1;
        }
        proof {
            assert(titles@.take(k as int) =~= titles@);
            assert(all_paths@.map_values(|p: &str| p@) =~= tv.map_values(
                |t: (Seq<char>, Seq<char>, bool)| t.0,
            ));
        }
        let ghost paths = tv.map_values(|t: (Seq<char>, Seq<char>, bool)| t.0);
        let mut seen_bid: Vec<String> = Vec::new();
        let mut seen_path: Vec<String> = Vec::new();
        let mut files: Vec<WorkbenchTabEntry> = Vec::new();
        let mut k: usize = 0;
        while k < titles.len()
            invariant
                tv == titles_view(titles@),
                paths == tv.map_values(|t: (Seq<char>, Seq<char>, bool)| t.0),
                all_paths@.map_values(|p: &str| p@) == paths,
                k <= titles@.len(),
                ({
                    let st = sync_seen(tv, k as int);
                    &&& seen_bid@.map_values(|s: String| s@) == st.0
                    &&& seen_path@.map_values(|s: String| s@) == st.1
                    &&& files@.map_values(|e: WorkbenchTabEntry| e@) == st.2.map_values(
                        |j: int|
                            EntryView::File {
                                buffer_id: tv[j].1,
                                title: file_tab_label_spec(tv[j].0, paths),
                                is_active_buffer: tv[j].2,
                            },
                    )
                }),
            decreases titles.len() - k,
        {
            let (path, bid, is_active) = &titles[k];
            proof {
                assert(tv[k as int] == (path@, bid@, *is_active));
            }
            if contains_string(&seen_bid, bid) {
                k = k + 1;
                continue;
            }
            let ghost sb = seen_bid@;
            seen_bid.push(bid.clone());
            proof {
                assert(seen_bid@.map_values(|s: String| s@) =~= sb.map_values(|s: String| s@).push(bid@));
            }
            if contains_string(&seen_path, path) {
                k = k + 1;
                continue;
            }
            let ghost sp = seen_path@;
            seen_path.push(path.clone());
            proof {
                assert(seen_path@.map_values(|s: String| s@) =~= sp.map_values(|s: String| s@).push(path@));
            }
            let title = format_file_tab_label(path.as_str(), all_paths.as_slice());
            let ghost fb = files@;
            files.push(WorkbenchTabEntry::File { buffer_id: bid.clone(), title, is_active_buffer: *is_active });
            proof {
                let st = sync_seen(tv, k as int);
                let f = |j: int|
                    EntryView::File {
                        buffer_id: tv[j].1,
                        title: file_tab_label_spec(tv[j].0, paths),
                        is_active_buffer: tv[j].2,
                    };
                assert(files@.map_values(|e: WorkbenchTabEntry| e@) =~= fb.map_values(
                    |e: WorkbenchTabEntry| e@,
                ).push(f(k as int)));
                assert(st.2.push(k as int).map_values(f) =~= st.2.map_values(f).push(f(k as int)));
            }
            k = k + 1;
        }
        let ghost fv = files@;
        let ghost nv = non_file@;
        files.append(&mut non_file);
        self.entries = files;
        proof {
            assert(self.entries@ == fv + nv);
            assert(self@.entries =~= fv.map_values(|e: WorkbenchTabEntry| e@) + nv.map_values(
                |e: WorkbenchTabEntry| e@,
            ));
        }
    }
}

/// No non-file entry carries a file buffer identity (what opening tabs
/// keeps: file identities select the editor instead).
pub open spec fn non_file_ids_not_files(es: Seq<EntryView>) -> bool {
    forall|i: int| 0 <= i < es.len() && es[i] is NonFile ==> !key_is_file_buffer(entry_key(#[trigger] es[i]))
}

proof fn lemma_sync_seen_ids(titles: Seq<(Seq<char>, Seq<char>, bool)>, k: int)
    requires
        0 <= k <= titles.len(),
    ensures
        ({
            let (ids, _paths, kept) = sync_seen(titles, k);
            &&& forall|a: int| 0 <= a < kept.len() ==> 0 <= #[trigger] kept[a] < k && ids.contains(titles[kept[a]].1)
            &&& forall|a: int, b: int|
                0 <= a < b < kept.len() ==> titles[#[trigger] kept[a]].1 != titles[#[trigger] kept[b]].1
        }),
    decreases k,
{
    if k > 0 {
        lemma_sync_seen_ids(titles, k - 1);
        let prev = sync_seen(titles, k - 1);
        let t = titles[k - 1];
        if !prev.0.contains(t.1) {
            let ids2 = prev.0.push(t.1);
            assert forall|x: Seq<char>| prev.0.contains(x) implies ids2.contains(x) by {
                let i = choose|i: int| 0 <= i < prev.0.len() && prev.0[i] == x;
                assert(ids2[i] == x);
            }
            assert(ids2[prev.0.len() as int] == t.1);
            if !prev.1.contains(t.0) {
                let kept2 = prev.2.push(k - 1);
                assert forall|a: int| 0 <= a < kept2.len() implies 0 <= #[trigger] kept2[a] < k && ids2.contains(
                    titles[kept2[a]].1,
                ) by {
                    if a < prev.2.len() {
                        assert(kept2[a] == prev.2[a]);
                    }
                }
                assert forall|a: int, b: int|
                    0 <= a < b < kept2.len() implies titles[#[trigger] kept2[a]].1 != titles[#[trigger] kept2[b]].1 by {
                    if b == prev.2.len() {
                        assert(kept2[a] == prev.2[a]);
                        assert(prev.0.contains(titles[prev.2[a]].1));
                    } else {
                        assert(kept2[a] == prev.2[a]);
                        assert(kept2[b] == prev.2[b]);
                    }
                }
            }
        }
    }
}

proof fn lemma_non_file_members(es: Seq<EntryView>)
    ensures
        forall|i: int|
            0 <= i < non_file_entries(es).len() ==> #[trigger] non_file_entries(es)[i] is NonFile && es.contains(
                non_file_entries(es)[i],
            ),
        unique_keys(es) ==> unique_keys(non_file_entries(es)),
    decreases es.len(),
{
    if es.len() > 0 {
        let d = es.drop_last();
        lemma_non_file_members(d);
        let r = non_file_entries(d);
        assert forall|x: EntryView| d.contains(x) implies es.contains(x) by {
            let i = choose|i: int| 0 <= i < d.len() && d[i] == x;
            assert(es[i] == x);
        }
        assert(es[es.len() - 1] == es.last());
        if unique_keys(es) {
            assert forall|i: int, j: int| 0 <= i < j < d.len() implies entry_key(#[trigger] d[i]) != entry_key(
                #[trigger] d[j],
            ) by {
                assert(d[i] == es[i]);
                assert(d[j] == es[j]);
            }
        }
        if !(es.last() is File) {
            let q = r.push(es.last());
            assert forall|i: int| 0 <= i < q.len() implies #[trigger] q[i] is NonFile && es.contains(q[i]) by {
                if i < r.len() {
                    assert(q[i] == r[i]);
                    assert(d.contains(r[i]));
                }
            }
            if unique_keys(es) {
                assert forall|i: int, j: int| 0 <= i < j < q.len() implies entry_key(#[trigger] q[i]) != entry_key(
                    #[trigger] q[j],
                ) by {
                    assert(q[i] == r[i]);
                    if j == r.len() {
                        assert(d.contains(r[i]));
                        let m = choose|m: int| 0 <= m < d.len() && d[m] == r[i];
                        assert(es[m] == r[i]);
                    } else {
                        assert(q[j] == r[j]);
                    }
                }
            }
        }
    }
}

/// Law: syncing file tabs keeps identities pairwise distinct: the rebuilt
/// file tabs have distinct buffer ids, and the non-file tabs keep theirs.
pub proof fn law_sync_keeps_unique(s: TabStateView, titles: Seq<(Seq<char>, Seq<char>, bool)>)
    requires
        unique_keys(s.entries),
        non_file_ids_not_files(s.entries),
    ensures
        unique_keys(sync_spec(s, titles).entries),
{
    lemma_sync_seen_ids(titles, titles.len() as int);
    lemma_non_file_members(s.entries);
    let f = file_entries(titles);
    let n = non_file_entries(s.entries);
    let es = f + n;
    let kept = sync_seen(titles, titles.len() as int).2;
    assert forall|i: int, j: int| 0 <= i < j < es.len() implies entry_key(#[trigger] es[i]) != entry_key(
        #[trigger] es[j],
    ) by {
        if j < f.len() {
            assert(es[i] == f[i]);
            assert(es[j] == f[j]);
            assert(titles[kept[i]].1 != titles[kept[j]].1);
        } else if i >= f.len() {
            assert(es[i] == n[i - f.len()]);
            assert(es[j] == n[j - f.len()]);
        } else {
            assert(es[i] == f[i]);
            assert(es[j] == n[j - f.len()]);
            assert(n[j - f.len()] is NonFile);
            assert(s.entries.contains(n[j - f.len()]));
            let m = choose|m: int| 0 <= m < s.entries.len() && s.entries[m] == n[j - f.len()];
            assert(!key_is_file_buffer(entry_key(s.entries[m])));
        }
    }
}

/// Law: opening, closing and syncing tabs never give a non-file tab a file
/// buffer identity, so the precondition of [`law_sync_keeps_unique`] holds
/// in every state reached from the initial one.
pub proof fn law_non_file_ids_kept(s: TabStateView, k: TabKey, titles: Seq<(Seq<char>, Seq<char>, bool)>)
    requires
        non_file_ids_not_files(s.entries),
    ensures
        non_file_ids_not_files(open_spec(s, k).entries),
        non_file_ids_not_files(close_spec(s, k).0.entries),
        non_file_ids_not_files(sync_spec(s, titles).entries),
        non_file_ids_not_files(initial_state().entries),
{
    let o = open_spec(s, k).entries;
    assert forall|i: int| 0 <= i < o.len() && o[i] is NonFile implies !key_is_file_buffer(entry_key(#[trigger] o[i])) by {
        if i < s.entries.len() {
            assert(o[i] == s.entries[i]);
        }
    }
    lemma_key_pos_bounds(s.entries, k, 0);
    let p = key_pos(s.entries, k);
    if p < s.entries.len() {
        let c = s.entries.remove(p);
        assert forall|i: int| 0 <= i < c.len() && c[i] is NonFile implies !key_is_file_buffer(entry_key(#[trigger] c[i])) by {
            if i < p {
                assert(c[i] == s.entries[i]);
            } else {
                assert(c[i] == s.entries[i + 1]);
            }
        }
    }
    lemma_non_file_members(s.entries);
    let f = file_entries(titles);
    let n = non_file_entries(s.entries);
    let e = f + n;
    assert forall|i: int| 0 <= i < e.len() && e[i] is NonFile implies !key_is_file_buffer(entry_key(#[trigger] e[i])) by {
        if i >= f.len() {
            assert(e[i] == n[i - f.len()]);
            assert(s.entries.contains(n[i - f.len()]));
            let m = choose|m: int| 0 <= m < s.entries.len() && s.entries[m] == n[i - f.len()];
            assert(s.entries[m] is NonFile);
        } else {
            assert(e[i] == f[i]);
        }
    }
}

impl WorkbenchTabState {
    /// The activity-rail index reflecting the active tab: the rail index of
    /// the active tab's destination (the rail highlight is derived, never an
    /// authority of its own).
    pub fn rail_reflection(&self) -> (i: usize)
        ensures
            i == rail_index_spec(key_destination(self@.active)),
    {
        self.active.destination().rail_index()
    }
}

/// A file tab as the editor group shows it.
pub struct VisibleFileTab {
    /// Label shown on the tab.
    pub display: String,
    /// Buffer identity of the file.
    pub buffer_id: String,
    /// The editor group's active file.
    pub is_active: bool,
    /// A preview (not yet pinned) tab.
    pub is_preview: bool,
}

/// One tab of the primary tab strip.
pub struct UnifiedTab {
    pub id: WorkbenchTabId,
    pub title: String,
    /// Highlighted as the active tab.
    pub active: bool,
    pub closable: bool,
    pub is_preview: bool,
}

/// The tab strip: one closable file tab per visible editor-group tab, in
/// order; a file tab shows as active only while the editor is the active
/// workbench tab.
pub fn build_unified_tabs(visible: &[VisibleFileTab], active_tab: &WorkbenchTabId) -> (tabs: Vec<UnifiedTab>)
    ensures
        tabs@.len() == visible@.len(),
        forall|i: int|
            0 <= i < visible@.len() ==> {
                let t = #[trigger] tabs@[i];
                let v = visible@[i];
                &&& t.id@ == TabKey::FileBuffer(v.buffer_id@)
                &&& t.title@ == v.display@
                &&& t.active == (v.is_active && key_is_editor(active_tab@))
                &&& t.closable
                &&& t.is_preview == v.is_preview
            },
{
    let editor_active = active_tab.is_editor();
    let mut tabs: Vec<UnifiedTab> = Vec::with_capacity(visible.len());
    let mut i: usize = 0;
    while i < visible.len()
        invariant
            editor_active == key_is_editor(active_tab@),
            i <= visible@.len(),
            tabs@.len() == i,
            forall|j: int|
                0 <= j < i ==> {
                    let t = #[trigger] tabs@[j];
                    let v = visible@[j];
                    &&& t.id@ == TabKey::FileBuffer(v.buffer_id@)
                    &&& t.title@ == v.display@
                    &&& t.active == (v.is_active && editor_active)
                    &&& t.closable
                    &&& t.is_preview == v.is_preview
                },
        decreases visible@.len() - i,
    {
        let v = &visible[i];
        tabs.push(
            UnifiedTab {
                id: WorkbenchTabId::FileBuffer(v.buffer_id.clone()),
                title: v.display.clone(),
                active: v.is_active && editor_active,
                closable: true,
                is_preview: v.is_preview,
            },
        );
        i += 1;
    }
    tabs
}

/// Law: closing the active tab hands the focus to its neighbour: the tab
/// that followed it when there is one, else the tab before it, else the
/// editor; the closed entry is removed and the others keep their order.
pub proof fn law_close_active_prefers_successor(s: TabStateView, p: int)
    requires
        0 <= p < s.entries.len(),
        s.active == entry_key(s.entries[p]),
        forall|j: int| 0 <= j < p ==> entry_key(#[trigger] s.entries[j]) != entry_key(s.entries[p]),
    ensures
        ({
            let (t, changed) = close_spec(s, entry_key(s.entries[p]));
            &&& changed
            &&& t.entries == s.entries.remove(p)
            &&& p + 1 < s.entries.len() ==> t.active == entry_key(s.entries[p + 1])
            &&& p + 1 == s.entries.len() && p > 0 ==> t.active == entry_key(s.entries[p - 1])
            &&& s.entries.len() == 1 ==> t.active == TabKey::Editor
        }),
{
    let k = entry_key(s.entries[p]);
    lemma_key_pos_bounds(s.entries, k, 0);
    lemma_key_pos_is(s.entries, k, p);
}

proof fn lemma_key_pos_is(es: Seq<EntryView>, k: TabKey, p: int)
    requires
        0 <= p < es.len(),
        entry_key(es[p]) == k,
        forall|j: int| 0 <= j < p ==> entry_key(#[trigger] es[j]) != k,
    ensures
        key_pos(es, k) == p,
{
    lemma_key_pos_from_is(es, k, 0, p);
}

proof fn lemma_key_pos_from_is(es: Seq<EntryView>, k: TabKey, i: int, p: int)
    requires
        0 <= i <= p < es.len(),
        entry_key(es[p]) == k,
        forall|j: int| 0 <= j < p ==> entry_key(#[trigger] es[j]) != k,
    ensures
        key_pos_from(es, k, i) == p,
    decreases p - i,
{
    if i < p {
        assert(entry_key(es[i]) != k);
        lemma_key_pos_from_is(es, k, i + 1, p);
    }
}

} // verus!
