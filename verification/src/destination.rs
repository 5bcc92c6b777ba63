//! Workbench destinations and tab identities.
//!
//! A destination is selected from the activity rail and drives the sidebar,
//! the editor region and the tab strip. Tabs are identified by
//! [`WorkbenchTabId`]; the Extensions and Settings pages read a small local
//! catalogue so the sidebar and the main pane never disagree.
use vstd::prelude::*;
use crate::text::{
    after_last_of, chars_eq, chars_of, push_str, string_from_chars, string_of, strings_view,
};

verus! {

/// A first-class destination selected from the activity rail.
#[derive(Debug, Clone, Copy, PartialEq, Eq, Hash, Structural)]
pub enum WorkbenchDestination {
    /// File tree + editor cockpit (the default).
    Explorer,
    /// Full-text search across the workspace.
    Search,
    /// Source-control (git) changes.
    SourceControl,
    /// Run & debug.
    Debug,
    /// Extensions marketplace / manager.
    Extensions,
    /// Application settings.
    Settings,
    /// Account / sign-in.
    Account,
}

pub open spec fn rail_index_spec(d: WorkbenchDestination) -> usize {
    match d {
        WorkbenchDestination::Explorer => 0,
        WorkbenchDestination::Search => 1,
        WorkbenchDestination::SourceControl => 2,
        WorkbenchDestination::Debug => 3,
        WorkbenchDestination::Extensions => 4,
        WorkbenchDestination::Settings => 5,
        WorkbenchDestination::Account => 6,
    }
}

pub open spec fn from_rail_index_spec(index: usize) -> WorkbenchDestination {
    if index == 1 {
        WorkbenchDestination::Search
    } else if index == 2 {
        WorkbenchDestination::SourceControl
    } else if index == 3 {
        WorkbenchDestination::Debug
    } else if index == 4 {
        WorkbenchDestination::Extensions
    } else if index == 5 {
        WorkbenchDestination::Settings
    } else if index == 6 {
        WorkbenchDestination::Account
    } else {
        WorkbenchDestination::Explorer
    }
}

pub open spec fn destination_title_spec(d: WorkbenchDestination) -> Seq<char> {
    match d {
        WorkbenchDestination::Explorer => "Explorer"@,
        WorkbenchDestination::Search => "Search"@,
        WorkbenchDestination::SourceControl => "Source Control"@,
        WorkbenchDestination::Debug => "Run & Debug"@,
        WorkbenchDestination::Extensions => "Extensions"@,
        WorkbenchDestination::Settings => "Settings"@,
        WorkbenchDestination::Account => "Account"@,
    }
}

pub open spec fn placeholder_spec(d: WorkbenchDestination) -> Option<(Seq<char>, Seq<char>)> {
    match d {
        WorkbenchDestination::Search => Some(("Search"@, "Find across files in the workspace."@)),
        WorkbenchDestination::SourceControl => Some(("Source Control"@, "Review and stage changes."@)),
        WorkbenchDestination::Debug => Some(("Run & Debug"@, "Launch and inspect debug sessions."@)),
        WorkbenchDestination::Account => Some(("Account"@, "Sign in to sync settings and extensions."@)),
        _ => None,
    }
}

impl WorkbenchDestination {
    /// Map a rail index to a destination. Out-of-range falls back to `Explorer`.
    pub fn from_rail_index(index: usize) -> (d: Self)
        ensures
            d == from_rail_index_spec(index),
    {
        match index {
            0 => WorkbenchDestination::Explorer,
            1 => WorkbenchDestination::Search,
            2 => WorkbenchDestination::SourceControl,
            3 => WorkbenchDestination::Debug,
            4 => WorkbenchDestination::Extensions,
            5 => WorkbenchDestination::Settings,
            6 => WorkbenchDestination::Account,
            _ => WorkbenchDestination::Explorer,
        }
    }

    /// Whether this destination is the file-editing Explorer.
    pub fn is_explorer(&self) -> (b: bool)
        ensures
            b == (*self == WorkbenchDestination::Explorer),
    {
        match self {
            WorkbenchDestination::Explorer => true,
            _ => false,
        }
    }

    /// The activity-rail index that selects this destination.
    pub fn rail_index(&self) -> (i: usize)
        ensures
            i == rail_index_spec(*self),
    {
        match self {
            WorkbenchDestination::Explorer => 0,
            WorkbenchDestination::Search => 1,
            WorkbenchDestination::SourceControl => 2,
            WorkbenchDestination::Debug => 3,
            WorkbenchDestination::Extensions => 4,
            WorkbenchDestination::Settings => 5,
            WorkbenchDestination::Account => 6,
        }
    }

    /// Human title used for the tab strip / breadcrumb / main heading.
    pub fn title(&self) -> (s: &'static str)
        ensures
            s@ == destination_title_spec(*self),
    {
        match self {
            WorkbenchDestination::Explorer => "Explorer",
            WorkbenchDestination::Search => "Search",
            WorkbenchDestination::SourceControl => "Source Control",
            WorkbenchDestination::Debug => "Run & Debug",
            WorkbenchDestination::Extensions => "Extensions",
            WorkbenchDestination::Settings => "Settings",
            WorkbenchDestination::Account => "Account",
        }
    }

    /// Title shown above the destination's sidebar panel.
    pub fn sidebar_title(&self) -> (s: &'static str)
        ensures
            s@ == destination_title_spec(*self),
    {
        match self {
            WorkbenchDestination::Explorer => "Explorer",
            WorkbenchDestination::Search => "Search",
            WorkbenchDestination::SourceControl => "Source Control",
            WorkbenchDestination::Debug => "Run & Debug",
            WorkbenchDestination::Extensions => "Extensions",
            WorkbenchDestination::Settings => "Settings",
            WorkbenchDestination::Account => "Account",
        }
    }

    /// `(title, subtitle)` for destinations rendered as a titled placeholder;
    /// `None` for destinations with their own page.
    pub fn placeholder(&self) -> (r: Option<(String, String)>)
        ensures
            match r {
                Some((t, s)) => placeholder_spec(*self) == Some((t@, s@)),
                None => placeholder_spec(*self) is None,
            },
    {
        match self {
            WorkbenchDestination::Search => Some(
                (string_of("Search"), string_of("Find across files in the workspace.")),
            ),
            WorkbenchDestination::SourceControl => Some(
                (string_of("Source Control"), string_of("Review and stage changes.")),
            ),
            WorkbenchDestination::Debug => Some(
                (string_of("Run & Debug"), string_of("Launch and inspect debug sessions.")),
            ),
            WorkbenchDestination::Account => Some(
                (string_of("Account"), string_of("Sign in to sync settings and extensions.")),
            ),
            _ => None,
        }
    }
}

/// Rail index and destination are inverse: every destination is selected by
/// its own rail index.
pub proof fn law_rail_index_round_trip(d: WorkbenchDestination)
    ensures
        from_rail_index_spec(rail_index_spec(d)) == d,
        rail_index_spec(d) < 7,
{
}

/// Every rail index below 7 names a destination whose rail index it is; any
/// other index falls back to the Explorer.
pub proof fn law_from_rail_index_total(i: usize)
    ensures
        i < 7 ==> rail_index_spec(from_rail_index_spec(i)) == i,
        i >= 7 ==> from_rail_index_spec(i) == WorkbenchDestination::Explorer,
{
}

/// Identity of a workbench tab.
#[derive(Debug, Hash)]
pub enum WorkbenchTabId {
    /// The file editor identity.
    Editor,
    /// A specific opened file, identified by its stable buffer id.
    FileBuffer(String),
    /// A destination landing/root tab.
    DestinationRoot(WorkbenchDestination),
    /// A specific Settings category page (index into the settings sections).
    SettingsSection(usize),
    /// A specific extension detail page (by extension id).
    ExtensionDetail(String),
    /// Welcome screen shown when nothing else is open.
    Welcome,
}

/// Value of a [`WorkbenchTabId`].
pub enum TabKey {
    Editor,
    FileBuffer(Seq<char>),
    DestinationRoot(WorkbenchDestination),
    SettingsSection(usize),
    ExtensionDetail(Seq<char>),
    Welcome,
}

impl View for WorkbenchTabId {
    type V = TabKey;

    open spec fn view(&self) -> TabKey {
        match self {
            WorkbenchTabId::Editor => TabKey::Editor,
            WorkbenchTabId::FileBuffer(b) => TabKey::FileBuffer(b@),
            WorkbenchTabId::DestinationRoot(d) => TabKey::DestinationRoot(*d),
            WorkbenchTabId::SettingsSection(i) => TabKey::SettingsSection(*i),
            WorkbenchTabId::ExtensionDetail(e) => TabKey::ExtensionDetail(e@),
            WorkbenchTabId::Welcome => TabKey::Welcome,
        }
    }
}

impl PartialEq for WorkbenchTabId {
    fn eq(&self, other: &Self) -> (r: bool) {
        match (self, other) {
            (WorkbenchTabId::Editor, WorkbenchTabId::Editor) => true,
            (WorkbenchTabId::FileBuffer(a), WorkbenchTabId::FileBuffer(b)) => a.eq(b),
            (WorkbenchTabId::DestinationRoot(a), WorkbenchTabId::DestinationRoot(b)) => *a == *b,
            (WorkbenchTabId::SettingsSection(a), WorkbenchTabId::SettingsSection(b)) => *a == *b,
            (WorkbenchTabId::ExtensionDetail(a), WorkbenchTabId::ExtensionDetail(b)) => a.eq(b),
            (WorkbenchTabId::Welcome, WorkbenchTabId::Welcome) => true,
            _ => false,
        }
    }
}

impl vstd::std_specs::cmp::PartialEqSpecImpl for WorkbenchTabId {
    open spec fn obeys_eq_spec() -> bool {
        true
    }

    open spec fn eq_spec(&self, other: &Self) -> bool {
        self@ == other@
    }
}

impl Eq for WorkbenchTabId {
}

impl Clone for WorkbenchTabId {
    fn clone(&self) -> (r: Self)
        ensures
            r@ == self@,
    {
        match self {
            WorkbenchTabId::Editor => WorkbenchTabId::Editor,
            WorkbenchTabId::FileBuffer(b) => WorkbenchTabId::FileBuffer(b.clone()),
            WorkbenchTabId::DestinationRoot(d) => WorkbenchTabId::DestinationRoot(*d),
            WorkbenchTabId::SettingsSection(i) => WorkbenchTabId::SettingsSection(*i),
            WorkbenchTabId::ExtensionDetail(e) => WorkbenchTabId::ExtensionDetail(e.clone()),
            WorkbenchTabId::Welcome => WorkbenchTabId::Welcome,
        }
    }
}

pub open spec fn key_destination(k: TabKey) -> WorkbenchDestination {
    match k {
        TabKey::Editor | TabKey::FileBuffer(_) | TabKey::Welcome => WorkbenchDestination::Explorer,
        TabKey::DestinationRoot(d) => d,
        TabKey::SettingsSection(_) => WorkbenchDestination::Settings,
        TabKey::ExtensionDetail(_) => WorkbenchDestination::Extensions,
    }
}

/// Editor-mode identities: the editor sentinel and the Explorer root.
pub open spec fn key_is_editor(k: TabKey) -> bool {
    k == TabKey::Editor || k == TabKey::DestinationRoot(WorkbenchDestination::Explorer)
}

pub open spec fn key_is_file_buffer(k: TabKey) -> bool {
    k is FileBuffer
}

impl WorkbenchTabId {
    /// The workbench area this tab belongs to — drives the sidebar + rail.
    pub fn destination(&self) -> (d: WorkbenchDestination)
        ensures
            d == key_destination(self@),
    {
        match self {
            WorkbenchTabId::Editor | WorkbenchTabId::FileBuffer(_) | WorkbenchTabId::Welcome => {
                WorkbenchDestination::Explorer
            },
            WorkbenchTabId::DestinationRoot(d) => *d,
            WorkbenchTabId::SettingsSection(_) => WorkbenchDestination::Settings,
            WorkbenchTabId::ExtensionDetail(_) => WorkbenchDestination::Extensions,
        }
    }

    /// Whether this tab shows the file editor (vs a cockpit destination page).
    pub fn is_editor(&self) -> (b: bool)
        ensures
            b == key_is_editor(self@),
    {
        match self {
            WorkbenchTabId::Editor => true,
            WorkbenchTabId::DestinationRoot(WorkbenchDestination::Explorer) => true,
            _ => false,
        }
    }

    /// Whether this is a concrete opened-file tab identity.
    pub fn is_file_buffer(&self) -> (b: bool)
        ensures
            b == key_is_file_buffer(self@),
    {
        match self {
            WorkbenchTabId::FileBuffer(_) => true,
            _ => false,
        }
    }
}

// ---------------------------------------------------------------------------
// Extension and settings catalogue.

/// An extension shown by the Extensions destination.
#[derive(Debug, Clone)]
pub struct ExtensionEntry {
    pub id: String,
    pub name: String,
    pub publisher: String,
    pub description: String,
    pub installed: bool,
}

/// Kind of a settings row, driving how its value is rendered.
#[derive(Debug, Clone)]
pub enum SettingsRowKind {
    Theme,
    Font,
    Toggle { on: bool },
    Label { value: String },
    Select { value: String, options: Vec<String> },
}

/// One row of a settings section.
#[derive(Debug, Clone)]
pub struct SettingsRow {
    pub label: String,
    pub description: String,
    pub kind: SettingsRowKind,
}

/// A settings category.
#[derive(Debug, Clone)]
pub struct SettingsSection {
    pub label: String,
    pub items: Vec<SettingsRow>,
}

pub open spec fn ext_ids() -> Seq<Seq<char>> {
    seq!["zaroxi.formatter"@, "zaroxi.lsp-client"@, "community.themes"@, "zaroxi.git"@]
}

pub open spec fn ext_names() -> Seq<Seq<char>> {
    seq!["Zaroxi Formatter"@, "LSP Client"@, "Community Themes"@, "Git Integration"@]
}

pub open spec fn ext_publishers() -> Seq<Seq<char>> {
    seq!["Zaroxi Team"@, "Zaroxi Team"@, "Community"@, "Zaroxi Team"@]
}

pub open spec fn ext_descriptions() -> Seq<Seq<char>> {
    seq![
        "Code formatting for Rust, TOML, JSON, and more."@,
        "Language Server Protocol client for Rust, TypeScript, Python."@,
        "A collection of popular color themes."@,
        "Inline blame, diff gutters, and commit tooling."@,
    ]
}

pub open spec fn ext_installed() -> Seq<bool> {
    seq![true, true, false, false]
}

pub open spec fn section_labels() -> Seq<Seq<char>> {
    seq!["General"@, "Privacy"@, "Editor"@, "Appearance"@, "Keybindings"@]
}

/// `(label, description)` of every row of every settings section.
pub open spec fn section_rows() -> Seq<Seq<(Seq<char>, Seq<char>)>> {
    seq![
        seq![
            ("Color Theme"@, "Choose the editor color theme"@),
            ("Editor Font"@, "Monospace font for editor and UI text"@),
        ],
        seq![("Telemetry"@, "Send anonymous usage data to improve Zaroxi"@)],
        seq![("Tab Size"@, "Spaces per tab"@), ("Word Wrap"@, "Wrap long lines to the viewport"@)],
        seq![
            ("Font Size"@, "Default editor font size in pixels"@),
            ("Minimap"@, "Show the semantic minimap"@),
        ],
        seq![("Scheme"@, "Keyboard shortcut scheme"@)],
    ]
}

fn extension(id: &str, name: &str, publisher: &str, description: &str, installed: bool) -> (e:
    ExtensionEntry)
    ensures
        e.id@ == id@,
        e.name@ == name@,
        e.publisher@ == publisher@,
        e.description@ == description@,
        e.installed == installed,
{
    ExtensionEntry {
        id: string_of(id),
        name: string_of(name),
        publisher: string_of(publisher),
        description: string_of(description),
        installed,
    }
}

/// The extension catalogue.
pub fn extension_entries() -> (v: Vec<ExtensionEntry>)
    ensures
        v@.len() == 4,
        forall|i: int|
            #![trigger v@[i]]
            0 <= i < 4 ==> {
                &&& v@[i].id@ == ext_ids()[i]
                &&& v@[i].name@ == ext_names()[i]
                &&& v@[i].publisher@ == ext_publishers()[i]
                &&& v@[i].description@ == ext_descriptions()[i]
                &&& v@[i].installed == ext_installed()[i]
            },
{
    let mut v: Vec<ExtensionEntry> = Vec::new();
    v.push(
        extension(
            "zaroxi.formatter",
            "Zaroxi Formatter",
            "Zaroxi Team",
            "Code formatting for Rust, TOML, JSON, and more.",
            true,
        ),
    );
    v.push(
        extension(
            "zaroxi.lsp-client",
            "LSP Client",
            "Zaroxi Team",
            "Language Server Protocol client for Rust, TypeScript, Python.",
            true,
        ),
    );
    v.push(
        extension(
            "community.themes",
            "Community Themes",
            "Community",
            "A collection of popular color themes.",
            false,
        ),
    );
    v.push(
        extension(
            "zaroxi.git",
            "Git Integration",
            "Zaroxi Team",
            "Inline blame, diff gutters, and commit tooling.",
            false,
        ),
    );
    v
}

fn row(label: &str, description: &str, kind: SettingsRowKind) -> (r: SettingsRow)
    ensures
        r.label@ == label@,
        r.description@ == description@,
        r.kind == kind,
{
    SettingsRow { label: string_of(label), description: string_of(description), kind }
}

/// Settings row kinds: theme picker, font picker, toggles, labelled values and
/// a select — checked against the rendered values below.
pub open spec fn row_kind_matches(k: SettingsRowKind, section: int, item: int) -> bool {
    if section == 0 && item == 0 {
        k is Theme
    } else if section == 0 && item == 1 {
        k is Font
    } else if section == 1 && item == 0 {
        k == SettingsRowKind::Toggle { on: false }
    } else if section == 2 && item == 0 {
        k matches SettingsRowKind::Label { value } && value@ == "4"@
    } else if section == 2 && item == 1 {
        k == SettingsRowKind::Toggle { on: false }
    } else if section == 3 && item == 0 {
        k matches SettingsRowKind::Label { value } && value@ == "13 px"@
    } else if section == 3 && item == 1 {
        k == SettingsRowKind::Toggle { on: true }
    } else {
        k matches SettingsRowKind::Select { value, options } && value@ == "Default"@
            && strings_view(options@) == seq!["Default"@, "Vim"@]
    }
}

/// The settings sections shown by the Settings destination.
pub fn settings_sections() -> (v: Vec<SettingsSection>)
    ensures
        v@.len() == 5,
        forall|i: int|
            #![trigger v@[i]]
            0 <= i < 5 ==> {
                &&& v@[i].label@ == section_labels()[i]
                &&& v@[i].items@.len() == section_rows()[i].len()
                &&& forall|j: int|
                    0 <= j < v@[i].items@.len() ==> {
                        &&& (#[trigger] v@[i].items@[j]).label@ == section_rows()[i][j].0
                        &&& v@[i].items@[j].description@ == section_rows()[i][j].1
                        &&& row_kind_matches(v@[i].items@[j].kind, i, j)
                    }
            },
{
    let mut v: Vec<SettingsSection> = Vec::new();
    let mut general: Vec<SettingsRow> = Vec::new();
    general.push(row("Color Theme", "Choose the editor color theme", SettingsRowKind::Theme));
    general.push(row("Editor Font", "Monospace font for editor and UI text", SettingsRowKind::Font));
    v.push(SettingsSection { label: string_of("General"), items: general });
    let mut privacy: Vec<SettingsRow> = Vec::new();
    privacy.push(
        row(
            "Telemetry",
            "Send anonymous usage data to improve Zaroxi",
            SettingsRowKind::Toggle { on: false },
        ),
    );
    v.push(SettingsSection { label: string_of("Privacy"), items: privacy });
    let mut editor: Vec<SettingsRow> = Vec::new();
    editor.push(row("Tab Size", "Spaces per tab", SettingsRowKind::Label { value: string_of("4") }));
    editor.push(
        row("Word Wrap", "Wrap long lines to the viewport", SettingsRowKind::Toggle { on: false }),
    );
    v.push(SettingsSection { label: string_of("Editor"), items: editor });
    let mut appearance: Vec<SettingsRow> = Vec::new();
    appearance.push(
        row(
            "Font Size",
            "Default editor font size in pixels",
            SettingsRowKind::Label { value: string_of("13 px") },
        ),
    );
    appearance.push(
        row("Minimap", "Show the semantic minimap", SettingsRowKind::Toggle { on: true }),
    );
    v.push(SettingsSection { label: string_of("Appearance"), items: appearance });
    let mut options: Vec<String> = Vec::new();
    options.push(string_of("Default"));
    options.push(string_of("Vim"));
    let ghost ov = strings_view(options@);
    assert(ov =~= seq!["Default"@, "Vim"@]);
    let mut keys: Vec<SettingsRow> = Vec::new();
    keys.push(
        row(
            "Scheme",
            "Keyboard shortcut scheme",
            SettingsRowKind::Select { value: string_of("Default"), options },
        ),
    );
    v.push(SettingsSection { label: string_of("Keybindings"), items: keys });
    v
}


// ---------------------------------------------------------------------------
// Tab titles and entries.

/// Index of the catalogue extension with id `e`.
pub open spec fn ext_index(e: Seq<char>) -> Option<int> {
    if e == ext_ids()[0] {
        Some(0int)
    } else if e == ext_ids()[1] {
        Some(1int)
    } else if e == ext_ids()[2] {
        Some(2int)
    } else if e == ext_ids()[3] {
        Some(3int)
    } else {
        None
    }
}

/// Title for a tab identity.
pub open spec fn tab_title_spec(k: TabKey) -> Seq<char> {
    match k {
        TabKey::Editor => "Editor"@,
        TabKey::Welcome => "Welcome"@,
        TabKey::FileBuffer(b) => "File "@ + b,
        TabKey::DestinationRoot(d) => destination_title_spec(d),
        TabKey::SettingsSection(i) => "Settings: "@ + if i < 5 {
            section_labels()[i as int]
        } else {
            "Settings"@
        },
        TabKey::ExtensionDetail(e) => match ext_index(e) {
            Some(j) => ext_names()[j],
            None => "Extension"@,
        },
    }
}

/// Position of the catalogue extension with id `id`, if any.
fn find_extension(entries: &Vec<ExtensionEntry>, id: &String) -> (r: Option<usize>)
    requires
        entries@.len() == 4,
        forall|i: int| #![trigger entries@[i]] 0 <= i < 4 ==> entries@[i].id@ == ext_ids()[i],
    ensures
        match r {
            Some(j) => ext_index(id@) == Some(j as int),
            None => ext_index(id@) is None,
        },
{
    let mut i: usize = 0;
    while i < entries.len()
        invariant
            entries@.len() == 4,
            forall|k: int| #![trigger entries@[k]] 0 <= k < 4 ==> entries@[k].id@ == ext_ids()[k],
            i <= 4,
            forall|k: int| 0 <= k < i ==> ext_ids()[k] != id@,
        decreases entries.len() - i,
    {
        if entries[i].id == *id {
            proof {
                assert(entries@[i as int].id@ == ext_ids()[i as int]);
            }
            return Some(i);
        }
        proof {
            assert(entries@[i as int].id@ == ext_ids()[i as int]);
        }
        i = i + 1;
    }
    None
}

/// Title for a non-file tab id (used when opening a tab).
pub fn tab_title(id: &WorkbenchTabId) -> (t: String)
    ensures
        t@ == tab_title_spec(id@),
{
    match id {
        WorkbenchTabId::Editor => string_of("Editor"),
        WorkbenchTabId::Welcome => string_of("Welcome"),
        WorkbenchTabId::FileBuffer(bid) => {
            let mut v: Vec<char> = Vec::new();
            push_str(&mut v, "File ");
            push_str(&mut v, bid.as_str());
            string_from_chars(v.as_slice())
        },
        WorkbenchTabId::DestinationRoot(d) => string_of(d.title()),
        WorkbenchTabId::SettingsSection(i) => {
            let sections = settings_sections();
            let mut v: Vec<char> = Vec::new();
            push_str(&mut v, "Settings: ");
            if *i < sections.len() {
                proof {
                    assert(sections@[*i as int].label@ == section_labels()[*i as int]);
                }
                push_str(&mut v, sections[*i].label.as_str());
            } else {
                push_str(&mut v, "Settings");
            }
            string_from_chars(v.as_slice())
        },
        WorkbenchTabId::ExtensionDetail(ext_id) => {
            let entries = extension_entries();
            match find_extension(&entries, ext_id) {
                Some(j) => {
                    proof {
                        assert(entries@[j as int].name@ == ext_names()[j as int]);
                    }
                    entries[j].name.clone()
                },
                None => string_of("Extension"),
            }
        },
    }
}

/// An open non-file workbench tab.
#[derive(Debug)]
pub struct WorkbenchTab {
    /// Stable identity (used for focus + dedup).
    pub id: WorkbenchTabId,
    /// Visible tab label.
    pub title: String,
}

/// A canonical entry in the workbench tab strip — a file buffer tab or a
/// non-file workbench tab.
#[derive(Debug)]
pub enum WorkbenchTabEntry {
    File { buffer_id: String, title: String, is_active_buffer: bool },
    NonFile { id: WorkbenchTabId, title: String },
}

/// Value of a [`WorkbenchTabEntry`].
pub enum EntryView {
    File { buffer_id: Seq<char>, title: Seq<char>, is_active_buffer: bool },
    NonFile { id: TabKey, title: Seq<char> },
}

impl View for WorkbenchTabEntry {
    type V = EntryView;

    open spec fn view(&self) -> EntryView {
        match self {
            WorkbenchTabEntry::File { buffer_id, title, is_active_buffer } => EntryView::File {
                buffer_id: buffer_id@,
                title: title@,
                is_active_buffer: *is_active_buffer,
            },
            WorkbenchTabEntry::NonFile { id, title } => EntryView::NonFile { id: id@, title: title@ },
        }
    }
}

impl Clone for WorkbenchTabEntry {
    fn clone(&self) -> (r: Self)
        ensures
            r@ == self@,
    {
        match self {
            WorkbenchTabEntry::File { buffer_id, title, is_active_buffer } => WorkbenchTabEntry::File {
                buffer_id: buffer_id.clone(),
                title: title.clone(),
                is_active_buffer: *is_active_buffer,
            },
            WorkbenchTabEntry::NonFile { id, title } => WorkbenchTabEntry::NonFile {
                id: id.clone(),
                title: title.clone(),
            },
        }
    }
}

/// Stable identity of an entry: file entries are identified by their buffer.
pub open spec fn entry_key(e: EntryView) -> TabKey {
    match e {
        EntryView::File { buffer_id, .. } => TabKey::FileBuffer(buffer_id),
        EntryView::NonFile { id, .. } => id,
    }
}

pub open spec fn entry_title(e: EntryView) -> Seq<char> {
    match e {
        EntryView::File { title, .. } => title,
        EntryView::NonFile { title, .. } => title,
    }
}

impl WorkbenchTabEntry {
    /// The stable identity of this entry.
    pub fn stable_id(&self) -> (id: WorkbenchTabId)
        ensures
            id@ == entry_key(self@),
    {
        match self {
            WorkbenchTabEntry::File { buffer_id, .. } => WorkbenchTabId::FileBuffer(buffer_id.clone()),
            WorkbenchTabEntry::NonFile { id, .. } => id.clone(),
        }
    }

    /// The visible label.
    pub fn title(&self) -> (t: &str)
        ensures
            t@ == entry_title(self@),
    {
        match self {
            WorkbenchTabEntry::File { title, .. } => title.as_str(),
            WorkbenchTabEntry::NonFile { title, .. } => title.as_str(),
        }
    }

    /// Whether the entry shows a close button: every entry but the Welcome
    /// screen, which is not closable.
    pub fn closable(&self) -> (b: bool)
        ensures
            b == !(self@ matches EntryView::NonFile { id: TabKey::Welcome, .. }),
    {
        match self {
            WorkbenchTabEntry::NonFile { id: WorkbenchTabId::Welcome, .. } => false,
            _ => true,
        }
    }

    /// Whether this is a file-buffer entry.
    pub fn is_file(&self) -> (b: bool)
        ensures
            b == (self@ is File),
    {
        match self {
            WorkbenchTabEntry::File { .. } => true,
            WorkbenchTabEntry::NonFile { .. } => false,
        }
    }
}

// ---------------------------------------------------------------------------
// Sidebar rows.

/// One row in a destination's sidebar list.
#[derive(Debug, Clone)]
pub struct DestSidebarRow {
    /// Primary label (extension name, settings category, etc.).
    pub label: String,
    /// Trailing badge / hint (e.g. "Installed", "Available", or empty).
    pub secondary: String,
    /// Whether this row is the active selection.
    pub selected: bool,
    /// Whether clicking this row changes the active selection.
    pub selectable: bool,
}

pub open spec fn row_view(r: DestSidebarRow) -> (Seq<char>, Seq<char>, bool, bool) {
    (r.label@, r.secondary@, r.selected, r.selectable)
}

pub open spec fn rows_view(v: Seq<DestSidebarRow>) -> Seq<(Seq<char>, Seq<char>, bool, bool)> {
    v.map_values(|r: DestSidebarRow| row_view(r))
}

impl DestSidebarRow {
    pub fn new(label: &str, secondary: &str, selected: bool, selectable: bool) -> (r: Self)
        ensures
            row_view(r) == (label@, secondary@, selected, selectable),
    {
        DestSidebarRow {
            label: string_of(label),
            secondary: string_of(secondary),
            selected,
            selectable,
        }
    }
}

pub open spec fn fixed_row(label: Seq<char>, secondary: Seq<char>) -> (Seq<char>, Seq<char>, bool, bool) {
    (label, secondary, false, false)
}

/// The sidebar rows of a destination: the extension catalogue (badged
/// installed/available) or the settings sections as selectable rows marking
/// the selected index, decorative facets for the placeholder destinations,
/// and nothing for the Explorer.
pub open spec fn sidebar_rows_spec(
    dest: WorkbenchDestination,
    ext_sel: Option<usize>,
    set_sel: Option<usize>,
) -> Seq<(Seq<char>, Seq<char>, bool, bool)> {
    match dest {
        WorkbenchDestination::Explorer => Seq::empty(),
        WorkbenchDestination::Extensions => Seq::new(
            4,
            |i: int|
                (
                    ext_names()[i],
                    if ext_installed()[i] {
                        "Installed"@
                    } else {
                        "Available"@
                    },
                    ext_sel == Some(i as usize),
                    true,
                ),
        ),
        WorkbenchDestination::Settings => Seq::new(
            5,
            |i: int| (section_labels()[i], ""@, set_sel == Some(i as usize), true),
        ),
        WorkbenchDestination::Search => seq![
            fixed_row("Match Case"@, "Aa"@),
            fixed_row("Whole Word"@, "ab"@),
            fixed_row("Use Regex"@, ".*"@),
        ],
        WorkbenchDestination::SourceControl => seq![
            fixed_row("Changes"@, "0"@),
            fixed_row("Staged Changes"@, "0"@),
            fixed_row("Commits"@, ""@),
        ],
        WorkbenchDestination::Debug => seq![
            fixed_row("Run and Debug"@, ""@),
            fixed_row("Breakpoints"@, "0"@),
            fixed_row("Watch"@, ""@),
        ],
        WorkbenchDestination::Account => seq![
            fixed_row("Sign In"@, ""@),
            fixed_row("Profile"@, ""@),
            fixed_row("Sync Settings"@, "Off"@),
        ],
    }
}

fn fixed_rows(a: (&str, &str), b: (&str, &str), c: (&str, &str)) -> (v: Vec<DestSidebarRow>)
    ensures
        rows_view(v@) == seq![fixed_row(a.0@, a.1@), fixed_row(b.0@, b.1@), fixed_row(c.0@, c.1@)],
{
    let mut v: Vec<DestSidebarRow> = Vec::new();
    v.push(DestSidebarRow::new(a.0, a.1, false, false));
    v.push(DestSidebarRow::new(b.0, b.1, false, false));
    v.push(DestSidebarRow::new(c.0, c.1, false, false));
    proof {
        assert(rows_view(v@) =~= seq![fixed_row(a.0@, a.1@), fixed_row(b.0@, b.1@), fixed_row(c.0@, c.1@)]);
    }
    v
}

/// Build the destination's sidebar rows.
pub fn sidebar_rows(
    dest: WorkbenchDestination,
    extensions_selected: Option<usize>,
    settings_selected: Option<usize>,
) -> (rows: Vec<DestSidebarRow>)
    ensures
        rows_view(rows@) == sidebar_rows_spec(dest, extensions_selected, settings_selected),
{
    match dest {
        WorkbenchDestination::Explorer => {
            let v: Vec<DestSidebarRow> = Vec::new();
            proof {
                assert(rows_view(v@) =~= sidebar_rows_spec(dest, extensions_selected, settings_selected));
            }
            v
        },
        WorkbenchDestination::Extensions => {
            let entries = extension_entries();
            let mut v: Vec<DestSidebarRow> = Vec::new();
            let mut i: usize = 0;
            while i < entries.len()
                invariant
                    entries@.len() == 4,
                    forall|k: int|
                        #![trigger entries@[k]]
                        0 <= k < 4 ==> {
                            &&& entries@[k].name@ == ext_names()[k]
                            &&& entries@[k].installed == ext_installed()[k]
                        },
                    i <= 4,
                    rows_view(v@) == sidebar_rows_spec(dest, extensions_selected, settings_selected).take(i as int),
                    dest == WorkbenchDestination::Extensions,
                decreases entries.len() - i,
            {
                let e = &entries[i];
                assert(e.name@ == ext_names()[i as int]);
                let badge = if e.installed {
                    "Installed"
                } else {
                    "Available"
                };
                let selected = match extensions_selected {
                    Some(s) => s == i,
                    None => false,
                };
                let ghost before = rows_view(v@);
                v.push(DestSidebarRow::new(e.name.as_str(), badge, selected, true));
                proof {
                    assert(rows_view(v@) =~= before.push(row_view(v@[i as int])));
                    assert(rows_view(v@) =~= sidebar_rows_spec(dest, extensions_selected, settings_selected).take(i + 1));
                }
                i = i + 1;
            }
            proof {
                assert(sidebar_rows_spec(dest, extensions_selected, settings_selected).take(4) =~= sidebar_rows_spec(dest, extensions_selected, settings_selected));
            }
            v
        },
        WorkbenchDestination::Settings => {
            let sections = settings_sections();
            let mut v: Vec<DestSidebarRow> = Vec::new();
            let mut i: usize = 0;
            while i < sections.len()
                invariant
                    sections@.len() == 5,
                    forall|k: int| #![trigger sections@[k]] 0 <= k < 5 ==> sections@[k].label@ == section_labels()[k],
                    i <= 5,
                    rows_view(v@) == sidebar_rows_spec(dest, extensions_selected, settings_selected).take(i as int),
                    dest == WorkbenchDestination::Settings,
                decreases sections.len() - i,
            {
                assert(sections@[i as int].label@ == section_labels()[i as int]);
                let selected = match settings_selected {
                    Some(s) => s == i,
                    None => false,
                };
                let ghost before = rows_view(v@);
                v.push(DestSidebarRow::new(sections[i].label.as_str(), "", selected, true));
                proof {
                    assert(rows_view(v@) =~= before.push(row_view(v@[i as int])));
                    assert(rows_view(v@) =~= sidebar_rows_spec(dest, extensions_selected, settings_selected).take(i + 1));
                }
                i = i + 1;
            }
            proof {
                assert(sidebar_rows_spec(dest, extensions_selected, settings_selected).take(5) =~= sidebar_rows_spec(dest, extensions_selected, settings_selected));
            }
            v
        },
        WorkbenchDestination::Search => fixed_rows(("Match Case", "Aa"), ("Whole Word", "ab"), ("Use Regex", ".*")),
        WorkbenchDestination::SourceControl => fixed_rows(("Changes", "0"), ("Staged Changes", "0"), ("Commits", "")),
        WorkbenchDestination::Debug => fixed_rows(("Run and Debug", ""), ("Breakpoints", "0"), ("Watch", "")),
        WorkbenchDestination::Account => fixed_rows(("Sign In", ""), ("Profile", ""), ("Sync Settings", "Off")),
    }
}

/// Sidebar selection highlight `(extensions_selected, settings_selected)`
/// derived from the active tab.
pub open spec fn sidebar_selection_spec(k: TabKey) -> (Option<int>, Option<int>) {
    match k {
        TabKey::ExtensionDetail(e) => (ext_index(e), None),
        TabKey::SettingsSection(i) => (None, Some(i as int)),
        _ => (None, None),
    }
}

pub open spec fn opt_usize_view(o: Option<usize>) -> Option<int> {
    match o {
        Some(x) => Some(x as int),
        None => None,
    }
}

pub fn sidebar_selection_for(active: &WorkbenchTabId) -> (r: (Option<usize>, Option<usize>))
    ensures
        (opt_usize_view(r.0), opt_usize_view(r.1)) == sidebar_selection_spec(active@),
{
    match active {
        WorkbenchTabId::ExtensionDetail(id) => {
            let entries = extension_entries();
            (find_extension(&entries, id), None)
        },
        WorkbenchTabId::SettingsSection(i) => (None, Some(*i)),
        _ => (None, None),
    }
}

/// Cockpit destination pages for the active tab:
/// `(settings_panel, extensions_panel, placeholder_panel)`. At most one is
/// present; none for the editor and the welcome page.
pub fn cockpit_panels_for(active: &WorkbenchTabId) -> (r: (
    Option<(Vec<SettingsSection>, usize)>,
    Option<(Vec<ExtensionEntry>, usize)>,
    Option<(String, String)>,
))
    ensures
        match active@ {
            TabKey::Editor | TabKey::FileBuffer(_) | TabKey::Welcome => r.0 is None && r.1 is None
                && r.2 is None,
            TabKey::SettingsSection(i) => r.1 is None && r.2 is None && (r.0 matches Some(
                (v, sel),
            ) && v@.len() == 5 && sel == if i < 4 {
                i
            } else {
                4
            }),
            TabKey::DestinationRoot(WorkbenchDestination::Settings) => r.1 is None && r.2 is None
                && (r.0 matches Some((v, sel)) && v@.len() == 5 && sel == 0),
            TabKey::ExtensionDetail(e) => r.0 is None && r.2 is None && (r.1 matches Some((v, sel))
                && v@.len() == 4 && sel == match ext_index(e) {
                Some(j) => j,
                None => 0,
            }),
            TabKey::DestinationRoot(WorkbenchDestination::Extensions) => r.0 is None && r.2 is None
                && (r.1 matches Some((v, sel)) && v@.len() == 4 && sel == 0),
            TabKey::DestinationRoot(d) => r.0 is None && r.1 is None && match r.2 {
                Some((t, s)) => placeholder_spec(d) == Some((t@, s@)),
                None => placeholder_spec(d) is None,
            },
        },
{
    match active {
        WorkbenchTabId::Editor | WorkbenchTabId::FileBuffer(_) | WorkbenchTabId::Welcome => {
            (None, None, None)
        },
        WorkbenchTabId::SettingsSection(i) => {
            let sections = settings_sections();
            let last = sections.len() - 1;
            let sel = if *i < last {
                *i
            } else {
                last
            };
            (Some((sections, sel)), None, None)
        },
        WorkbenchTabId::DestinationRoot(WorkbenchDestination::Settings) => {
            (Some((settings_sections(), 0)), None, None)
        },
        WorkbenchTabId::ExtensionDetail(id) => {
            let entries = extension_entries();
            let sel = match find_extension(&entries, id) {
                Some(j) => j,
                None => 0,
            };
            (None, Some((entries, sel)), None)
        },
        WorkbenchTabId::DestinationRoot(WorkbenchDestination::Extensions) => {
            (None, Some((extension_entries(), 0)), None)
        },
        WorkbenchTabId::DestinationRoot(d) => (None, None, d.placeholder()),
    }
}


// ---------------------------------------------------------------------------
// File tab labels.

/// What `std::path::Path::file_name` gives for a path (as text).
pub uninterp spec fn path_file_name(p: Seq<char>) -> Option<Seq<char>>;

/// What `std::path::Path::parent` gives for a path (as text).
pub uninterp spec fn path_parent(p: Seq<char>) -> Option<Seq<char>>;

pub open spec fn opt_view(o: Option<String>) -> Option<Seq<char>> {
    match o {
        Some(s) => Some(s@),
        None => None,
    }
}

/// Calls `std::path::Path::file_name` and converts the name to a `String`;
/// the result is the named value `path_file_name` of the path. What the name
/// is for a given path (component parsing, `..`, trailing separators) is left
/// to std and not stated here.
#[verifier::external_body]
pub(crate) fn file_name_of(path: &str) -> (r: Option<String>)
    ensures
        opt_view(r) == path_file_name(path@),
{
    std::path::Path::new(path).file_name().and_then(|n| n.to_str()).map(|s| s.to_string())
}

/// Calls `std::path::Path::parent` and converts it to a `String`; the result
/// is the named value `path_parent` of the path, left to std like
/// `file_name_of`.
#[verifier::external_body]
fn parent_of(path: &str) -> (r: Option<String>)
    ensures
        opt_view(r) == path_parent(path@),
{
    std::path::Path::new(path).parent().and_then(|p| p.to_str()).map(|s| s.to_string())
}

/// Number of entries of `names` equal to `Some(b)`.
pub open spec fn count_name(names: Seq<Option<Seq<char>>>, b: Seq<char>) -> int
    decreases names.len(),
{
    if names.len() == 0 {
        0
    } else {
        count_name(names.drop_last(), b) + if names.last() == Some(b) { 1int } else { 0int }
    }
}

/// Label of a file tab given the path's file name, the file names of all
/// open paths and the file name of the path's parent: a path without any
/// separator is shown as is; a unique base name alone; a shared one with its
/// parent directory (or `..`) in front.
pub open spec fn tab_label_from_names(
    path: Seq<char>,
    name: Option<Seq<char>>,
    sibling_names: Seq<Option<Seq<char>>>,
    parent_name: Option<Seq<char>>,
) -> Seq<char> {
    if !path.contains('/') && !path.contains('\\') {
        path
    } else {
        let basename = match name {
            Some(n) => n,
            None => path,
        };
        if count_name(sibling_names, basename) <= 1 {
            basename
        } else {
            let parent = match parent_name {
                Some(p) => p,
                None => Seq::empty(),
            };
            if parent.len() == 0 {
                "../"@ + basename
            } else {
                parent + "/"@ + basename
            }
        }
    }
}

/// File name of the parent of `p`, as named results.
pub open spec fn parent_file_name(p: Seq<char>) -> Option<Seq<char>> {
    match path_parent(p) {
        Some(q) => path_file_name(q),
        None => None,
    }
}

/// Label of the file tab for `path` among `all_paths`.
pub open spec fn file_tab_label_spec(path: Seq<char>, all_paths: Seq<Seq<char>>) -> Seq<char> {
    tab_label_from_names(
        path,
        path_file_name(path),
        all_paths.map_values(|p: Seq<char>| path_file_name(p)),
        parent_file_name(path),
    )
}

fn contains_char(v: &[char], c: char) -> (b: bool)
    ensures
        b == v@.contains(c),
{
    let mut i: usize = 0;
    while i < v.len()
        invariant
            i <= v@.len(),
            forall|j: int| 0 <= j < i ==> v@[j] != c,
        decreases v.len() - i,
    {
        if v[i] == c {
            proof {
                assert(v@[i as int] == c);
            }
            return true;
        }
        i = i + 1;
    }
    false
}

/// Compose a file tab label from the file names std reported: `name` of the
/// path, `sibling_names` of every open path, and `parent_name` of the path's
/// parent.
pub fn compose_file_tab_label(
    path: &str,
    name: Option<String>,
    sibling_names: &Vec<Option<String>>,
    parent_name: Option<String>,
) -> (r: String)
    ensures
        r@ == tab_label_from_names(
            path@,
            opt_view(name),
            sibling_names@.map_values(|o: Option<String>| opt_view(o)),
            opt_view(parent_name),
        ),
{
    let pv = chars_of(path);
    if !contains_char(pv.as_slice(), '/') && !contains_char(pv.as_slice(), '\\') {
        return string_from_chars(pv.as_slice());
    }
    let basename = match name {
        Some(n) => chars_of(n.as_str()),
        None => pv,
    };
    let ghost names = sibling_names@.map_values(|o: Option<String>| opt_view(o));
    let mut count: usize = 0;
    let mut i: usize = 0;
    while i < sibling_names.len()
        invariant
            names == sibling_names@.map_values(|o: Option<String>| opt_view(o)),
            i <= sibling_names@.len(),
            count as int == count_name(names.take(i as int), basename@),
            count <= i,
        decreases sibling_names.len() - i,
    {
        proof {
            assert(names.take(i + 1).drop_last() =~= names.take(i as int));
            assert(names.take(i + 1).last() == opt_view(sibling_names@[i as int]));
        }
        match &sibling_names[i] {
            Some(n) => {
                let nv = chars_of(n.as_str());
                if chars_eq(nv.as_slice(), basename.as_slice()) {
                    count = count + 1;
                }
            },
            None => {},
        }
        i = i + 1;
    }
    proof {
        assert(names.take(i as int) =~= names);
    }
    if count <= 1 {
        return string_from_chars(basename.as_slice());
    }
    let parent = match parent_name {
        Some(p) => chars_of(p.as_str()),
        None => Vec::new(),
    };
    let mut out: Vec<char> = Vec::new();
    if parent.len() == 0 {
        push_str(&mut out, "../");
    } else {
        let mut k: usize = 0;
        while k < parent.len()
            invariant
                k <= parent@.len(),
                out@ == parent@.take(k as int),
            decreases parent.len() - k,
        {
            out.push(parent[k]);
            proof {
                assert(parent@.take(k + 1) =~= parent@.take(k as int).push(parent@[k as int]));
            }
            k = k + 1;
        }
        proof {
            assert(parent@.take(k as int) =~= parent@);
        }
        push_str(&mut out, "/");
    }
    let ghost before = out@;
    let mut k: usize = 0;
    while k < basename.len()
        invariant
            k <= basename@.len(),
            out@ == before + basename@.take(k as int),
        decreases basename.len() - k,
    {
        out.push(basename[k]);
        proof {
            assert(basename@.take(k + 1) =~= basename@.take(k as int).push(basename@[k as int]));
        }
        k = k + 1;
    }
    proof {
        assert(basename@.take(k as int) =~= basename@);
    }
    string_from_chars(out.as_slice())
}

/// Format a file path into a compact, filename-first tab label.
pub fn format_file_tab_label(path: &str, all_paths: &[&str]) -> (r: String)
    ensures
        r@ == file_tab_label_spec(path@, all_paths@.map_values(|p: &str| p@)),
{
    let name = file_name_of(path);
    let mut sibling_names: Vec<Option<String>> = Vec::new();
    let mut i: usize = 0;
    while i < all_paths.len()
        invariant
            i <= all_paths@.len(),
            sibling_names@.map_values(|o: Option<String>| opt_view(o))
                =~= all_paths@.take(i as int).map_values(|p: &str| path_file_name(p@)),
        decreases all_paths.len() - i,
    {
        let n = file_name_of(all_paths[i]);
        let ghost sb = sibling_names@;
        sibling_names.push(n);
        proof {
            assert(all_paths@.take(i + 1) =~= all_paths@.take(i as int).push(all_paths@[i as int]));
            assert(sibling_names@ == sb.push(n));
            assert(sibling_names@.map_values(|o: Option<String>| opt_view(o)) =~= sb.map_values(
                |o: Option<String>| opt_view(o),
            ).push(opt_view(n)));
            assert(all_paths@.take(i + 1).map_values(|p: &str| path_file_name(p@)) =~= all_paths@.take(
                i as int,
            ).map_values(|p: &str| path_file_name(p@)).push(path_file_name(all_paths@[i as int]@)));
        }
        i = i + 1;
    }
    proof {
        assert(all_paths@.take(i as int) =~= all_paths@);
        assert(all_paths@.map_values(|p: &str| path_file_name(p@))
            =~= all_paths@.map_values(|p: &str| p@).map_values(|p: Seq<char>| path_file_name(p)));
    }
    let parent_name = match parent_of(path) {
        Some(p) => file_name_of(p.as_str()),
        None => None,
    };
    compose_file_tab_label(path, name, &sibling_names, parent_name)
}

/// Law: a file tab whose base name is shared by another open path is
/// labelled with exactly one directory in front: the file name (as std
/// reports it) of the path's parent, a `/`, and the base name; when the
/// parent has no name, `..` stands in front. A base name no other open path
/// shares is shown alone, and a path without separators as it is.
pub proof fn law_file_tab_label_parts(path: Seq<char>, all_paths: Seq<Seq<char>>)
    ensures
        ({
            let label = file_tab_label_spec(path, all_paths);
            let base = match path_file_name(path) {
                Some(n) => n,
                None => path,
            };
            let names = all_paths.map_values(|p: Seq<char>| path_file_name(p));
            let seg = match path_parent(path) {
                Some(q) => match path_file_name(q) {
                    Some(n) => n,
                    None => Seq::empty(),
                },
                None => Seq::empty(),
            };
            &&& !path.contains('/') && !path.contains('\\') ==> label == path
            &&& (path.contains('/') || path.contains('\\')) && count_name(names, base) <= 1 ==> label == base
            &&& (path.contains('/') || path.contains('\\')) && count_name(names, base) > 1 && seg.len() > 0
                ==> label == seg + seq!['/'] + base
            &&& (path.contains('/') || path.contains('\\')) && count_name(names, base) > 1 && seg.len() == 0
                ==> label == seq!['.', '.', '/'] + base
        }),
{
    reveal_strlit("/");
    reveal_strlit("../");
    assert("/"@ =~= seq!['/']);
    assert("../"@ =~= seq!['.', '.', '/']);
}

} // verus!
