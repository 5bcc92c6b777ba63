//! Bottom dock decisions around the integrated terminal: which tab is shown,
//! who holds keyboard focus, what the session should do next, and the text of
//! the dock header and placeholders. The session itself (PTY, shell, screen)
//! is driven by the caller, which reports its status and performs the
//! commands returned here.
use vstd::prelude::*;
use crate::render_schedule::{InvalidationFlags, no_flags};
use crate::text::{after_last_of, after_last_of_exec, chars_of, dec, push_decimal, push_str, string_from_chars, sub_chars};

verus! {

/// Which bottom-panel tab is selected.
#[derive(Clone, Copy, Debug, PartialEq, Eq, Structural)]
pub enum BottomTab {
    Terminal,
    Problems,
    Output,
}

impl Default for BottomTab {
    fn default() -> (t: Self)
        ensures
            t == BottomTab::Terminal,
    {
        BottomTab::Terminal
    }
}

/// The tab at strip position `i`; unknown positions select the terminal.
pub open spec fn tab_at(i: int) -> BottomTab {
    if i == 1 {
        BottomTab::Problems
    } else if i == 2 {
        BottomTab::Output
    } else {
        BottomTab::Terminal
    }
}

/// Strip position of a tab.
pub open spec fn tab_position(t: BottomTab) -> int {
    match t {
        BottomTab::Terminal => 0,
        BottomTab::Problems => 1,
        BottomTab::Output => 2,
    }
}

impl BottomTab {
    /// Tab for a strip position (0 = Terminal, 1 = Problems, 2 = Output);
    /// any other position selects the terminal.
    pub fn from_index(idx: usize) -> (t: Self)
        ensures
            t == tab_at(idx as int),
    {
        match idx {
            1 => BottomTab::Problems,
            2 => BottomTab::Output,
            _ => BottomTab::Terminal,
        }
    }

    /// Strip position of this tab.
    pub fn index(self) -> (i: usize)
        ensures
            i as int == tab_position(self),
    {
        match self {
            BottomTab::Terminal => 0,
            BottomTab::Problems => 1,
            BottomTab::Output => 2,
        }
    }
}

/// Law: a tab's position selects that tab again, and a position that names a
/// tab is that tab's position.
pub proof fn law_tab_index_round_trip(t: BottomTab, i: int)
    ensures
        tab_at(tab_position(t)) == t,
        0 <= i <= 2 ==> tab_position(tab_at(i)) == i,
        !(0 <= i <= 2) ==> tab_at(i) == BottomTab::Terminal,
{
}

/// What the caller observes of the terminal session.
#[derive(Clone, Copy, Debug, PartialEq, Eq, Structural)]
pub enum SessionStatus {
    /// No session exists.
    Closed,
    /// A session exists and its shell is running.
    Alive,
    /// A session exists but its shell has exited.
    Exited,
}

/// What the caller should do with the session.
#[derive(Clone, Copy, Debug, PartialEq, Eq, Structural)]
pub enum SessionCommand {
    /// Leave the session as it is.
    Keep,
    /// Spawn a session (the dock has none).
    Start,
    /// Shut the dead session down and spawn a fresh one.
    Restart,
    /// Terminate the running shell.
    Shutdown,
    /// Encode the key and send it to the shell.
    Forward,
    /// Resize to the layout and drain pending output.
    Pump,
    /// Spawn a session and, when it opened, resize it to the layout and
    /// drain its output in the same step.
    StartAndPump,
}

/// A session command plus the invalidation reasons of the state change.
#[derive(Clone, Copy, Debug, PartialEq, Eq, Structural)]
pub struct DockAction {
    pub command: SessionCommand,
    pub invalidate: InvalidationFlags,
}

/// Content-only invalidation reasons.
pub open spec fn content_only() -> InvalidationFlags {
    InvalidationFlags { content: true, ..no_flags() }
}

/// Input-only invalidation reasons.
pub open spec fn input_only() -> InvalidationFlags {
    InvalidationFlags { input: true, ..no_flags() }
}

/// Selected tab and keyboard focus of the bottom dock.
#[derive(Clone, Copy, Debug, PartialEq, Eq, Structural)]
pub struct BottomDockState {
    pub tab: BottomTab,
    /// The terminal captures keyboard input.
    pub focused: bool,
}

impl Default for BottomDockState {
    fn default() -> (s: Self)
        ensures
            s.tab == BottomTab::Terminal,
            !s.focused,
    {
        BottomDockState { tab: BottomTab::Terminal, focused: false }
    }
}

/// `Start` when there is no session, else `Keep`.
pub open spec fn start_if_closed(session: SessionStatus) -> SessionCommand {
    if session == SessionStatus::Closed {
        SessionCommand::Start
    } else {
        SessionCommand::Keep
    }
}

impl BottomDockState {
    /// The state of a fresh dock: the terminal tab, not focused.
    pub fn new() -> (s: Self)
        ensures
            s.tab == BottomTab::Terminal,
            !s.focused,
    {
        BottomDockState { tab: BottomTab::Terminal, focused: false }
    }

    /// Select the tab at strip position `idx`. Selecting the terminal opens a
    /// session when there is none and focuses it; other tabs release focus.
    pub fn select_bottom_tab(&mut self, idx: usize, session: SessionStatus) -> (a: DockAction)
        ensures
            final(self).tab == tab_at(idx as int),
            final(self).focused == (tab_at(idx as int) == BottomTab::Terminal),
            a.command == (if tab_at(idx as int) == BottomTab::Terminal {
                start_if_closed(session)
            } else {
                SessionCommand::Keep
            }),
            a.invalidate == content_only(),
    {
        let tab = BottomTab::from_index(idx);
        self.tab = tab;
        let command = if tab == BottomTab::Terminal {
            self.focused = true;
            if session == SessionStatus::Closed {
                SessionCommand::Start
            } else {
                SessionCommand::Keep
            }
        } else {
            self.focused = false;
            SessionCommand::Keep
        };
        DockAction { command, invalidate: InvalidationFlags::content() }
    }

    /// Toggle the terminal: show its tab; with no session open and focus one,
    /// with a dead one restart and focus it, else flip the focus.
    pub fn toggle_terminal(&mut self, session: SessionStatus) -> (a: DockAction)
        ensures
            *final(self) == toggled(*old(self), session),
            a.command == (match session {
                SessionStatus::Closed => SessionCommand::Start,
                SessionStatus::Exited => SessionCommand::Restart,
                SessionStatus::Alive => SessionCommand::Keep,
            }),
            a.invalidate == content_only(),
    {
        self.tab = BottomTab::Terminal;
        let command = match session {
            SessionStatus::Closed => {
                self.focused = true;
                SessionCommand::Start
            },
            SessionStatus::Exited => {
                self.focused = true;
                SessionCommand::Restart
            },
            SessionStatus::Alive => {
                self.focused = !self.focused;
                SessionCommand::Keep
            },
        };
        DockAction { command, invalidate: InvalidationFlags::content() }
    }

    /// A click in the panel body shows and focuses the terminal, opening a
    /// session when there is none.
    pub fn focus_terminal_from_click(&mut self, session: SessionStatus) -> (a: DockAction)
        ensures
            final(self).tab == BottomTab::Terminal,
            final(self).focused,
            a.command == start_if_closed(session),
            a.invalidate == content_only(),
    {
        self.tab = BottomTab::Terminal;
        self.focused = true;
        let command = if session == SessionStatus::Closed {
            SessionCommand::Start
        } else {
            SessionCommand::Keep
        };
        DockAction { command, invalidate: InvalidationFlags::content() }
    }

    /// Hand keyboard focus back to the editor; a change of focus invalidates
    /// content, no change invalidates nothing.
    pub fn blur_terminal(&mut self) -> (a: DockAction)
        ensures
            final(self).tab == old(self).tab,
            !final(self).focused,
            a.command == SessionCommand::Keep,
            a.invalidate == (if old(self).focused {
                content_only()
            } else {
                no_flags()
            }),
    {
        if self.focused {
            self.focused = false;
            DockAction { command: SessionCommand::Keep, invalidate: InvalidationFlags::content() }
        } else {
            DockAction { command: SessionCommand::Keep, invalidate: InvalidationFlags::default() }
        }
    }

    /// The dock's close action: shut the shell down, leaving the pane to show
    /// the exited session.
    pub fn close_terminal_action(&self) -> (a: DockAction)
        ensures
            a.command == SessionCommand::Shutdown,
            a.invalidate == content_only(),
    {
        DockAction { command: SessionCommand::Shutdown, invalidate: InvalidationFlags::content() }
    }

    /// A key for the terminal: forwarded to a running shell; with no running
    /// shell, Enter restarts it and any other key is ignored.
    pub fn key_action(&self, session: SessionStatus, is_enter: bool) -> (a: DockAction)
        ensures
            a.command == (if session == SessionStatus::Alive {
                SessionCommand::Forward
            } else if is_enter {
                SessionCommand::Restart
            } else {
                SessionCommand::Keep
            }),
            a.invalidate == (if session != SessionStatus::Alive && is_enter {
                content_only()
            } else {
                no_flags()
            }),
    {
        if session == SessionStatus::Alive {
            DockAction { command: SessionCommand::Forward, invalidate: InvalidationFlags::default() }
        } else if is_enter {
            DockAction { command: SessionCommand::Restart, invalidate: InvalidationFlags::content() }
        } else {
            DockAction { command: SessionCommand::Keep, invalidate: InvalidationFlags::default() }
        }
    }

    /// Per-frame maintenance: bring a session up the first time the terminal
    /// tab is shown and pump it right away; pump an open one.
    pub fn maintain(&self, session: SessionStatus) -> (c: SessionCommand)
        ensures
            c == (if self.tab == BottomTab::Terminal && session == SessionStatus::Closed {
                SessionCommand::StartAndPump
            } else if session != SessionStatus::Closed {
                SessionCommand::Pump
            } else {
                SessionCommand::Keep
            }),
    {
        if self.tab == BottomTab::Terminal && session == SessionStatus::Closed {
            SessionCommand::StartAndPump
        } else if session != SessionStatus::Closed {
            SessionCommand::Pump
        } else {
            SessionCommand::Keep
        }
    }
}

/// Idle polling: pump an open session, leave a missing one alone.
pub fn poll(session: SessionStatus) -> (c: SessionCommand)
    ensures
        c == (if session == SessionStatus::Closed {
            SessionCommand::Keep
        } else {
            SessionCommand::Pump
        }),
{
    if session == SessionStatus::Closed {
        SessionCommand::Keep
    } else {
        SessionCommand::Pump
    }
}

/// Invalidation after draining output: content when output arrived.
pub fn pump_invalidation(dirty: bool) -> (f: InvalidationFlags)
    ensures
        f == (if dirty {
            content_only()
        } else {
            no_flags()
        }),
{
    if dirty {
        InvalidationFlags::content()
    } else {
        InvalidationFlags::default()
    }
}

/// Invalidation after forwarding a key: input when bytes were sent.
pub fn forwarded_invalidation(sent: bool) -> (f: InvalidationFlags)
    ensures
        f == (if sent {
            input_only()
        } else {
            no_flags()
        }),
{
    if sent {
        InvalidationFlags::input()
    } else {
        InvalidationFlags::default()
    }
}

/// The dock after the terminal toggle.
pub open spec fn toggled(s: BottomDockState, session: SessionStatus) -> BottomDockState {
    BottomDockState {
        tab: BottomTab::Terminal,
        focused: match session {
            SessionStatus::Alive => !s.focused,
            _ => true,
        },
    }
}

/// Law: with a running shell, toggling twice shows the terminal tab with the
/// focus it had before.
pub proof fn law_toggle_twice_restores_focus(s: BottomDockState)
    ensures
        toggled(toggled(s, SessionStatus::Alive), SessionStatus::Alive) == (BottomDockState {
            tab: BottomTab::Terminal,
            focused: s.focused,
        }),
{
}

/// Decimal representation of a signed integer.
pub open spec fn signed_dec(i: int) -> Seq<char> {
    if i < 0 {
        seq!['-'] + dec((-i) as nat)
    } else {
        dec(i as nat)
    }
}

fn push_signed(out: &mut Vec<char>, n: i32)
    ensures
        final(out)@ == old(out)@ + signed_dec(n as int),
{
    if n < 0 {
        out.push('-');
        let m: i64 = -(n as i64);
        push_decimal(out, m as u64);
        proof {
            assert(final(out)@ =~= old(out)@ + signed_dec(n as int));
        }
    } else {
        push_decimal(out, n as u64);
    }
}

/// The file name of a program path: what follows its last `/` or `\\`.
pub open spec fn program_name(p: Seq<char>) -> Seq<char> {
    p.subrange(after_last_of(p, '/', '\\'), p.len() as int)
}

/// Tab-strip status of a session: the shell's name while running, or its
/// exit code once it has exited.
pub open spec fn status_label_spec(program: Seq<char>, exit_code: Option<i32>) -> Seq<char> {
    match exit_code {
        Some(c) => "exited "@ + signed_dec(c as int),
        None => program_name(program),
    }
}

fn program_name_chars(program: &str) -> (r: Vec<char>)
    ensures
        r@ == program_name(program@),
{
    let v = chars_of(program);
    let k = after_last_of_exec(v.as_slice(), '/', '\\');
    proof {
        crate::text::lemma_after_last_of_bounds(v@, '/', '\\');
    }
    sub_chars(v.as_slice(), k, v.len())
}

/// Short status label for the tab strip: the shell's name while it runs, or
/// `exited <code>` once it has exited.
pub fn status_label(program: &str, exit_code: Option<i32>) -> (s: String)
    ensures
        s@ == status_label_spec(program@, exit_code),
{
    match exit_code {
        Some(c) => {
            let mut out: Vec<char> = Vec::new();
            push_str(&mut out, "exited ");
            push_signed(&mut out, c);
            proof {
                assert(out@ =~= status_label_spec(program@, exit_code));
            }
            string_from_chars(out.as_slice())
        },
        None => {
            let v = program_name_chars(program);
            string_from_chars(v.as_slice())
        },
    }
}

/// Header of the dock when it shows no session-specific title.
pub open spec fn idle_title() -> Seq<char> {
    "Terminal \u{2022} Problems \u{2022} Output"@
}

/// Header title of the terminal panel: the program's name and, once exited,
/// its exit code; with no session, the list of tabs.
pub open spec fn panel_title_spec(session: Option<(Seq<char>, Option<i32>)>) -> Seq<char> {
    match session {
        Some((program, Some(c))) => "Terminal \u{2014} "@ + program_name(program) + " [exited: "@
            + signed_dec(c as int) + "]"@,
        Some((program, None)) => "Terminal \u{2014} "@ + program_name(program),
        None => idle_title(),
    }
}

/// Header title of the terminal panel for a session given as its program
/// path and exit code (when exited).
pub fn panel_title(session: Option<(&str, Option<i32>)>) -> (s: String)
    ensures
        s@ == panel_title_spec(match session {
            Some((p, e)) => Some((p@, e)),
            None => None,
        }),
{
    let mut out: Vec<char> = Vec::new();
    match session {
        Some((program, exit)) => {
            push_str(&mut out, "Terminal \u{2014} ");
            let name = program_name_chars(program);
            let ghost before = out@;
            let mut i: usize = 0;
            while i < name.len()
                invariant
                    i <= name@.len(),
                    out@ == before + name@.take(i as int),
                decreases name@.len() - i,
            {
                out.push(name[i]);
                proof {
                    assert(name@.take(i + 1) =~= name@.take(i as int).push(name@[i as int]));
                }
                i += 1;
            }
            proof {
                assert(name@.take(i as int) =~= name@);
            }
            match exit {
                Some(c) => {
                    push_str(&mut out, " [exited: ");
                    push_signed(&mut out, c);
                    push_str(&mut out, "]");
                },
                None => {},
            }
            proof {
                assert(out@ =~= panel_title_spec(Some((program@, exit))));
            }
        },
        None => {
            push_str(&mut out, "Terminal \u{2022} Problems \u{2022} Output");
            proof {
                assert(out@ =~= idle_title());
            }
        },
    }
    string_from_chars(out.as_slice())
}

/// The terminal's entry of the tab strip when it is the active tab.
pub open spec fn active_terminal_part(status: Option<Seq<char>>, focused: bool) -> Seq<char> {
    let label = match status {
        Some(s) => "[Terminal: "@ + s + "]"@,
        None => "[Terminal]"@,
    };
    if focused {
        label + " (focused)"@
    } else {
        label
    }
}

/// The tab strip: the three tab names separated by four spaces, the active
/// one in brackets; the active terminal also carries its session status and
/// a focus cue.
pub open spec fn tab_strip_spec(active: BottomTab, status: Option<Seq<char>>, focused: bool) -> Seq<char> {
    let p0 = if active == BottomTab::Terminal {
        active_terminal_part(status, focused)
    } else {
        "Terminal"@
    };
    let p1 = if active == BottomTab::Problems {
        "[Problems]"@
    } else {
        "Problems"@
    };
    let p2 = if active == BottomTab::Output {
        "[Output]"@
    } else {
        "Output"@
    };
    p0 + "    "@ + p1 + "    "@ + p2
}

/// The bottom-panel tab strip label with the active tab marked, plus the live
/// session status and focus cue on an active terminal tab.
pub fn tab_strip_title(active: BottomTab, status: Option<&str>, focused: bool) -> (s: String)
    ensures
        s@ == tab_strip_spec(
            active,
            match status {
                Some(t) => Some(t@),
                None => None,
            },
            focused,
        ),
{
    let mut out: Vec<char> = Vec::new();
    if active == BottomTab::Terminal {
        match status {
            Some(t) => {
                push_str(&mut out, "[Terminal: ");
                push_str(&mut out, t);
                push_str(&mut out, "]");
            },
            None => {
                push_str(&mut out, "[Terminal]");
            },
        }
        if focused {
            push_str(&mut out, " (focused)");
        }
    } else {
        push_str(&mut out, "Terminal");
    }
    let ghost a = out@;
    push_str(&mut out, "    ");
    if active == BottomTab::Problems {
        push_str(&mut out, "[Problems]");
    } else {
        push_str(&mut out, "Problems");
    }
    push_str(&mut out, "    ");
    if active == BottomTab::Output {
        push_str(&mut out, "[Output]");
    } else {
        push_str(&mut out, "Output");
    }
    proof {
        let st = match status {
            Some(t) => Some(t@),
            None => None,
        };
        assert(out@ =~= tab_strip_spec(active, st, focused));
    }
    string_from_chars(out.as_slice())
}

/// Body text of the dock for the active tab: `None` where the live terminal
/// grid is drawn, else a placeholder line.
pub open spec fn placeholder_spec(active: BottomTab, open: bool) -> Option<Seq<char>> {
    match active {
        BottomTab::Terminal => if open {
            None
        } else {
            Some("Starting terminal\u{2026}"@)
        },
        BottomTab::Problems => Some("No problems have been detected in the workspace."@),
        BottomTab::Output => Some("No output."@),
    }
}

/// Body placeholder of the dock for the active tab (`None` when the open
/// terminal's grid is drawn instead).
pub fn placeholder(active: BottomTab, open: bool) -> (r: Option<String>)
    ensures
        match r {
            Some(s) => placeholder_spec(active, open) == Some(s@),
            None => placeholder_spec(active, open) is None,
        },
{
    match active {
        BottomTab::Terminal => if open {
            None
        } else {
            Some(crate::text::string_of("Starting terminal\u{2026}"))
        },
        BottomTab::Problems => Some(
            crate::text::string_of("No problems have been detected in the workspace."),
        ),
        BottomTab::Output => Some(crate::text::string_of("No output.")),
    }
}

/// A focused terminal tab gets the accent border.
pub fn accent_border(active: BottomTab, focused: bool) -> (b: bool)
    ensures
        b == (active == BottomTab::Terminal && focused),
{
    active == BottomTab::Terminal && focused
}

/// The bytes a paste sends to the shell: nothing for empty text; the text
/// framed by the bracketed-paste markers when the program asked for them;
/// else the text itself.
pub open spec fn paste_bytes_spec(text: Seq<u8>, bracketed: bool) -> Option<Seq<u8>> {
    if text.len() == 0 {
        None
    } else if bracketed {
        Some(seq![0x1bu8, 0x5bu8, 0x32u8, 0x30u8, 0x30u8, 0x7eu8] + text + seq![
            0x1bu8,
            0x5bu8,
            0x32u8,
            0x30u8,
            0x31u8,
            0x7eu8,
        ])
    } else {
        Some(text)
    }
}

fn push_bytes(out: &mut Vec<u8>, b: &[u8])
    ensures
        final(out)@ == old(out)@ + b@,
{
    let mut i: usize = 0;
    let ghost o = out@;
    while i < b.len()
        invariant
            i <= b@.len(),
            out@ == o + b@.take(i as int),
        decreases b@.len() - i,
    {
        out.push(b[i]);
        proof {
            assert(b@.take(i + 1) =~= b@.take(i as int).push(b@[i as int]));
        }
        i += 1;
    }
    proof {
        assert(b@.take(i as int) =~= b@);
    }
}

/// Bytes to send for a paste of `text`, honoring bracketed-paste mode.
pub fn paste_bytes(text: &str, bracketed: bool) -> (r: Option<Vec<u8>>)
    ensures
        match r {
            Some(v) => paste_bytes_spec(crate::syntax_spans::bytes(text), bracketed) == Some(v@),
            None => paste_bytes_spec(crate::syntax_spans::bytes(text), bracketed) is None,
        },
{
    let tb = text.as_bytes();
    if tb.len() == 0 {
        return None;
    }
    let mut out: Vec<u8> = Vec::new();
    if bracketed {
        let open: [u8; 6] = [0x1b, 0x5b, 0x32, 0x30, 0x30, 0x7e];
        let close: [u8; 6] = [0x1b, 0x5b, 0x32, 0x30, 0x31, 0x7e];
        push_bytes(&mut out, &open);
        push_bytes(&mut out, tb);
        push_bytes(&mut out, &close);
        proof {
            assert(open@ =~= seq![0x1bu8, 0x5bu8, 0x32u8, 0x30u8, 0x30u8, 0x7eu8]);
            assert(close@ =~= seq![0x1bu8, 0x5bu8, 0x32u8, 0x30u8, 0x31u8, 0x7eu8]);
            assert(out@ =~= paste_bytes_spec(crate::syntax_spans::bytes(text), bracketed)->0);
        }
    } else {
        push_bytes(&mut out, tb);
        proof {
            assert(out@ =~= tb@);
        }
    }
    Some(out)
}

/// Scrollback movement for a wheel delta.
#[derive(Clone, Copy, Debug, PartialEq, Eq, Structural)]
pub enum ScrollCommand {
    /// Move up into history by this many lines.
    Up(usize),
    /// Move down toward the live screen by this many lines.
    Down(usize),
    /// No movement.
    Stay,
}

/// Scroll the scrollback view: `delta > 0` moves up into history, `delta < 0`
/// down, zero not at all.
pub fn scroll_command(delta: i32) -> (c: ScrollCommand)
    requires
        delta > i32::MIN,
    ensures
        c == (if delta > 0 {
            ScrollCommand::Up(delta as usize)
        } else if delta < 0 {
            ScrollCommand::Down((-delta) as usize)
        } else {
            ScrollCommand::Stay
        }),
{
    if delta > 0 {
        ScrollCommand::Up(delta as usize)
    } else if delta < 0 {
        ScrollCommand::Down((-delta) as usize)
    } else {
        ScrollCommand::Stay
    }
}

} // verus!
