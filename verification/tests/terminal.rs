use zaroxi_interface_desktop::terminal::{
    accent_border, forwarded_invalidation, panel_title, paste_bytes, placeholder, poll, pump_invalidation, scroll_command,
    status_label, tab_strip_title, BottomDockState, BottomTab, ScrollCommand, SessionCommand,
    SessionStatus,
};

#[test]
fn default_bottom_tab_is_terminal() {
    let dock = BottomDockState::new();
    assert_eq!(dock.tab, BottomTab::Terminal);
    assert_eq!(BottomTab::default(), BottomTab::Terminal);
}

#[test]
fn click_to_focus_and_blur_are_the_focus_source_of_truth() {
    let mut dock = BottomDockState::new();
    let a = dock.select_bottom_tab(1, SessionStatus::Closed);
    assert_eq!(a.command, SessionCommand::Keep);
    assert!(!dock.focused);
    let a = dock.focus_terminal_from_click(SessionStatus::Closed);
    assert_eq!(a.command, SessionCommand::Start);
    assert_eq!(dock.tab, BottomTab::Terminal);
    assert!(dock.focused, "clicking the body focuses the terminal");
    dock.blur_terminal();
    assert!(!dock.focused, "blur hands focus back to the editor");
}

#[test]
fn tab_index_round_trips() {
    for t in [BottomTab::Terminal, BottomTab::Problems, BottomTab::Output] {
        assert_eq!(BottomTab::from_index(t.index()), t);
    }
    assert_eq!(BottomTab::from_index(7), BottomTab::Terminal);
}

#[test]
fn selecting_tabs_moves_focus_and_keeps_the_session() {
    let mut dock = BottomDockState::new();
    let a = dock.select_bottom_tab(0, SessionStatus::Closed);
    assert_eq!(a.command, SessionCommand::Start);
    assert!(a.invalidate.content);
    assert!(dock.focused);
    let a = dock.select_bottom_tab(2, SessionStatus::Alive);
    assert_eq!(a.command, SessionCommand::Keep);
    assert!(!dock.focused);
    let a = dock.select_bottom_tab(0, SessionStatus::Alive);
    assert_eq!(a.command, SessionCommand::Keep);
    assert!(dock.focused);
}

#[test]
fn toggle_starts_restarts_or_flips_focus() {
    let mut dock = BottomDockState::new();
    assert_eq!(dock.toggle_terminal(SessionStatus::Closed).command, SessionCommand::Start);
    assert!(dock.focused);
    assert_eq!(dock.toggle_terminal(SessionStatus::Alive).command, SessionCommand::Keep);
    assert!(!dock.focused);
    assert_eq!(dock.toggle_terminal(SessionStatus::Alive).command, SessionCommand::Keep);
    assert!(dock.focused);
    dock.blur_terminal();
    assert_eq!(dock.toggle_terminal(SessionStatus::Exited).command, SessionCommand::Restart);
    assert!(dock.focused);
}

#[test]
fn blur_without_focus_invalidates_nothing() {
    let mut dock = BottomDockState::new();
    let a = dock.blur_terminal();
    assert!(!a.invalidate.content);
    assert_eq!(dock.close_terminal_action().command, SessionCommand::Shutdown);
}

#[test]
fn keys_forward_to_a_live_shell_and_enter_restarts_a_dead_one() {
    let dock = BottomDockState::new();
    assert_eq!(dock.key_action(SessionStatus::Alive, true).command, SessionCommand::Forward);
    assert_eq!(dock.key_action(SessionStatus::Exited, true).command, SessionCommand::Restart);
    assert_eq!(dock.key_action(SessionStatus::Exited, false).command, SessionCommand::Keep);
}

#[test]
fn maintenance_starts_lazily_and_pumps_open_sessions() {
    let mut dock = BottomDockState::new();
    assert_eq!(dock.maintain(SessionStatus::Closed), SessionCommand::StartAndPump);
    assert_eq!(dock.maintain(SessionStatus::Alive), SessionCommand::Pump);
    dock.select_bottom_tab(1, SessionStatus::Closed);
    assert_eq!(dock.maintain(SessionStatus::Closed), SessionCommand::Keep);
    assert_eq!(poll(SessionStatus::Closed), SessionCommand::Keep);
    assert_eq!(poll(SessionStatus::Exited), SessionCommand::Pump);
    assert!(pump_invalidation(true).content);
    assert!(!pump_invalidation(false).content);
}

#[test]
fn labels_and_titles() {
    assert_eq!(status_label("/usr/bin/zsh", None), "zsh");
    assert_eq!(status_label("C:\\bin\\pwsh.exe", None), "pwsh.exe");
    assert_eq!(status_label("/bin/bash", Some(-2)), "exited -2");
    assert_eq!(panel_title(Some(("/bin/bash", None))), "Terminal \u{2014} bash");
    assert_eq!(panel_title(Some(("/bin/bash", Some(127)))), "Terminal \u{2014} bash [exited: 127]");
    assert_eq!(panel_title(None), "Terminal \u{2022} Problems \u{2022} Output");
}

#[test]
fn tab_strip_marks_the_active_tab() {
    assert_eq!(
        tab_strip_title(BottomTab::Terminal, Some("zsh"), true),
        "[Terminal: zsh] (focused)    Problems    Output"
    );
    assert_eq!(tab_strip_title(BottomTab::Terminal, None, false), "[Terminal]    Problems    Output");
    assert_eq!(tab_strip_title(BottomTab::Problems, Some("zsh"), true), "Terminal    [Problems]    Output");
    assert_eq!(tab_strip_title(BottomTab::Output, None, false), "Terminal    Problems    [Output]");
}

#[test]
fn placeholders_and_border() {
    assert_eq!(placeholder(BottomTab::Terminal, true), None);
    assert_eq!(placeholder(BottomTab::Terminal, false).as_deref(), Some("Starting terminal\u{2026}"));
    assert!(placeholder(BottomTab::Problems, true).unwrap().contains("No problems"));
    assert_eq!(placeholder(BottomTab::Output, true).as_deref(), Some("No output."));
    assert!(accent_border(BottomTab::Terminal, true));
    assert!(!accent_border(BottomTab::Output, true));
}

#[test]
fn paste_is_bracketed_on_request() {
    assert_eq!(paste_bytes("", true), None);
    assert_eq!(paste_bytes("ls", false), Some(b"ls".to_vec()));
    assert_eq!(paste_bytes("ls", true), Some(b"\x1b[200~ls\x1b[201~".to_vec()));
}

#[test]
fn scroll_direction_follows_sign() {
    assert_eq!(scroll_command(3), ScrollCommand::Up(3));
    assert_eq!(scroll_command(-4), ScrollCommand::Down(4));
    assert_eq!(scroll_command(0), ScrollCommand::Stay);
}

#[test]
fn forwarding_a_key_invalidates_input_only_when_sent() {
    let f = forwarded_invalidation(true);
    assert!(f.input && !f.content);
    let f = forwarded_invalidation(false);
    assert!(!f.input);
}

#[test]
fn problems_and_output_tabs_show_placeholders_and_release_focus() {
    let mut dock = BottomDockState::new();
    let a = dock.select_bottom_tab(0, SessionStatus::Closed);
    assert_eq!(a.command, SessionCommand::Start);
    let a = dock.select_bottom_tab(1, SessionStatus::Alive);
    assert!(!dock.focused, "switching to Problems releases terminal focus");
    assert_eq!(a.command, SessionCommand::Keep, "the terminal session persists across tab switches");

    let body = placeholder(dock.tab, true).unwrap();
    assert!(body.contains("No problems"), "problems placeholder: {}", body);
    assert!(!accent_border(dock.tab, dock.focused));
    let title = tab_strip_title(dock.tab, Some("zsh"), dock.focused);
    assert!(title.contains("[Problems]"), "active tab marked: {}", title);

    dock.select_bottom_tab(2, SessionStatus::Alive);
    let body = placeholder(dock.tab, true).unwrap();
    assert!(body.contains("No output"));
    assert!(!accent_border(dock.tab, dock.focused));
}

#[test]
fn close_action_shuts_down_but_leaves_a_restartable_pane() {
    let mut dock = BottomDockState::new();
    dock.select_bottom_tab(0, SessionStatus::Closed);
    let a = dock.close_terminal_action();
    assert_eq!(a.command, SessionCommand::Shutdown);
    assert_eq!(dock.tab, BottomTab::Terminal);
    let a = dock.key_action(SessionStatus::Exited, true);
    assert_eq!(a.command, SessionCommand::Restart);
}
