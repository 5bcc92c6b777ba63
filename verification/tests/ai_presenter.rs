use zaroxi_interface_desktop::ai_presenter::{
    composer_placeholder_for, derive_context_chips, derive_provider_status, shows_setup_cta,
    AssistantSettings, ProviderUiStatus,
};

fn settings() -> AssistantSettings {
    AssistantSettings {
        assistant_enabled: true,
        active_provider: "OpenAI".to_string(),
        auto_attach_file: true,
    }
}

#[test]
fn composer_placeholder_tracks_state() {
    let connected =
        ProviderUiStatus::Connected { provider: "OpenAI".into(), model: String::new() };
    assert_eq!(composer_placeholder_for(&connected, false), "Ask about your code\u{2026}");
    assert_eq!(composer_placeholder_for(&connected, true), "Waiting for response\u{2026}");
    assert_eq!(
        composer_placeholder_for(&ProviderUiStatus::NotConnected, false),
        "Configure a provider to start"
    );
    assert_eq!(composer_placeholder_for(&ProviderUiStatus::Connecting, false), "Connecting\u{2026}");
}

#[test]
fn disabled_assistant_reports_not_connected() {
    let mut ai = settings();
    ai.assistant_enabled = false;
    assert_eq!(derive_provider_status(&ai, true), ProviderUiStatus::NotConnected);
}

#[test]
fn enabled_with_backend_reports_connected_with_provider_name() {
    let ai = settings();
    match derive_provider_status(&ai, true) {
        ProviderUiStatus::Connected { provider, .. } => assert_eq!(provider, "OpenAI"),
        other => panic!("expected Connected, got {other:?}"),
    }
}

#[test]
fn enabled_without_backend_reports_error() {
    let ai = settings();
    assert!(matches!(derive_provider_status(&ai, false), ProviderUiStatus::Error { .. }));
}

#[test]
fn empty_provider_name_reports_not_connected() {
    let mut ai = settings();
    ai.active_provider = "  ".into();
    assert_eq!(derive_provider_status(&ai, true), ProviderUiStatus::NotConnected);
}

#[test]
fn auto_attach_file_yields_file_chip_with_basename() {
    let ai = settings();
    let chips = derive_context_chips(&ai, Some("buf:src/main.rs"));
    assert_eq!(chips.len(), 1);
    assert_eq!(chips[0].label, "File");
    assert_eq!(chips[0].detail, "main.rs");
}

#[test]
fn auto_attach_disabled_yields_no_chips() {
    let mut ai = settings();
    ai.auto_attach_file = false;
    assert!(derive_context_chips(&ai, Some("src/main.rs")).is_empty());
}

#[test]
fn no_active_file_yields_no_chips() {
    let ai = settings();
    assert!(derive_context_chips(&ai, None).is_empty());
}

#[test]
fn trailing_separator_yields_no_chip() {
    let ai = settings();
    assert!(derive_context_chips(&ai, Some("src/")).is_empty());
}

#[test]
fn setup_cta_shows_unless_connected_or_connecting() {
    let connected = ProviderUiStatus::Connected { provider: "x".into(), model: String::new() };
    assert!(!shows_setup_cta(&connected));
    assert!(!shows_setup_cta(&ProviderUiStatus::Connecting));
    assert!(shows_setup_cta(&ProviderUiStatus::NotConnected));
    assert!(shows_setup_cta(&ProviderUiStatus::Error { message: "e".into() }));
}

#[test]
fn backend_error_message_is_exact() {
    match derive_provider_status(&settings(), false) {
        ProviderUiStatus::Error { message } => assert_eq!(message, "AI backend not connected"),
        other => panic!("expected Error, got {other:?}"),
    }
}
