//! AI panel decisions: the provider status shown in the status row, the
//! auto-attached context chips, the composer placeholder, and whether the
//! setup call to action replaces the session controls.
use vstd::prelude::*;
use crate::text::{after_last_of, after_last_of_exec, chars_of, lemma_after_last_of_bounds, string_from_chars, string_of, sub_chars, trim, trim_chars};

verus! {

/// Connection status of the AI provider as the panel shows it.
#[derive(Debug)]
pub enum ProviderUiStatus {
    NotConnected,
    Connecting,
    Connected { provider: String, model: String },
    Error { message: String },
}

/// What a provider status holds, as plain values.
pub enum ProviderView {
    NotConnected,
    Connecting,
    Connected { provider: Seq<char>, model: Seq<char> },
    Error { message: Seq<char> },
}

impl View for ProviderUiStatus {
    type V = ProviderView;

    open spec fn view(&self) -> ProviderView {
        match self {
            ProviderUiStatus::NotConnected => ProviderView::NotConnected,
            ProviderUiStatus::Connecting => ProviderView::Connecting,
            ProviderUiStatus::Connected { provider, model } => ProviderView::Connected {
                provider: provider@,
                model: model@,
            },
            ProviderUiStatus::Error { message } => ProviderView::Error { message: message@ },
        }
    }
}

impl PartialEq for ProviderUiStatus {
    fn eq(&self, other: &Self) -> (r: bool) {
        match (self, other) {
            (ProviderUiStatus::NotConnected, ProviderUiStatus::NotConnected) => true,
            (ProviderUiStatus::Connecting, ProviderUiStatus::Connecting) => true,
            (
                ProviderUiStatus::Connected { provider: p1, model: m1 },
                ProviderUiStatus::Connected { provider: p2, model: m2 },
            ) => p1.eq(p2) && m1.eq(m2),
            (ProviderUiStatus::Error { message: a }, ProviderUiStatus::Error { message: b }) => a.eq(b),
            _ => false,
        }
    }
}

impl vstd::std_specs::cmp::PartialEqSpecImpl for ProviderUiStatus {
    open spec fn obeys_eq_spec() -> bool {
        true
    }

    open spec fn eq_spec(&self, other: &Self) -> bool {
        self@ == other@
    }
}

impl Eq for ProviderUiStatus {
}

impl Clone for ProviderUiStatus {
    fn clone(&self) -> (r: Self)
        ensures
            r@ == self@,
    {
        match self {
            ProviderUiStatus::NotConnected => ProviderUiStatus::NotConnected,
            ProviderUiStatus::Connecting => ProviderUiStatus::Connecting,
            ProviderUiStatus::Connected { provider, model } => ProviderUiStatus::Connected {
                provider: provider.clone(),
                model: model.clone(),
            },
            ProviderUiStatus::Error { message } => ProviderUiStatus::Error { message: message.clone() },
        }
    }
}

/// A context item attached to the next prompt.
#[derive(Debug)]
pub struct ContextChip {
    pub label: String,
    pub detail: String,
}

/// The user's assistant settings the panel reads.
pub struct AssistantSettings {
    /// The assistant is switched on.
    pub assistant_enabled: bool,
    /// Name of the configured provider.
    pub active_provider: String,
    /// Attach the active file to prompts automatically.
    pub auto_attach_file: bool,
}

/// Provider status derived from settings: not connected when the assistant
/// is off or no provider is named (blank names count as none), an error when
/// no backend is wired in, else connected to the named provider.
pub open spec fn provider_status_spec(
    enabled: bool,
    provider: Seq<char>,
    backend_available: bool,
) -> ProviderView {
    if !enabled || trim(provider).len() == 0 {
        ProviderView::NotConnected
    } else if !backend_available {
        ProviderView::Error { message: "AI backend not connected"@ }
    } else {
        ProviderView::Connected { provider, model: Seq::empty() }
    }
}

/// Derive the provider status shown in the panel status row; it never claims
/// a connection that is not wired.
pub fn derive_provider_status(ai: &AssistantSettings, backend_available: bool) -> (s: ProviderUiStatus)
    ensures
        s@ == provider_status_spec(ai.assistant_enabled, ai.active_provider@, backend_available),
{
    let v = chars_of(ai.active_provider.as_str());
    let t = trim_chars(v.as_slice());
    if !ai.assistant_enabled || t.len() == 0 {
        return ProviderUiStatus::NotConnected;
    }
    if !backend_available {
        return ProviderUiStatus::Error { message: string_of("AI backend not connected") };
    }
    ProviderUiStatus::Connected { provider: ai.active_provider.clone(), model: String::new() }
}

/// `p` without a leading `buf:` prefix.
pub open spec fn without_buf(p: Seq<char>) -> Seq<char> {
    if p.len() >= 4 && p.take(4) == seq!['b', 'u', 'f', ':'] {
        p.skip(4)
    } else {
        p
    }
}

/// The file name of a path: what follows its last `/` or `\\`.
pub open spec fn base_name(p: Seq<char>) -> Seq<char> {
    p.subrange(after_last_of(p, '/', '\\'), p.len() as int)
}

/// The chip for the active file, when auto-attach is on and its name is not
/// empty: label `File`, detail the file name.
pub open spec fn file_chip_detail(auto_attach: bool, active_file: Option<Seq<char>>) -> Option<Seq<char>> {
    match active_file {
        Some(f) => if auto_attach && base_name(without_buf(f)).len() > 0 {
            Some(base_name(without_buf(f)))
        } else {
            None
        },
        None => None,
    }
}

/// Derive the auto-attached context chips shown above the composer.
pub fn derive_context_chips(ai: &AssistantSettings, active_file: Option<&str>) -> (chips: Vec<ContextChip>)
    ensures
        match file_chip_detail(
            ai.auto_attach_file,
            match active_file {
                Some(f) => Some(f@),
                None => None,
            },
        ) {
            Some(d) => chips@.len() == 1 && chips@[0].label@ == "File"@ && chips@[0].detail@ == d,
            None => chips@.len() == 0,
        },
{
    let mut chips: Vec<ContextChip> = Vec::new();
    if ai.auto_attach_file {
        match active_file {
            Some(file) => {
                let v = chars_of(file);
                let strip = v.len() >= 4 && v[0] == 'b' && v[1] == 'u' && v[2] == 'f' && v[3] == ':';
                proof {
                    if v@.len() >= 4 {
                        assert(strip == (v@.take(4) =~= seq!['b', 'u', 'f', ':']));
                    }
                }
                let rest = if strip {
                    sub_chars(v.as_slice(), 4, v.len())
                } else {
                    sub_chars(v.as_slice(), 0, v.len())
                };
                proof {
                    assert(rest@ =~= without_buf(file@));
                }
                let k = after_last_of_exec(rest.as_slice(), '/', '\\');
                proof {
                    lemma_after_last_of_bounds(rest@, '/', '\\');
                }
                let name = sub_chars(rest.as_slice(), k, rest.len());
                if name.len() > 0 {
                    chips.push(
                        ContextChip { label: string_of("File"), detail: string_from_chars(name.as_slice()) },
                    );
                }
            },
            None => {},
        }
    }
    chips
}

/// State-aware placeholder of the prompt composer.
pub open spec fn composer_placeholder_spec(status: ProviderView, is_loading: bool) -> Seq<char> {
    if is_loading {
        "Waiting for response\u{2026}"@
    } else {
        match status {
            ProviderView::Connected { .. } => "Ask about your code\u{2026}"@,
            ProviderView::Connecting => "Connecting\u{2026}"@,
            _ => "Configure a provider to start"@,
        }
    }
}

/// Placeholder text of the prompt composer for a provider status and
/// loading state.
pub fn composer_placeholder_for(status: &ProviderUiStatus, is_loading: bool) -> (s: String)
    ensures
        s@ == composer_placeholder_spec(status@, is_loading),
{
    if is_loading {
        return string_of("Waiting for response\u{2026}");
    }
    match status {
        ProviderUiStatus::Connected { .. } => string_of("Ask about your code\u{2026}"),
        ProviderUiStatus::Connecting => string_of("Connecting\u{2026}"),
        ProviderUiStatus::NotConnected | ProviderUiStatus::Error { .. } => string_of(
            "Configure a provider to start",
        ),
    }
}

/// The setup call to action shows unless a provider is connected or
/// connecting; the session controls show exactly when it does not.
pub fn shows_setup_cta(status: &ProviderUiStatus) -> (b: bool)
    ensures
        b == !(status@ is Connected || status@ is Connecting),
{
    match status {
        ProviderUiStatus::Connected { .. } | ProviderUiStatus::Connecting => false,
        _ => true,
    }
}

/// Law: the derived status never claims a connection that is not there:
/// it is `Connected` only with the assistant on, a non-blank provider name
/// and a backend wired in, and then names that provider.
pub proof fn law_connected_only_when_wired(enabled: bool, provider: Seq<char>, backend_available: bool)
    ensures
        provider_status_spec(enabled, provider, backend_available) is Connected ==> enabled
            && backend_available && trim(provider).len() > 0,
        provider_status_spec(enabled, provider, backend_available) is Connected
            ==> provider_status_spec(enabled, provider, backend_available)->provider == provider,
{
}

} // verus!
