//! What the agent's commands do to the configuration and what they answer:
//! login, logout, switching the model, starting over, exporting, and
//! recovering credentials at start-up.
//!
//! Writing files, building the model and talking to the session are left to
//! the caller; these functions decide, and render the lines the user sees
//! from what those steps reported.
use vstd::prelude::*;

use crate::config::Config;
use crate::provider::{builtin_providers, provider_named, AuthEntry, ProviderInfo, ProviderView};
use crate::state::AppState;
use crate::text::{join, push_str, string_of, trim, trim_str};

verus! {

/// Lines of text, viewed.
pub open spec fn lines_view(v: Seq<String>) -> Seq<Seq<char>> {
    v.map_values(|s: String| s@)
}

/// An optional string, viewed.
pub open spec fn opt_view(o: Option<String>) -> Option<Seq<char>> {
    match o {
        Some(s) => Some(s@),
        None => None,
    }
}

fn line2(a: &str, b: &str) -> (r: String)
    ensures
        r@ == a@ + b@,
{
    let mut v: Vec<char> = Vec::new();
    push_str(&mut v, a);
    push_str(&mut v, b);
    string_of(v.as_slice())
}

fn line3(a: &str, b: &str, c: &str) -> (r: String)
    ensures
        r@ == a@ + b@ + c@,
{
    let mut v: Vec<char> = Vec::new();
    push_str(&mut v, a);
    push_str(&mut v, b);
    push_str(&mut v, c);
    string_of(v.as_slice())
}

fn line5(a: &str, b: &str, c: &str, d: &str, e: &str) -> (r: String)
    ensures
        r@ == a@ + b@ + c@ + d@ + e@,
{
    let mut v: Vec<char> = Vec::new();
    push_str(&mut v, a);
    push_str(&mut v, b);
    push_str(&mut v, c);
    push_str(&mut v, d);
    push_str(&mut v, e);
    string_of(v.as_slice())
}

// ---------------------------------------------------------------------------
// /login
// ---------------------------------------------------------------------------

/// The names of the built-in providers, in order.
pub open spec fn provider_names() -> Seq<Seq<char>> {
    builtin_providers().map_values(|p: ProviderView| p.name)
}

/// Answer to a login with an unknown provider.
pub open spec fn unknown_provider_msg(name: Seq<char>) -> Seq<char> {
    "Unknown provider: "@ + name + ". Available: "@ + join(provider_names(), ", "@)
}

/// Answer to a login that has no API base to use.
pub open spec fn no_base_msgs(name: Seq<char>) -> Seq<Seq<char>> {
    seq![
        "Provider `"@ + name + "` has no API base."@,
        "Please provide the API base URL when logging in, or set YUSHAN_API_BASE and retry (deepseek / minimax have built-in bases)."@,
    ]
}

/// The API base a login uses: the requested one, trimmed, unless blank;
/// else the provider's own unless empty; else the configured one unless
/// empty. A blank value never overrides another.
pub open spec fn login_base(
    requested: Option<Seq<char>>,
    provider_base: Seq<char>,
    configured: Option<Seq<char>>,
) -> Option<Seq<char>> {
    let req = match requested {
        Some(r) => trim(r),
        None => Seq::empty(),
    };
    if req.len() > 0 {
        Some(req)
    } else if provider_base.len() > 0 {
        Some(provider_base)
    } else {
        match configured {
            Some(c) => if c.len() > 0 {
                Some(c)
            } else {
                None
            },
            None => None,
        }
    }
}

/// The model a login uses: the provider's default, else the configured one.
pub open spec fn login_model(provider_default: Seq<char>, configured: Seq<char>) -> Seq<char> {
    if provider_default.len() == 0 {
        configured
    } else {
        provider_default
    }
}

/// How `/login` ended.
#[derive(Debug)]
pub enum LoginOutcome {
    /// Nothing was changed; the lines to show.
    Refused(Vec<String>),
    /// The configuration and the stored credentials were updated: the model
    /// now in use and the state to remember.
    LoggedIn { model: String, state: AppState },
}

/// The configuration and credentials after a login with these values, the
/// rest of `old` unchanged.
pub open spec fn logged_in(
    old: Config,
    new: Config,
    name: Seq<char>,
    key: Seq<char>,
    base: Seq<char>,
    model: Seq<char>,
) -> bool {
    &&& opt_view(new.api_base) == Some(base)
    &&& opt_view(new.api_key) == Some(key)
    &&& new.model@ == model
    &&& opt_view(new.provider) == Some(name)
    &&& new.cwd == old.cwd
    &&& new.registry.providers_view() == old.registry.providers_view()
    &&& new.registry.cache() == old.registry.cache()
    &&& new.registry.override_path() == old.registry.override_path()
    &&& new.registry.auth().dom() == old.registry.auth().dom().insert(name)
    &&& new.registry.auth().remove(name) == old.registry.auth().remove(name)
    &&& new.registry.auth()[name].api_base@ == base
    &&& new.registry.auth()[name].api_key@ == key
    &&& new.registry.auth()[name].model@ == model
}

pub(crate) fn provider_list() -> (r: String)
    ensures
        r@ == join(provider_names(), ", "@),
{
    let mut v: Vec<char> = Vec::new();
    push_str(&mut v, "deepseek");
    push_str(&mut v, ", ");
    push_str(&mut v, "minimax");
    push_str(&mut v, ", ");
    push_str(&mut v, "custom");
    proof {
        let ns = provider_names();
        assert(ns =~= seq!["deepseek"@, "minimax"@, "custom"@]);
        assert(ns.drop_last() =~= seq!["deepseek"@, "minimax"@]);
        assert(ns.drop_last().drop_last() =~= seq!["deepseek"@]);
        assert(join(ns.drop_last().drop_last(), ", "@) == "deepseek"@);
        assert(join(ns.drop_last(), ", "@) == "deepseek"@ + ", "@ + "minimax"@);
        assert(join(ns, ", "@) == "deepseek"@ + ", "@ + "minimax"@ + ", "@ + "custom"@);
        assert(v@ =~= join(ns, ", "@));
    }
    string_of(v.as_slice())
}

/// Logs in to a provider with a key: picks the API base (see
/// [`login_base`]) and the model (see [`login_model`]), stores the
/// credentials and updates the configuration. An unknown provider, or no API
/// base at all, changes nothing.
pub fn login(
    config: &mut Config,
    provider_name: &str,
    api_key: &str,
    requested_api_base: Option<&str>,
) -> (r: LoginOutcome)
    ensures
        match provider_named(provider_name@) {
            None => r matches LoginOutcome::Refused(lines) && lines_view(lines@) == seq![
                unknown_provider_msg(provider_name@),
            ] && *final(config) == *old(config),
            Some(p) => match login_base(
                match requested_api_base {
                    Some(b) => Some(b@),
                    None => None,
                },
                p.api_base,
                opt_view(old(config).api_base),
            ) {
                None => r matches LoginOutcome::Refused(lines) && lines_view(lines@) == no_base_msgs(
                    provider_name@,
                ) && *final(config) == *old(config),
                Some(base) => {
                    let model = login_model(p.default_model, old(config).model@);
                    &&& r matches LoginOutcome::LoggedIn { model: m, state } && m@ == model
                        && opt_view(state.last_active_provider) == Some(provider_name@) && opt_view(
                        state.last_active_model,
                    ) == Some(model)
                    &&& logged_in(*old(config), *final(config), provider_name@, api_key@, base, model)
                },
            },
        },
{
    let (p_base, p_model) = match config.registry.find_provider(provider_name) {
        Some(p) => (p.api_base.clone(), p.default_model.clone()),
        None => {
            let mut lines: Vec<String> = Vec::new();
            let names = provider_list();
            lines.push(line3("Unknown provider: ", provider_name, ". Available: "));
            let first = lines.pop().unwrap();
            lines.push(line2(first.as_str(), names.as_str()));
            assert(lines_view(lines@) =~= seq![unknown_provider_msg(provider_name@)]);
            return LoginOutcome::Refused(lines);
        },
    };
    let requested: Vec<char> = match requested_api_base {
        Some(b) => trim_str(b),
        None => Vec::new(),
    };
    let base: String = if requested.len() > 0 {
        string_of(requested.as_slice())
    } else if !p_base.as_str().is_empty() {
        p_base
    } else {
        match &config.api_base {
            Some(c) => if !c.as_str().is_empty() {
                c.clone()
            } else {
                let mut lines: Vec<String> = Vec::new();
                lines.push(line3("Provider `", provider_name, "` has no API base."));
                lines.push(
                    "Please provide the API base URL when logging in, or set YUSHAN_API_BASE and retry (deepseek / minimax have built-in bases).".to_owned(),
                );
                assert(lines_view(lines@) =~= no_base_msgs(provider_name@));
                return LoginOutcome::Refused(lines);
            },
            None => {
                let mut lines: Vec<String> = Vec::new();
                lines.push(line3("Provider `", provider_name, "` has no API base."));
                lines.push(
                    "Please provide the API base URL when logging in, or set YUSHAN_API_BASE and retry (deepseek / minimax have built-in bases).".to_owned(),
                );
                assert(lines_view(lines@) =~= no_base_msgs(provider_name@));
                return LoginOutcome::Refused(lines);
            },
        }
    };
    let model: String = if p_model.as_str().is_empty() {
        config.model.clone()
    } else {
        p_model
    };
    let entry = AuthEntry {
        api_base: base.clone(),
        api_key: api_key.to_owned(),
        model: model.clone(),
    };
    config.registry.save_auth(provider_name, &entry);
    config.api_base = Some(base);
    config.api_key = Some(api_key.to_owned());
    config.model = model.clone();
    config.provider = Some(provider_name.to_owned());
    proof {
        let name = provider_name@;
        assert(config.registry.auth().remove(name) =~= old(config).registry.auth().remove(name));
        assert(config.registry.auth().dom() =~= old(config).registry.auth().dom().insert(name));
    }
    let state = AppState {
        last_active_provider: Some(provider_name.to_owned()),
        last_active_model: Some(model.clone()),
    };
    LoginOutcome::LoggedIn { model, state }
}

/// The lines `/login` shows once it has stored the credentials: a warning
/// for each step that failed (writing the credentials, building the model,
/// writing the state), then the confirmation.
pub fn login_lines(
    persist_error: Option<&str>,
    model_built: bool,
    state_error: Option<&str>,
    provider_name: &str,
    model: &str,
) -> (r: Vec<String>)
    ensures
        lines_view(r@) == (match persist_error {
            Some(e) => seq!["Warning: Could not persist credentials: "@ + e@],
            None => Seq::empty(),
        }) + (if model_built {
            Seq::empty()
        } else {
            seq!["Warning: Could not build model. Check API credentials."@]
        }) + (match state_error {
            Some(e) => seq!["Warning: Could not persist state: "@ + e@],
            None => Seq::empty(),
        }) + seq!["\u{2713} Logged in to "@ + provider_name@ + " ("@ + model@ + ")."@],
{
    let mut out: Vec<String> = Vec::new();
    let ghost a = match persist_error {
        Some(e) => seq!["Warning: Could not persist credentials: "@ + e@],
        None => Seq::<Seq<char>>::empty(),
    };
    let ghost b = if model_built {
        Seq::<Seq<char>>::empty()
    } else {
        seq!["Warning: Could not build model. Check API credentials."@]
    };
    let ghost c = match state_error {
        Some(e) => seq!["Warning: Could not persist state: "@ + e@],
        None => Seq::<Seq<char>>::empty(),
    };
    match persist_error {
        Some(e) => out.push(line2("Warning: Could not persist credentials: ", e)),
        None => {},
    }
    assert(lines_view(out@) =~= a);
    if !model_built {
        out.push("Warning: Could not build model. Check API credentials.".to_owned());
    }
    assert(lines_view(out@) =~= a + b);
    match state_error {
        Some(e) => out.push(line2("Warning: Could not persist state: ", e)),
        None => {},
    }
    assert(lines_view(out@) =~= a + b + c);
    out.push(line5("\u{2713} Logged in to ", provider_name, " (", model, ")."));
    assert(lines_view(out@) =~= a + b + c + seq![
        "\u{2713} Logged in to "@ + provider_name@ + " ("@ + model@ + ")."@,
    ]);
    out
}

// ---------------------------------------------------------------------------
// /logout, /model
// ---------------------------------------------------------------------------

/// Logs out: forgets the stored credentials of the provider in use and
/// clears endpoint, key and provider. Tells whether there was a provider (and
/// so credentials to write out again).
pub fn logout(config: &mut Config) -> (had_provider: bool)
    ensures
        had_provider == (old(config).provider is Some),
        final(config).api_base is None,
        final(config).api_key is None,
        final(config).provider is None,
        final(config).model == old(config).model,
        final(config).cwd == old(config).cwd,
        final(config).registry.providers_view() == old(config).registry.providers_view(),
        final(config).registry.cache() == old(config).registry.cache(),
        final(config).registry.override_path() == old(config).registry.override_path(),
        final(config).registry.auth() == match old(config).provider {
            Some(p) => old(config).registry.auth().remove(p@),
            None => old(config).registry.auth(),
        },
{
    let had = match &config.provider {
        Some(name) => {
            let n = name.clone();
            config.registry.remove_auth(n.as_str());
            true
        },
        None => false,
    };
    config.api_base = None;
    config.api_key = None;
    config.provider = None;
    had
}

/// The state to remember after logging out: nothing.
pub fn state_after_logout() -> (s: AppState)
    ensures
        s.last_active_provider is None,
        s.last_active_model is None,
{
    AppState { last_active_provider: None, last_active_model: None }
}

/// The lines `/logout` shows: a warning for each write that failed, then the
/// confirmation.
pub fn logout_lines(remove_error: Option<&str>, state_error: Option<&str>) -> (r: Vec<String>)
    ensures
        lines_view(r@) == (match remove_error {
            Some(e) => seq!["Warning: Could not remove persisted credentials: "@ + e@],
            None => Seq::empty(),
        }) + (match state_error {
            Some(e) => seq!["Warning: Could not persist state: "@ + e@],
            None => Seq::empty(),
        }) + seq!["Logged out. API credentials cleared."@],
{
    let mut out: Vec<String> = Vec::new();
    let ghost a = match remove_error {
        Some(e) => seq!["Warning: Could not remove persisted credentials: "@ + e@],
        None => Seq::<Seq<char>>::empty(),
    };
    let ghost b = match state_error {
        Some(e) => seq!["Warning: Could not persist state: "@ + e@],
        None => Seq::<Seq<char>>::empty(),
    };
    match remove_error {
        Some(e) => out.push(line2("Warning: Could not remove persisted credentials: ", e)),
        None => {},
    }
    assert(lines_view(out@) =~= a);
    match state_error {
        Some(e) => out.push(line2("Warning: Could not persist state: ", e)),
        None => {},
    }
    assert(lines_view(out@) =~= a + b);
    out.push("Logged out. API credentials cleared.".to_owned());
    assert(lines_view(out@) =~= a + b + seq!["Logged out. API credentials cleared."@]);
    out
}

/// Switches the model; gives the state to remember.
pub fn set_model(config: &mut Config, model: &str) -> (state: AppState)
    ensures
        final(config).model@ == model@,
        final(config).api_base == old(config).api_base,
        final(config).api_key == old(config).api_key,
        final(config).provider == old(config).provider,
        final(config).cwd == old(config).cwd,
        final(config).registry == old(config).registry,
        state.last_active_provider == old(config).provider,
        opt_view(state.last_active_model) == Some(model@),
{
    config.model = model.to_owned();
    let provider = match &config.provider {
        Some(p) => Some(p.clone()),
        None => None,
    };
    AppState { last_active_provider: provider, last_active_model: Some(model.to_owned()) }
}

/// The lines `/model <name>` shows: a warning when the state was not
/// written, then whether the model could be built with the credentials.
pub fn set_model_lines(state_error: Option<&str>, model_built: bool, model: &str) -> (r: Vec<String>)
    ensures
        lines_view(r@) == (match state_error {
            Some(e) => seq!["Warning: Could not persist state: "@ + e@],
            None => Seq::empty(),
        }) + if model_built {
            seq!["Model switched to: "@ + model@]
        } else {
            seq![
                "Model set to: "@ + model@,
                "Note: Cannot build model. Check API credentials with /login."@,
            ]
        },
{
    let mut out: Vec<String> = Vec::new();
    let ghost a = match state_error {
        Some(e) => seq!["Warning: Could not persist state: "@ + e@],
        None => Seq::<Seq<char>>::empty(),
    };
    match state_error {
        Some(e) => out.push(line2("Warning: Could not persist state: ", e)),
        None => {},
    }
    assert(lines_view(out@) =~= a);
    if model_built {
        out.push(line2("Model switched to: ", model));
        assert(lines_view(out@) =~= a + seq!["Model switched to: "@ + model@]);
    } else {
        out.push(line2("Model set to: ", model));
        out.push("Note: Cannot build model. Check API credentials with /login.".to_owned());
        assert(lines_view(out@) =~= a + seq![
            "Model set to: "@ + model@,
            "Note: Cannot build model. Check API credentials with /login."@,
        ]);
    }
    out
}

// ---------------------------------------------------------------------------
// /new, /compact
// ---------------------------------------------------------------------------

/// The line `/new` shows for what starting a new session gave: the new
/// session file, none (a session kept in memory), or an error.
pub fn new_session_lines(result: Result<Option<&str>, &str>) -> (r: Vec<String>)
    ensures
        lines_view(r@) == match result {
            Ok(Some(p)) => seq!["New conversation started. Session: "@ + p@],
            Ok(None) => seq!["New conversation started. Session cleared."@],
            Err(e) => seq!["Failed to start new session: "@ + e@],
        },
{
    let mut out: Vec<String> = Vec::new();
    match result {
        Ok(Some(p)) => out.push(line2("New conversation started. Session: ", p)),
        Ok(None) => out.push("New conversation started. Session cleared.".to_owned()),
        Err(e) => out.push(line2("Failed to start new session: ", e)),
    }
    assert(lines_view(out@) =~= match result {
        Ok(Some(p)) => seq!["New conversation started. Session: "@ + p@],
        Ok(None) => seq!["New conversation started. Session cleared."@],
        Err(e) => seq!["Failed to start new session: "@ + e@],
    });
    out
}

/// The line `/compact` shows for what clearing the session gave.
pub fn compact_lines(result: Result<(), &str>) -> (r: Vec<String>)
    ensures
        lines_view(r@) == match result {
            Ok(()) => seq!["Compacting... Session cleared (full compaction TBD)."@],
            Err(e) => seq!["Failed to compact session: "@ + e@],
        },
{
    let mut out: Vec<String> = Vec::new();
    match result {
        Ok(()) => out.push("Compacting... Session cleared (full compaction TBD).".to_owned()),
        Err(e) => out.push(line2("Failed to compact session: ", e)),
    }
    assert(lines_view(out@) =~= match result {
        Ok(()) => seq!["Compacting... Session cleared (full compaction TBD)."@],
        Err(e) => seq!["Failed to compact session: "@ + e@],
    });
    out
}

// ---------------------------------------------------------------------------
// /export
// ---------------------------------------------------------------------------

/// What `/export` has learnt.
#[derive(Debug)]
pub enum ExportEvent {
    /// The command: the session file (none for a session kept in memory)
    /// and the requested target.
    Start { session_path: Option<String>, path: Option<String> },
    /// Whether source and target turned out to be the same file.
    Compared { source: String, target: String, same_file: bool },
    /// What copying gave: the bytes copied, or the error.
    Copied { target: String, result: Result<u64, String> },
}

/// What `/export` does next.
#[derive(Debug, Clone)]
pub enum ExportAction {
    /// Show these lines; done.
    Reply(Vec<String>),
    /// Find out whether the two paths are the same file.
    Compare { source: String, target: String },
    /// Copy the session file to the target.
    Copy { source: String, target: String },
}

/// One step of `/export`. Without a target the session file itself is the
/// target; a target that is the session file is never copied onto (that
/// would truncate it), the session is only said to be persisted.
pub fn export_step(event: ExportEvent) -> (a: ExportAction)
    ensures
        match event {
            ExportEvent::Start { session_path: None, path: _ } => a matches ExportAction::Reply(l)
                && lines_view(l@) == seq![
                "Export: this session is not persisted \u{2014} nothing to export."@,
            ],
            ExportEvent::Start { session_path: Some(s), path } => a matches ExportAction::Compare {
                source,
                target,
            } && source == s && target == match path {
                Some(p) => p,
                None => s,
            },
            ExportEvent::Compared { source, target, same_file } => if same_file {
                a matches ExportAction::Reply(l) && lines_view(l@) == seq![
                    "Session already persisted at "@ + source@,
                ]
            } else {
                a matches ExportAction::Copy { source: s2, target: t2 } && s2 == source && t2
                    == target
            },
            ExportEvent::Copied { target, result } => a matches ExportAction::Reply(l) && lines_view(
                l@,
            ) == seq![
                match result {
                    Ok(n) => "Exported "@ + crate::text::dec(n as nat) + " byte(s) to "@ + target@,
                    Err(e) => "Export failed: "@ + e@,
                },
            ],
        },
{
    match event {
        ExportEvent::Start { session_path: None, path: _ } => {
            let mut l: Vec<String> = Vec::new();
            l.push("Export: this session is not persisted \u{2014} nothing to export.".to_owned());
            assert(lines_view(l@) =~= seq![
                "Export: this session is not persisted \u{2014} nothing to export."@,
            ]);
            ExportAction::Reply(l)
        },
        ExportEvent::Start { session_path: Some(s), path } => {
            let target = match path {
                Some(p) => p,
                None => s.clone(),
            };
            ExportAction::Compare { source: s, target }
        },
        ExportEvent::Compared { source, target, same_file } => {
            if same_file {
                let mut l: Vec<String> = Vec::new();
                l.push(line2("Session already persisted at ", source.as_str()));
                assert(lines_view(l@) =~= seq!["Session already persisted at "@ + source@]);
                ExportAction::Reply(l)
            } else {
                ExportAction::Copy { source, target }
            }
        },
        ExportEvent::Copied { target, result } => {
            let mut v: Vec<char> = Vec::new();
            match &result {
                Ok(n) => {
                    push_str(&mut v, "Exported ");
                    let d = crate::text::dec_u64(*n);
                    crate::text::push_all(&mut v, d.as_slice());
                    push_str(&mut v, " byte(s) to ");
                    push_str(&mut v, target.as_str());
                },
                Err(e) => {
                    push_str(&mut v, "Export failed: ");
                    push_str(&mut v, e.as_str());
                },
            }
            let mut l: Vec<String> = Vec::new();
            l.push(string_of(v.as_slice()));
            assert(lines_view(l@) =~= seq![
                match result {
                    Ok(n) => "Exported "@ + crate::text::dec(n as nat) + " byte(s) to "@ + target@,
                    Err(e) => "Export failed: "@ + e@,
                },
            ]);
            ExportAction::Reply(l)
        },
    }
}

// ---------------------------------------------------------------------------
// Start-up
// ---------------------------------------------------------------------------

/// Index of the first built-in provider with credentials in `dom`.
pub open spec fn first_with_auth(dom: Set<Seq<char>>) -> Option<int> {
    let ps = builtin_providers();
    if exists|i: int| 0 <= i < ps.len() && dom.contains(#[trigger] ps[i].name) {
        Some(
            choose|i: int|
                (0 <= i < ps.len() && dom.contains(#[trigger] ps[i].name)) && forall|j: int|
                    0 <= j < i ==> !dom.contains(#[trigger] ps[j].name),
        )
    } else {
        None
    }
}

/// `new` is `old` with endpoint, key, model and provider taken from
/// credentials.
pub open spec fn recovered(old: Config, new: Config, entry: AuthEntry, model: Seq<char>, name: Seq<char>) -> bool {
    &&& new.api_base == Some(entry.api_base)
    &&& new.api_key == Some(entry.api_key)
    &&& new.model@ == model
    &&& opt_view(new.provider) == Some(name)
    &&& new.cwd == old.cwd
    &&& new.registry == old.registry
}

/// At start-up, when the environment did not give both endpoint and key:
/// takes them from the credentials of the provider used last (with the model
/// used last, else the stored one); failing that, from the first provider
/// with credentials (with its stored model). Otherwise nothing changes.
pub fn recover_credentials(config: &mut Config, saved: &AppState)
    ensures
        ({
            let auth = old(config).registry.auth();
            if old(config).api_base is Some && old(config).api_key is Some {
                *final(config) == *old(config)
            } else if saved.last_active_provider is Some && provider_named(
                saved.last_active_provider->0@,
            ) is Some && auth.dom().contains(saved.last_active_provider->0@) {
                let n = saved.last_active_provider->0@;
                let e = auth[n];
                recovered(
                    *old(config),
                    *final(config),
                    e,
                    match saved.last_active_model {
                        Some(m) => m@,
                        None => e.model@,
                    },
                    n,
                )
            } else {
                match first_with_auth(auth.dom()) {
                    Some(i) => {
                        let n = builtin_providers()[i].name;
                        recovered(*old(config), *final(config), auth[n], auth[n].model@, n)
                    },
                    None => *final(config) == *old(config),
                }
            }
        }),
{
    if config.is_configured() {
        return;
    }
    let providers = config.registry.providers();
    match &saved.last_active_provider {
        Some(name) => {
            let known = config.registry.find_provider(name.as_str()).is_some();
            match config.registry.auth_for(name.as_str()) {
                Some(entry) => {
                    if known {
                        let base = entry.api_base.clone();
                        let key = entry.api_key.clone();
                        let model = match &saved.last_active_model {
                            Some(m) => m.clone(),
                            None => entry.model.clone(),
                        };
                        let pname = name.clone();
                        config.api_base = Some(base);
                        config.api_key = Some(key);
                        config.model = model;
                        config.provider = Some(pname);
                        return;
                    }
                },
                None => {},
            }
        },
        None => {},
    }
    let ghost ps = builtin_providers();
    let ghost dom = config.registry.auth().dom();
    let mut i: usize = 0;
    while i < providers.len()
        invariant
            i <= providers.len(),
            providers@.map_values(|p: ProviderInfo| p@) == ps,
            ps == builtin_providers(),
            dom == config.registry.auth().dom(),
            *config == *old(config),
            !(old(config).api_base is Some && old(config).api_key is Some),
            !(saved.last_active_provider is Some && provider_named(
                saved.last_active_provider->0@,
            ) is Some && dom.contains(saved.last_active_provider->0@)),
            forall|j: int| 0 <= j < i ==> !dom.contains(#[trigger] ps[j].name),
        decreases providers.len() - i,
    {
        assert(providers@.map_values(|p: ProviderInfo| p@)[i as int] == providers@[i as int]@);
        match config.registry.auth_for(providers[i].name.as_str()) {
            Some(entry) => {
                let base = entry.api_base.clone();
                let key = entry.api_key.clone();
                let model = entry.model.clone();
                let pname = providers[i].name.clone();
                proof {
                    let c = choose|c: int|
                        (0 <= c < ps.len() && dom.contains(#[trigger] ps[c].name)) && forall|j: int|
                            0 <= j < c ==> !dom.contains(#[trigger] ps[j].name);
                    assert(dom.contains(ps[i as int].name));
                    if c < i {
                        assert(!dom.contains(ps[c].name));
                    } else if c > i {
                        assert(!dom.contains(ps[i as int].name));
                    }
                }
                config.api_base = Some(base);
                config.api_key = Some(key);
                config.model = model;
                config.provider = Some(pname);
                return;
            },
            None => {},
        }
        i += 1;
    }
}


/// A blank requested API base counts as none: the provider's or the
/// configured base is used as if nothing had been asked for.
pub proof fn law_blank_base_falls_back(requested: Seq<char>, provider_base: Seq<char>, configured: Option<Seq<char>>)
    requires
        trim(requested).len() == 0,
    ensures
        login_base(Some(requested), provider_base, configured) == login_base(
            None,
            provider_base,
            configured,
        ),
{
}

/// The API base a login uses is never empty, and an explicit non-blank
/// request always wins.
pub proof fn law_login_base_never_empty(requested: Option<Seq<char>>, provider_base: Seq<char>, configured: Option<Seq<char>>)
    ensures
        login_base(requested, provider_base, configured) matches Some(b) ==> b.len() > 0,
        (requested matches Some(r) && trim(r).len() > 0) ==> login_base(
            requested,
            provider_base,
            configured,
        ) == Some(trim(requested->0)),
{
}

} // verus!
