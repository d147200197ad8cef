//! The interactive `/login` and `/model` commands, step by step: each step
//! takes what the user answered and says what to ask or do next.
use vstd::prelude::*;

use crate::capabilities::{lines_view, provider_list, provider_names};
use crate::commands::{CommandError, CommandResult, LoginCommand, ModelCommand, PromptError};
use crate::config::Config;
use crate::provider::{
    builtin_providers, provider_named, ApiModel, AuthEntry, FetchModelsResult, ProviderInfo,
    ProviderRegistry, ProviderView,
};
use crate::state::AppState;
use crate::text::{is_prefix, push_str, starts_with, str_eq, string_of, trim, trim_str};

verus! {

/// What an interactive `/login` does next.
#[derive(Debug)]
pub enum LoginStep {
    /// Ask the user to pick one of these provider labels.
    PickProvider { labels: Vec<String> },
    /// Ask for the API base URL of the provider at this index.
    AskBase { provider: usize },
    /// Ask for the API key.
    AskKey { provider: usize, api_base: String },
    /// Everything is known: log in (see [`LoginCommand::apply`]).
    Ready { provider: usize, api_base: String, api_key: String },
    /// Over: print these lines, end with this result.
    Done { lines: Vec<String>, result: Result<CommandResult, CommandError> },
}

/// A provider's label in the picker; a check mark when it has credentials.
pub open spec fn provider_label(p: ProviderView, has_auth: bool) -> Seq<char> {
    let status = if has_auth {
        " \u{2713}"@
    } else {
        Seq::empty()
    };
    if p.name == "custom"@ {
        "Custom (manual URL)"@ + status
    } else {
        p.name + " ("@ + p.api_base + ")"@ + status
    }
}

/// A label picks the provider: `Custom...` the custom endpoint, any other
/// label the provider whose name it starts with.
pub open spec fn label_picks(label: Seq<char>, p: ProviderView) -> bool {
    if p.name == "custom"@ {
        is_prefix("Custom"@, label)
    } else {
        is_prefix(p.name, label)
    }
}

/// The index of the first provider a label picks.
pub open spec fn picked_index(label: Seq<char>, i: int) -> bool {
    let ps = builtin_providers();
    0 <= i < ps.len() && label_picks(label, ps[i]) && forall|j: int|
        0 <= j < i ==> !label_picks(label, #[trigger] ps[j])
}

/// The step after the provider at `i` is known: ask for its API base when
/// it has none, else for the key.
pub open spec fn after_provider(i: int, step: LoginStep) -> bool {
    let p = builtin_providers()[i];
    if p.api_base.len() == 0 {
        step matches LoginStep::AskBase { provider } && provider == i
    } else {
        step matches LoginStep::AskKey { provider, api_base } && provider == i && api_base@ == p.api_base
    }
}

/// The end of a cancelled `/login`.
pub open spec fn cancelled(step: LoginStep) -> bool {
    step matches LoginStep::Done { lines, result } && lines_view(lines@) == seq!["Login cancelled."@]
        && result == Ok::<CommandResult, CommandError>(CommandResult::Continue)
}

/// The end of a failed `/login`.
pub open spec fn failed(step: LoginStep, e: CommandError) -> bool {
    step matches LoginStep::Done { lines, result } && lines@.len() == 0 && result == Err::<
        CommandResult,
        CommandError,
    >(e)
}

fn done_err(e: CommandError) -> (s: LoginStep)
    ensures
        failed(s, e),
{
    LoginStep::Done { lines: Vec::new(), result: Err(e) }
}

fn done_cancelled() -> (s: LoginStep)
    ensures
        cancelled(s),
{
    let mut lines: Vec<String> = Vec::new();
    lines.push("Login cancelled.".to_owned());
    assert(lines_view(lines@) =~= seq!["Login cancelled."@]);
    LoginStep::Done { lines, result: Ok(CommandResult::Continue) }
}

fn internal_error(a: &str, b: &str) -> (e: CommandError)
    ensures
        e matches CommandError::Internal(m) && m@ == a@ + b@,
{
    let mut v: Vec<char> = Vec::new();
    push_str(&mut v, a);
    push_str(&mut v, b);
    CommandError::Internal(string_of(v.as_slice()))
}

fn next_after_provider(providers: &[ProviderInfo], i: usize) -> (s: LoginStep)
    requires
        providers@.map_values(|p: ProviderInfo| p@) == builtin_providers(),
        i < providers.len(),
    ensures
        after_provider(i as int, s),
{
    assert(providers@.map_values(|p: ProviderInfo| p@)[i as int] == providers@[i as int]@);
    if providers[i].api_base.as_str().is_empty() {
        LoginStep::AskBase { provider: i }
    } else {
        LoginStep::AskKey { provider: i, api_base: providers[i].api_base.clone() }
    }
}

/// Index of the first provider named `name`.
fn provider_index(providers: &[ProviderInfo], name: &str) -> (r: Option<usize>)
    requires
        providers@.map_values(|p: ProviderInfo| p@) == builtin_providers(),
    ensures
        match r {
            Some(i) => crate::provider::first_named(builtin_providers(), name@) == Some(i as int)
                && i < providers.len(),
            None => crate::provider::first_named(builtin_providers(), name@) is None,
        },
{
    let ghost ps = builtin_providers();
    let mut i: usize = 0;
    while i < providers.len()
        invariant
            i <= providers.len(),
            providers@.map_values(|p: ProviderInfo| p@) == ps,
            ps == builtin_providers(),
            forall|j: int| 0 <= j < i ==> !crate::provider::named_at(ps, name@, j),
        decreases providers.len() - i,
    {
        assert(providers@.map_values(|p: ProviderInfo| p@)[i as int] == providers@[i as int]@);
        if str_eq(providers[i].name.as_str(), name) {
            proof {
                let c = choose|c: int|
                    crate::provider::named_at(ps, name@, c) && forall|j: int|
                        0 <= j < c ==> !crate::provider::named_at(ps, name@, j);
                assert(crate::provider::named_at(ps, name@, i as int));
                if c < i {
                    assert(!crate::provider::named_at(ps, name@, c));
                } else if c > i {
                    assert(!crate::provider::named_at(ps, name@, i as int));
                }
            }
            return Some(i);
        }
        i += 1;
    }
    None
}

impl LoginCommand {
    /// The first step: without an argument, the provider picker (labels in
    /// provider order); with one, the provider of that name, or an error
    /// listing the known ones.
    pub fn start(&self, args: &str, registry: &ProviderRegistry) -> (s: LoginStep)
        ensures
            ({
                let arg = trim(args@);
                let ps = builtin_providers();
                if arg.len() == 0 {
                    s matches LoginStep::PickProvider { labels } && lines_view(labels@)
                        == ps.map_values(
                        |p: ProviderView| provider_label(p, registry.auth().dom().contains(p.name)),
                    )
                } else {
                    match crate::provider::first_named(ps, arg) {
                        Some(i) => after_provider(i, s),
                        None => exists|m: String|
                            failed(s, CommandError::UserError(m)) && m@ == "Unknown provider: "@
                                + arg + ". Available: "@ + crate::text::join(provider_names(), ", "@),
                    }
                }
            }),
    {
        let providers = registry.providers();
        let arg = trim_str(args);
        if arg.len() == 0 {
            let mut labels: Vec<String> = Vec::new();
            let mut i: usize = 0;
            let ghost ps = builtin_providers();
            let ghost f = |p: ProviderView| provider_label(p, registry.auth().dom().contains(p.name));
            while i < providers.len()
                invariant
                    i <= providers.len(),
                    providers@.map_values(|p: ProviderInfo| p@) == ps,
                    ps == builtin_providers(),
                    f == (|p: ProviderView| provider_label(p, registry.auth().dom().contains(p.name))),
                    lines_view(labels@) == ps.take(i as int).map_values(f),
                decreases providers.len() - i,
            {
                assert(providers@.map_values(|p: ProviderInfo| p@)[i as int] == providers@[i as int]@);
                let p = &providers[i];
                let has = registry.auth_for(p.name.as_str()).is_some();
                let mut v: Vec<char> = Vec::new();
                if str_eq(p.name.as_str(), "custom") {
                    push_str(&mut v, "Custom (manual URL)");
                } else {
                    push_str(&mut v, p.name.as_str());
                    push_str(&mut v, " (");
                    push_str(&mut v, p.api_base.as_str());
                    push_str(&mut v, ")");
                }
                if has {
                    push_str(&mut v, " \u{2713}");
                }
                let ghost before = lines_view(labels@);
                labels.push(string_of(v.as_slice()));
                proof {
                    assert(v@ =~= provider_label(ps[i as int], has));
                    assert(ps.take(i as int + 1).map_values(f) =~= ps.take(i as int).map_values(f).push(
                        f(ps[i as int]),
                    ));
                    assert(lines_view(labels@) =~= before.push(v@));
                }
                i += 1;
            }
            assert(ps.take(ps.len() as int) =~= ps);
            return LoginStep::PickProvider { labels };
        }
        let argstr = string_of(arg.as_slice());
        match provider_index(providers, argstr.as_str()) {
            Some(i) => next_after_provider(providers, i),
            None => {
                let names = provider_list();
                let mut v: Vec<char> = Vec::new();
                push_str(&mut v, "Unknown provider: ");
                push_str(&mut v, argstr.as_str());
                push_str(&mut v, ". Available: ");
                push_str(&mut v, names.as_str());
                let m = string_of(v.as_slice());
                done_err(CommandError::UserError(m))
            },
        }
    }

    /// After the picker: the provider the label picks (see [`label_picks`]);
    /// a cancelled pick ends quietly, a failed one with an error.
    pub fn picked(&self, registry: &ProviderRegistry, selection: Result<String, PromptError>) -> (s: LoginStep)
        ensures
            match selection {
                Ok(label) => if exists|i: int| picked_index(label@, i) {
                    exists|i: int| #![trigger picked_index(label@, i)] picked_index(label@, i) && after_provider(i, s)
                } else {
                    exists|m: String|
                        failed(s, CommandError::Internal(m)) && m@ == "Could not find provider for: "@
                            + label@
                },
                Err(PromptError::Cancelled) => cancelled(s),
                Err(PromptError::Other(e)) => exists|m: String|
                    failed(s, CommandError::Internal(m)) && m@ == "Selection error: "@ + e@,
            },
    {
        let label = match selection {
            Ok(l) => l,
            Err(PromptError::Cancelled) => {
                return done_cancelled();
            },
            Err(PromptError::Other(e)) => {
                let err = internal_error("Selection error: ", e.as_str());
                let s = done_err(err);
                return s;
            },
        };
        let providers = registry.providers();
        let lc = crate::text::chars_of(label.as_str());
        let custom = crate::text::chars_of("Custom");
        let ghost ps = builtin_providers();
        let mut i: usize = 0;
        while i < providers.len()
            invariant
                i <= providers.len(),
                providers@.map_values(|p: ProviderInfo| p@) == ps,
                ps == builtin_providers(),
                lc@ == label@,
                custom@ == "Custom"@,
                selection == Ok::<String, PromptError>(label),
                forall|j: int| 0 <= j < i ==> !label_picks(label@, #[trigger] ps[j]),
            decreases providers.len() - i,
        {
            assert(providers@.map_values(|p: ProviderInfo| p@)[i as int] == providers@[i as int]@);
            let p = &providers[i];
            let picks = if str_eq(p.name.as_str(), "custom") {
                starts_with(lc.as_slice(), custom.as_slice())
            } else {
                let nc = crate::text::chars_of(p.name.as_str());
                starts_with(lc.as_slice(), nc.as_slice())
            };
            if picks {
                assert(picked_index(label@, i as int));
                return next_after_provider(providers, i);
            }
            i += 1;
        }
        assert(!exists|i: int| picked_index(label@, i));
        let err = internal_error("Could not find provider for: ", label.as_str());
        done_err(err)
    }

    /// After the API base was asked: a non-empty answer leads to the key, an
    /// empty one is an error.
    pub fn base_entered(&self, provider: usize, input: Result<String, PromptError>) -> (s: LoginStep)
        ensures
            match input {
                Ok(b) => if b@.len() > 0 {
                    s matches LoginStep::AskKey { provider: p, api_base } && p == provider && api_base
                        == b
                } else {
                    exists|m: String|
                        failed(s, CommandError::UserError(m)) && m@ == "API base URL is required."@
                },
                Err(PromptError::Cancelled) => cancelled(s),
                Err(PromptError::Other(e)) => exists|m: String|
                    failed(s, CommandError::Internal(m)) && m@ == "Input error: "@ + e@,
            },
    {
        match input {
            Ok(b) => if !b.as_str().is_empty() {
                LoginStep::AskKey { provider, api_base: b }
            } else {
                let m = "API base URL is required.".to_owned();
                done_err(CommandError::UserError(m))
            },
            Err(PromptError::Cancelled) => done_cancelled(),
            Err(PromptError::Other(e)) => {
                let err = internal_error("Input error: ", e.as_str());
                done_err(err)
            },
        }
    }

    /// After the key was asked: a non-empty key completes the login's
    /// inputs, an empty one is an error.
    pub fn key_entered(&self, provider: usize, api_base: String, input: Result<String, PromptError>) -> (s: LoginStep)
        ensures
            match input {
                Ok(k) => if k@.len() > 0 {
                    s matches LoginStep::Ready { provider: p, api_base: b, api_key } && p == provider
                        && b == api_base && api_key == k
                } else {
                    exists|m: String|
                        failed(s, CommandError::UserError(m)) && m@ == "API key is required."@
                },
                Err(PromptError::Cancelled) => cancelled(s),
                Err(PromptError::Other(e)) => exists|m: String|
                    failed(s, CommandError::Internal(m)) && m@ == "Input error: "@ + e@,
            },
    {
        match input {
            Ok(k) => if !k.as_str().is_empty() {
                LoginStep::Ready { provider, api_base, api_key: k }
            } else {
                let m = "API key is required.".to_owned();
                done_err(CommandError::UserError(m))
            },
            Err(PromptError::Cancelled) => done_cancelled(),
            Err(PromptError::Other(e)) => {
                let err = internal_error("Input error: ", e.as_str());
                done_err(err)
            },
        }
    }
}

/// A line of output and where it goes.
#[derive(Debug, Clone)]
pub struct Output {
    /// Standard error rather than standard output.
    pub to_stderr: bool,
    pub text: String,
}

/// Outputs, viewed.
pub open spec fn outputs_view(v: Seq<Output>) -> Seq<(bool, Seq<char>)> {
    v.map_values(|o: Output| (o.to_stderr, o.text@))
}

/// What fetching the model list says.
pub open spec fn fetch_msg(f: FetchModelsResult) -> Seq<char> {
    match f {
        FetchModelsResult::Success(v) => "Fetched "@ + crate::text::dec(v@.len()) + " model(s)."@,
        FetchModelsResult::AuthError(e) => "Warning: Could not fetch models (auth error): "@ + e@,
        FetchModelsResult::NetworkError(e) => "Warning: Could not fetch models (network error): "@
            + e@,
    }
}

fn out(to_stderr: bool, a: &str, b: &str) -> (o: Output)
    ensures
        o.to_stderr == to_stderr,
        o.text@ == a@ + b@,
{
    let mut v: Vec<char> = Vec::new();
    push_str(&mut v, a);
    push_str(&mut v, b);
    Output { to_stderr, text: string_of(v.as_slice()) }
}

impl LoginCommand {
    /// Logs in with the gathered answers: the model is the provider's
    /// default, else `deepseek-chat`; the credentials are stored and the
    /// configuration updated. Gives the model and the state to remember.
    pub fn apply(&self, config: &mut Config, provider: usize, api_base: String, api_key: String) -> (r: (String, AppState))
        requires
            provider < builtin_providers().len(),
        ensures
            ({
                let p = builtin_providers()[provider as int];
                let model = if p.default_model.len() == 0 {
                    "deepseek-chat"@
                } else {
                    p.default_model
                };
                &&& r.0@ == model
                &&& crate::capabilities::opt_view(r.1.last_active_provider) == Some(p.name)
                &&& crate::capabilities::opt_view(r.1.last_active_model) == Some(model)
                &&& crate::capabilities::logged_in(
                    *old(config),
                    *final(config),
                    p.name,
                    api_key@,
                    api_base@,
                    model,
                )
            }),
    {
        let providers = config.registry.providers();
        assert(providers@.map_values(|p: ProviderInfo| p@)[provider as int] == providers@[provider as int]@);
        let name = providers[provider].name.clone();
        let model: String = if providers[provider].default_model.as_str().is_empty() {
            "deepseek-chat".to_owned()
        } else {
            providers[provider].default_model.clone()
        };
        let entry = AuthEntry {
            api_base: api_base.clone(),
            api_key: api_key.clone(),
            model: model.clone(),
        };
        config.registry.save_auth(name.as_str(), &entry);
        config.api_base = Some(api_base);
        config.api_key = Some(api_key);
        config.model = model.clone();
        config.provider = Some(name.clone());
        proof {
            let n = name@;
            assert(config.registry.auth().remove(n) =~= old(config).registry.auth().remove(n));
            assert(config.registry.auth().dom() =~= old(config).registry.auth().dom().insert(n));
        }
        let state = AppState { last_active_provider: Some(name), last_active_model: Some(model.clone()) };
        (model, state)
    }

    /// What a completed login prints: a warning on standard error for each
    /// step that failed (writing the credentials, building the model), what
    /// fetching the model list gave, a warning when the state was not
    /// written, then a blank line and the confirmation.
    pub fn report(
        &self,
        persist_error: Option<&str>,
        model_built: bool,
        fetched: &FetchModelsResult,
        state_error: Option<&str>,
        provider: &str,
        model: &str,
    ) -> (r: Vec<Output>)
        ensures
            outputs_view(r@) == (match persist_error {
                Some(e) => seq![(true, "Warning: Could not persist credentials: "@ + e@)],
                None => Seq::empty(),
            }) + (if model_built {
                Seq::empty()
            } else {
                seq![(true, "Warning: Could not build model. Check API credentials."@)]
            }) + seq![(false, fetch_msg(*fetched))] + (match state_error {
                Some(e) => seq![(true, "Warning: Could not persist state: "@ + e@)],
                None => Seq::empty(),
            }) + seq![
                (false, Seq::empty()),
                (false, "\u{2713} Logged in to "@ + provider@ + " ("@ + model@ + ")."@),
            ],
    {
        let mut r: Vec<Output> = Vec::new();
        let ghost a = match persist_error {
            Some(e) => seq![(true, "Warning: Could not persist credentials: "@ + e@)],
            None => Seq::<(bool, Seq<char>)>::empty(),
        };
        match persist_error {
            Some(e) => r.push(out(true, "Warning: Could not persist credentials: ", e)),
            None => {},
        }
        assert(outputs_view(r@) =~= a);
        let ghost b = if model_built {
            Seq::<(bool, Seq<char>)>::empty()
        } else {
            seq![(true, "Warning: Could not build model. Check API credentials."@)]
        };
        if !model_built {
            r.push(
                Output {
                    to_stderr: true,
                    text: "Warning: Could not build model. Check API credentials.".to_owned(),
                },
            );
        }
        assert(outputs_view(r@) =~= a + b);
        let mut v: Vec<char> = Vec::new();
        match fetched {
            FetchModelsResult::Success(models) => {
                push_str(&mut v, "Fetched ");
                let d = crate::text::dec_u64(models.len() as u64);
                crate::text::push_all(&mut v, d.as_slice());
                push_str(&mut v, " model(s).");
            },
            FetchModelsResult::AuthError(e) => {
                push_str(&mut v, "Warning: Could not fetch models (auth error): ");
                push_str(&mut v, e.as_str());
            },
            FetchModelsResult::NetworkError(e) => {
                push_str(&mut v, "Warning: Could not fetch models (network error): ");
                push_str(&mut v, e.as_str());
            },
        }
        r.push(Output { to_stderr: false, text: string_of(v.as_slice()) });
        assert(outputs_view(r@) =~= a + b + seq![(false, fetch_msg(*fetched))]);
        let ghost c = match state_error {
            Some(e) => seq![(true, "Warning: Could not persist state: "@ + e@)],
            None => Seq::<(bool, Seq<char>)>::empty(),
        };
        match state_error {
            Some(e) => r.push(out(true, "Warning: Could not persist state: ", e)),
            None => {},
        }
        assert(outputs_view(r@) =~= a + b + seq![(false, fetch_msg(*fetched))] + c);
        r.push(Output { to_stderr: false, text: String::new() });
        let mut w: Vec<char> = Vec::new();
        push_str(&mut w, "\u{2713} Logged in to ");
        push_str(&mut w, provider);
        push_str(&mut w, " (");
        push_str(&mut w, model);
        push_str(&mut w, ").");
        r.push(Output { to_stderr: false, text: string_of(w.as_slice()) });
        assert(outputs_view(r@) =~= a + b + seq![(false, fetch_msg(*fetched))] + c + seq![
            (false, Seq::<char>::empty()),
            (false, "\u{2713} Logged in to "@ + provider@ + " ("@ + model@ + ")."@),
        ]);
        r
    }
}

// ---------------------------------------------------------------------------
// /model
// ---------------------------------------------------------------------------

/// A model's label in the picker: the current one marked.
pub open spec fn model_label(id: Seq<char>, current: Seq<char>) -> Seq<char> {
    if id == current {
        "\u{2713} "@ + id
    } else {
        id
    }
}

/// The model a picked label names: the label without its mark.
pub open spec fn label_model(label: Seq<char>) -> Seq<char> {
    if is_prefix("\u{2713} "@, label) {
        label.skip(("\u{2713} "@).len() as int)
    } else {
        label
    }
}

impl ModelCommand {
    /// The model named in the arguments, if any (trimmed).
    pub fn target(&self, args: &str) -> (r: Option<String>)
        ensures
            match r {
                Some(t) => t@ == trim(args@) && t@.len() > 0,
                None => trim(args@).len() == 0,
            },
    {
        let t = trim_str(args);
        if t.len() == 0 {
            None
        } else {
            Some(string_of(t.as_slice()))
        }
    }

    /// The picker's labels for the models offered.
    pub fn labels(&self, models: &[ApiModel], current: &str) -> (r: Vec<String>)
        ensures
            lines_view(r@) == models@.map_values(|m: ApiModel| model_label(m.id@, current@)),
    {
        let mut r: Vec<String> = Vec::new();
        let mut i: usize = 0;
        let ghost f = |m: ApiModel| model_label(m.id@, current@);
        while i < models.len()
            invariant
                i <= models.len(),
                f == (|m: ApiModel| model_label(m.id@, current@)),
                lines_view(r@) == models@.take(i as int).map_values(f),
            decreases models.len() - i,
        {
            let ghost before = lines_view(r@);
            let id = models[i].id.as_str();
            let mut v: Vec<char> = Vec::new();
            if str_eq(id, current) {
                push_str(&mut v, "\u{2713} ");
            }
            push_str(&mut v, id);
            r.push(string_of(v.as_slice()));
            proof {
                assert(v@ =~= f(models@[i as int]));
                assert(models@.take(i as int + 1).map_values(f) =~= models@.take(i as int).map_values(f).push(
                    f(models@[i as int]),
                ));
                assert(lines_view(r@) =~= before.push(v@));
            }
            i += 1;
        }
        assert(models@.take(models.len() as int) =~= models@);
        r
    }

    /// After the picker: the model the label names, when it is among those
    /// offered; nothing when the pick was cancelled.
    pub fn picked(&self, models: &[ApiModel], selection: Result<String, PromptError>) -> (r: Result<Option<String>, CommandError>)
        ensures
            match selection {
                Ok(label) => {
                    let id = label_model(label@);
                    if exists|i: int| 0 <= i < models@.len() && #[trigger] models@[i].id@ == id {
                        r matches Ok(Some(m)) && m@ == id
                    } else {
                        r matches Err(CommandError::Internal(m)) && m@ == "Could not find model for: "@
                            + id
                    }
                },
                Err(PromptError::Cancelled) => r matches Ok(None),
                Err(PromptError::Other(e)) => r matches Err(CommandError::Internal(m)) && m@
                    == "Selection error: "@ + e@,
            },
    {
        let label = match selection {
            Ok(l) => l,
            Err(PromptError::Cancelled) => {
                return Ok(None);
            },
            Err(PromptError::Other(e)) => {
                return Err(internal_error("Selection error: ", e.as_str()));
            },
        };
        let lc = crate::text::chars_of(label.as_str());
        let mark = crate::text::chars_of("\u{2713} ");
        let id_chars = if starts_with(lc.as_slice(), mark.as_slice()) {
            crate::text::slice_to_vec(lc.as_slice(), mark.len(), lc.len())
        } else {
            lc.clone()
        };
        let id = string_of(id_chars.as_slice());
        assert(id@ == label_model(label@));
        let mut i: usize = 0;
        while i < models.len()
            invariant
                i <= models.len(),
                selection == Ok::<String, PromptError>(label),
                id@ == label_model(label@),
                forall|j: int| 0 <= j < i ==> #[trigger] models@[j].id@ != id@,
            decreases models.len() - i,
        {
            if str_eq(models[i].id.as_str(), id.as_str()) {
                return Ok(Some(models[i].id.clone()));
            }
            i += 1;
        }
        Err(internal_error("Could not find model for: ", id.as_str()))
    }
}

} // verus!
