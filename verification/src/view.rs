//! The snapshot the UI is sent after each request: where the agent runs,
//! which provider and model are in use, who is logged in, the models
//! offered, the token counts, the session, and whether this is the first
//! run.
use vstd::prelude::*;

use crate::config::Config;
use crate::provider::{builtin_providers, known_models, names_with_auth, ProviderInfo, ProviderRegistry, ProviderView};
use crate::status::TurnStats;
use crate::text::str_eq;

verus! {

/// The model the display names: the model stored with the credentials of
/// the provider in use when that is not empty, else the configured model.
pub open spec fn bound_model(cfg: Config) -> Seq<char> {
    match cfg.provider {
        Some(p) => if cfg.registry.auth().dom().contains(p@) && cfg.registry.auth()[p@].model@.len() > 0 {
            cfg.registry.auth()[p@].model@
        } else {
            cfg.model@
        },
        None => cfg.model@,
    }
}

/// The models offered for switching: the built-in list, and the bound
/// model after it when that is not empty and not already listed.
pub open spec fn offered_models(cfg: Config) -> Seq<Seq<char>> {
    let ids = known_models().map_values(|m: (Seq<char>, Option<Seq<char>>)| m.0);
    let b = bound_model(cfg);
    if b.len() > 0 && !ids.contains(b) {
        ids.push(b)
    } else {
        ids
    }
}

/// The models offered for switching (see [`offered_models`]).
pub fn available_models(cfg: &Config) -> (r: Vec<String>)
    ensures
        r@.map_values(|s: String| s@) == offered_models(*cfg),
{
    let bound: String = match &cfg.provider {
        Some(p) => match cfg.registry.auth_for(p.as_str()) {
            Some(entry) => if !entry.model.as_str().is_empty() {
                entry.model.clone()
            } else {
                cfg.model.clone()
            },
            None => cfg.model.clone(),
        },
        None => cfg.model.clone(),
    };
    let models = ProviderRegistry::known_models_static();
    let ghost ids = known_models().map_values(|m: (Seq<char>, Option<Seq<char>>)| m.0);
    let mut r: Vec<String> = Vec::new();
    let mut present = false;
    let mut i: usize = 0;
    while i < models.len()
        invariant
            i <= models.len(),
            crate::provider::models_view(models@) == known_models(),
            ids == known_models().map_values(|m: (Seq<char>, Option<Seq<char>>)| m.0),
            r@.map_values(|s: String| s@) == ids.take(i as int),
            present == ids.take(i as int).contains(bound@),
        decreases models.len() - i,
    {
        let ghost before = r@.map_values(|s: String| s@);
        assert(crate::provider::models_view(models@)[i as int].0 == models@[i as int].id@);
        let id = models[i].id.clone();
        if str_eq(id.as_str(), bound.as_str()) {
            present = true;
        }
        r.push(id);
        proof {
            assert(ids.take(i as int + 1) =~= ids.take(i as int).push(ids[i as int]));
            assert(r@.map_values(|s: String| s@) =~= before.push(ids[i as int]));
            let t = ids.take(i as int + 1);
            let t0 = ids.take(i as int);
            if !present {
                assert(!t.contains(bound@)) by {
                    if t.contains(bound@) {
                        let k = choose|k: int| 0 <= k < t.len() && #[trigger] t[k] == bound@;
                        if k < i {
                            assert(t0[k] == bound@);
                        }
                    }
                }
            } else {
                if ids[i as int] == bound@ {
                    assert(t[i as int] == bound@);
                } else {
                    let k = choose|k: int| 0 <= k < t0.len() && #[trigger] t0[k] == bound@;
                    assert(t[k] == bound@);
                }
            }
        }
        i += 1;
    }
    assert(ids.take(ids.len() as int) =~= ids);
    if !bound.as_str().is_empty() && !present {
        let ghost before = r@.map_values(|s: String| s@);
        r.push(bound);
        assert(r@.map_values(|s: String| s@) =~= before.push(bound_model(*cfg)));
    }
    r
}

/// A first run: nobody is logged in and no state was ever written.
pub fn is_first_run(logged_in: &[String], state_exists: bool) -> (b: bool)
    ensures
        b == (logged_in@.len() == 0 && !state_exists),
{
    logged_in.len() == 0 && !state_exists
}

/// A provider as the snapshot lists it: its name and its built-in API base
/// (empty when `/login` asks for one).
#[derive(Debug, Clone)]
pub struct ProviderEntry {
    pub name: String,
    pub api_base: String,
}

/// The snapshot sent to the UI.
#[derive(Debug, Clone)]
pub struct StatusView {
    pub cwd: String,
    pub provider: Option<String>,
    /// The model actually running, not the configured wish.
    pub model: Option<String>,
    pub logged_in_providers: Vec<String>,
    pub providers: Vec<ProviderEntry>,
    pub available_models: Vec<String>,
    pub total_input_tokens: u32,
    pub total_output_tokens: u32,
    pub turn_count: u32,
    /// Messages in the current session.
    pub message_count: usize,
    pub tools: Vec<String>,
    pub context_window: Option<u64>,
    pub session_path: Option<String>,
    pub is_first_run: bool,
}

/// The listed providers' names, in order.
pub open spec fn entry_names(ps: Seq<ProviderEntry>) -> Seq<Seq<char>> {
    ps.map_values(|p: ProviderEntry| p.name@)
}

impl StatusView {
    /// The listed providers' names, in order.
    pub fn provider_names(&self) -> (r: Vec<String>)
        ensures
            r@.map_values(|s: String| s@) == entry_names(self.providers@),
    {
        let mut r: Vec<String> = Vec::new();
        let mut i: usize = 0;
        while i < self.providers.len()
            invariant
                i <= self.providers.len(),
                r@.map_values(|s: String| s@) == entry_names(self.providers@).take(i as int),
            decreases self.providers.len() - i,
        {
            let ghost before = r@.map_values(|s: String| s@);
            r.push(self.providers[i].name.clone());
            assert(entry_names(self.providers@).take(i as int + 1) =~= entry_names(self.providers@).take(
                i as int,
            ).push(self.providers@[i as int].name@));
            assert(r@.map_values(|s: String| s@) =~= before.push(self.providers@[i as int].name@));
            i += 1;
        }
        assert(entry_names(self.providers@).take(self.providers.len() as int) =~= entry_names(
            self.providers@,
        ));
        r
    }

    /// Whether `/login` has to ask for the API base of `name`: a listed
    /// provider of that name has no built-in base.
    pub fn provider_needs_api_base_url(&self, name: &str) -> (r: bool)
        ensures
            r == exists|k: int|
                0 <= k < self.providers.len() && #[trigger] self.providers@[k].name@ == name@
                    && self.providers@[k].api_base@.len() == 0,
    {
        let mut i: usize = 0;
        while i < self.providers.len()
            invariant
                i <= self.providers.len(),
                forall|k: int|
                    0 <= k < i ==> !(#[trigger] self.providers@[k].name@ == name@
                        && self.providers@[k].api_base@.len() == 0),
            decreases self.providers.len() - i,
        {
            if str_eq(self.providers[i].name.as_str(), name) && self.providers[i].api_base.as_str().is_empty() {
                return true;
            }
            i += 1;
        }
        false
    }
}

/// An optional string, viewed.
pub open spec fn opt_view(o: Option<String>) -> Option<Seq<char>> {
    match o {
        Some(s) => Some(s@),
        None => None,
    }
}

fn clone_opt(o: &Option<String>) -> (r: Option<String>)
    ensures
        opt_view(r) == opt_view(*o),
{
    match o {
        Some(s) => Some(s.clone()),
        None => None,
    }
}

/// The snapshot from the configuration, the statistics and what the running
/// agent and session report: the model running, the session's message
/// count, the tools, the context window when known, the session file, and whether any
/// state was ever saved.
pub fn build_view(
    cfg: &Config,
    stats: &TurnStats,
    running_model: Option<String>,
    message_count: usize,
    tools: Vec<String>,
    context_window: Option<u64>,
    session_path: Option<String>,
    state_exists: bool,
) -> (v: StatusView)
    ensures
        v.cwd@ == cfg.cwd@,
        opt_view(v.provider) == opt_view(cfg.provider),
        v.model == running_model,
        v.logged_in_providers@.map_values(|s: String| s@) == names_with_auth(
            builtin_providers(),
            cfg.registry.auth().dom(),
        ),
        v.providers@.map_values(|p: ProviderEntry| (p.name@, p.api_base@)) == builtin_providers().map_values(
            |p: ProviderView| (p.name, p.api_base),
        ),
        v.available_models@.map_values(|s: String| s@) == offered_models(*cfg),
        v.total_input_tokens == stats.total_input_tokens,
        v.total_output_tokens == stats.total_output_tokens,
        v.turn_count == stats.turn_count,
        v.message_count == message_count,
        v.tools == tools,
        v.context_window == context_window,
        v.session_path == session_path,
        v.is_first_run == (names_with_auth(builtin_providers(), cfg.registry.auth().dom()).len() == 0
            && !state_exists),
{
    let logged_in = cfg.registry.logged_in_providers();
    let ps = cfg.registry.providers();
    let ghost pv = builtin_providers().map_values(|p: ProviderView| (p.name, p.api_base));
    let mut providers: Vec<ProviderEntry> = Vec::new();
    let mut i: usize = 0;
    while i < ps.len()
        invariant
            i <= ps.len(),
            ps@.map_values(|p: ProviderInfo| p@) == builtin_providers(),
            pv == builtin_providers().map_values(|p: ProviderView| (p.name, p.api_base)),
            providers@.map_values(|p: ProviderEntry| (p.name@, p.api_base@)) == pv.take(i as int),
        decreases ps.len() - i,
    {
        let ghost before = providers@.map_values(|p: ProviderEntry| (p.name@, p.api_base@));
        assert(ps@.map_values(|p: ProviderInfo| p@)[i as int] == ps@[i as int]@);
        providers.push(ProviderEntry { name: ps[i].name.clone(), api_base: ps[i].api_base.clone() });
        assert(pv.take(i as int + 1) =~= pv.take(i as int).push(pv[i as int]));
        assert(providers@.map_values(|p: ProviderEntry| (p.name@, p.api_base@)) =~= before.push(
            pv[i as int],
        ));
        i += 1;
    }
    assert(pv.take(ps.len() as int) =~= pv);
    let first = is_first_run(logged_in.as_slice(), state_exists);
    proof {
        assert(logged_in@.map_values(|s: String| s@).len() == logged_in@.len());
    }
    StatusView {
        cwd: cfg.cwd.clone(),
        provider: clone_opt(&cfg.provider),
        model: running_model,
        logged_in_providers: logged_in,
        providers,
        available_models: available_models(cfg),
        total_input_tokens: stats.total_input_tokens,
        total_output_tokens: stats.total_output_tokens,
        turn_count: stats.turn_count,
        message_count,
        tools,
        context_window,
        session_path,
        is_first_run: first,
    }
}

} // verus!
