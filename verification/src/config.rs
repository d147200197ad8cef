//! The agent's configuration: endpoint, key, model, working directory, the
//! provider in use, and the provider registry.
use vstd::prelude::*;

use crate::compat::ProviderCompat;
use crate::provider::{compat_named, ProviderRegistry};

verus! {

/// Model used when none is configured.
pub open spec fn default_model_name() -> Seq<char> {
    "deepseek-chat"@
}

/// The agent's configuration.
pub struct Config {
    pub api_base: Option<String>,
    pub api_key: Option<String>,
    pub model: String,
    pub cwd: String,
    pub provider: Option<String>,
    pub registry: ProviderRegistry,
}

/// The first of two settings that is present.
pub open spec fn either(a: Option<String>, b: Option<String>) -> Option<String> {
    match a {
        Some(x) => Some(x),
        None => b,
    }
}

impl Config {
    /// The configuration the environment gives: `YUSHAN_API_BASE` else
    /// `OPENAI_API_BASE`, `YUSHAN_API_KEY` else `OPENAI_API_KEY`,
    /// `YUSHAN_MODEL` else `deepseek-chat`; no provider; a fresh registry.
    pub fn from_env_values(
        yushan_api_base: Option<String>,
        openai_api_base: Option<String>,
        yushan_api_key: Option<String>,
        openai_api_key: Option<String>,
        yushan_model: Option<String>,
        cwd: String,
    ) -> (c: Config)
        ensures
            c.api_base == either(yushan_api_base, openai_api_base),
            c.api_key == either(yushan_api_key, openai_api_key),
            c.model@ == match yushan_model {
                Some(m) => m@,
                None => default_model_name(),
            },
            c.cwd == cwd,
            c.provider is None,
            c.registry.providers_view() == crate::provider::builtin_providers(),
            c.registry.auth() == Map::<Seq<char>, crate::provider::AuthEntry>::empty(),
            c.registry.override_path() is None,
    {
        let api_base = match yushan_api_base {
            Some(x) => Some(x),
            None => openai_api_base,
        };
        let api_key = match yushan_api_key {
            Some(x) => Some(x),
            None => openai_api_key,
        };
        let model = match yushan_model {
            Some(m) => m,
            None => "deepseek-chat".to_owned(),
        };
        Config { api_base, api_key, model, cwd, provider: None, registry: ProviderRegistry::new() }
    }

    /// Both an endpoint and a key are set.
    pub fn is_configured(&self) -> (b: bool)
        ensures
            b == (self.api_base is Some && self.api_key is Some),
    {
        self.api_base.is_some() && self.api_key.is_some()
    }

    /// The quirks of the provider in use (`custom` when none is set).
    pub fn current_compat(&self) -> (c: ProviderCompat)
        ensures
            c == compat_named(
                match self.provider {
                    Some(p) => p@,
                    None => "custom"@,
                },
            ),
    {
        match &self.provider {
            Some(p) => self.registry.compat_for(p.as_str()),
            None => self.registry.compat_for("custom"),
        }
    }
}

} // verus!
