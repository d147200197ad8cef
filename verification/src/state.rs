//! What is remembered between runs (the last provider and model), and where
//! it is kept.
use vstd::prelude::*;

verus! {

/// The state kept between runs.
#[derive(Debug, Clone, PartialEq, Eq)]
pub struct AppState {
    pub last_active_provider: Option<String>,
    pub last_active_model: Option<String>,
}

impl Default for AppState {
    /// Nothing remembered.
    fn default() -> (s: Self)
        ensures
            s.last_active_provider is None,
            s.last_active_model is None,
    {
        AppState { last_active_provider: None, last_active_model: None }
    }
}

/// Where the state file is; without a path nothing is kept.
pub struct StateStore {
    path_override: Option<String>,
}

impl StateStore {
    /// A store at `path` (none when no home directory is known).
    pub fn at(path: Option<String>) -> (s: Self)
        ensures
            s.path_view() == path,
    {
        StateStore { path_override: path }
    }

    /// The path of the state file.
    pub closed spec fn path_view(self) -> Option<String> {
        self.path_override
    }

    /// The path of the state file.
    pub fn path(&self) -> (r: Option<&String>)
        ensures
            match self.path_view() {
                Some(p) => r == Some(&p),
                None => r is None,
            },
    {
        match &self.path_override {
            Some(p) => Some(p),
            None => None,
        }
    }

    /// Keeps the state at `p` from now on.
    pub fn set_override(&mut self, p: String)
        ensures
            final(self).path_view() == Some(p),
    {
        self.path_override = Some(p);
    }
}

} // verus!
