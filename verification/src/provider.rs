//! Known providers, stored credentials, the model list cache and the URL of
//! a provider's model list.
use vstd::prelude::*;

use crate::compat::ProviderCompat;
use crate::store::KeyedStore;
use crate::text::{chars_of, ends_with, is_suffix, push_str, str_eq, string_of};

verus! {

/// A known provider.
#[derive(Debug, Clone)]
pub struct ProviderInfo {
    pub name: String,
    pub api_base: String,
    pub default_model: String,
    pub compat: ProviderCompat,
}

/// What a provider entry holds.
pub ghost struct ProviderView {
    pub name: Seq<char>,
    pub api_base: Seq<char>,
    pub default_model: Seq<char>,
    pub compat: ProviderCompat,
}

impl View for ProviderInfo {
    type V = ProviderView;

    open spec fn view(&self) -> ProviderView {
        ProviderView {
            name: self.name@,
            api_base: self.api_base@,
            default_model: self.default_model@,
            compat: self.compat,
        }
    }
}

/// Stored credentials of one provider.
#[derive(Debug, Clone, PartialEq, Eq)]
pub struct AuthEntry {
    pub api_base: String,
    pub api_key: String,
    pub model: String,
}

/// A model as a provider's model list names it.
#[derive(Debug, Clone, PartialEq, Eq)]
pub struct ApiModel {
    pub id: String,
    pub owned_by: Option<String>,
}

/// Outcome of fetching a provider's model list.
#[derive(Debug, Clone)]
pub enum FetchModelsResult {
    Success(Vec<ApiModel>),
    /// The key was refused (HTTP 401).
    AuthError(String),
    /// Timeout, DNS failure, another HTTP status or an unreadable body.
    NetworkError(String),
}

/// The built-in providers, in order: DeepSeek, MiniMax, and a custom
/// endpoint without a base URL or default model.
pub open spec fn builtin_providers() -> Seq<ProviderView> {
    seq![
        ProviderView {
            name: "deepseek"@,
            api_base: "https://api.deepseek.com"@,
            default_model: "deepseek-chat"@,
            compat: ProviderCompat {
                has_reasoning_content: true,
                tool_calls_as_text: false,
                supports_stream_usage: true,
            },
        },
        ProviderView {
            name: "minimax"@,
            api_base: "https://api.minimax.chat/v1"@,
            default_model: "MiniMax-Text-01"@,
            compat: ProviderCompat {
                has_reasoning_content: false,
                tool_calls_as_text: true,
                supports_stream_usage: false,
            },
        },
        ProviderView {
            name: "custom"@,
            api_base: Seq::empty(),
            default_model: Seq::empty(),
            compat: ProviderCompat {
                has_reasoning_content: false,
                tool_calls_as_text: false,
                supports_stream_usage: true,
            },
        },
    ]
}

/// The provider at `i` is named `name`.
pub open spec fn named_at(ps: Seq<ProviderView>, name: Seq<char>, i: int) -> bool {
    0 <= i < ps.len() && ps[i].name == name
}

/// Index of the first provider named `name`.
pub open spec fn first_named(ps: Seq<ProviderView>, name: Seq<char>) -> Option<int> {
    if exists|i: int| named_at(ps, name, i) {
        Some(choose|i: int| named_at(ps, name, i) && forall|j: int| 0 <= j < i ==> !named_at(ps, name, j))
    } else {
        None
    }
}

/// The built-in provider named `name`.
pub open spec fn provider_named(name: Seq<char>) -> Option<ProviderView> {
    match first_named(builtin_providers(), name) {
        Some(i) => Some(builtin_providers()[i]),
        None => None,
    }
}

/// The quirks of the provider named `name`; standard for an unknown name.
pub open spec fn compat_named(name: Seq<char>) -> ProviderCompat {
    match provider_named(name) {
        Some(p) => p.compat,
        None => ProviderCompat {
            has_reasoning_content: false,
            tool_calls_as_text: false,
            supports_stream_usage: true,
        },
    }
}

/// The map that inserting the entries one after the other gives.
pub open spec fn inserted_in_order(s: Seq<(String, AuthEntry)>) -> Map<Seq<char>, AuthEntry>
    decreases s.len(),
{
    if s.len() == 0 {
        Map::empty()
    } else {
        inserted_in_order(s.drop_last()).insert(s.last().0@, s.last().1)
    }
}

/// Names of the providers of `ps` that have credentials in `dom`, in order.
pub open spec fn names_with_auth(ps: Seq<ProviderView>, dom: Set<Seq<char>>) -> Seq<Seq<char>>
    decreases ps.len(),
{
    if ps.len() == 0 {
        Seq::empty()
    } else {
        let r = names_with_auth(ps.drop_last(), dom);
        if dom.contains(ps.last().name) {
            r.push(ps.last().name)
        } else {
            r
        }
    }
}

/// The logged-in providers are the providers, in their order, kept when
/// credentials are stored under their name; credentials stored under any
/// other name never show.
pub proof fn law_logged_in_are_providers_with_auth(ps: Seq<ProviderView>, dom: Set<Seq<char>>)
    ensures
        names_with_auth(ps, dom) == ps.filter(|p: ProviderView| dom.contains(p.name)).map_values(
            |p: ProviderView| p.name,
        ),
        forall|n: Seq<char>| #[trigger] names_with_auth(ps, dom).contains(n) ==> dom.contains(n),
    decreases ps.len(),
{
    reveal(Seq::filter);
    let f = |p: ProviderView| dom.contains(p.name);
    let g = |p: ProviderView| p.name;
    if ps.len() > 0 {
        law_logged_in_are_providers_with_auth(ps.drop_last(), dom);
        let sub = ps.drop_last().filter(f);
        if f(ps.last()) {
            assert(ps.filter(f) == sub.push(ps.last()));
            assert(sub.push(ps.last()).map_values(g) =~= sub.map_values(g).push(ps.last().name));
        } else {
            assert(ps.filter(f) == sub);
        }
        assert forall|n: Seq<char>| #[trigger] names_with_auth(ps, dom).contains(n) implies dom.contains(n) by {
            let r = names_with_auth(ps.drop_last(), dom);
            if dom.contains(ps.last().name) {
                let k = choose|k: int| 0 <= k < r.push(ps.last().name).len() && r.push(ps.last().name)[k] == n;
                if k < r.len() {
                    assert(r[k] == n);
                    assert(r.contains(n));
                }
            }
        }
    } else {
        assert(ps.filter(f) =~= ps);
    }
}

/// The providers, their stored credentials and the model lists fetched so
/// far, by API base.
pub struct ProviderRegistry {
    providers: Vec<ProviderInfo>,
    auth_store: KeyedStore<AuthEntry>,
    model_cache: KeyedStore<Vec<ApiModel>>,
    auth_override: Option<String>,
}

fn provider(name: &str, api_base: &str, default_model: &str, compat: ProviderCompat) -> (p: ProviderInfo)
    ensures
        p@ == (ProviderView { name: name@, api_base: api_base@, default_model: default_model@, compat }),
{
    ProviderInfo {
        name: name.to_owned(),
        api_base: api_base.to_owned(),
        default_model: default_model.to_owned(),
        compat,
    }
}

impl ProviderRegistry {
    #[verifier::type_invariant]
    spec fn builtin(self) -> bool {
        self.providers@.map_values(|p: ProviderInfo| p@) == builtin_providers()
    }

    /// The providers, viewed.
    pub closed spec fn providers_view(self) -> Seq<ProviderView> {
        self.providers@.map_values(|p: ProviderInfo| p@)
    }

    /// Stored credentials, by provider name.
    pub closed spec fn auth(self) -> Map<Seq<char>, AuthEntry> {
        self.auth_store.map()
    }

    /// Model lists fetched so far, by API base.
    pub closed spec fn cache(self) -> Map<Seq<char>, Seq<ApiModel>> {
        self.model_cache.map().map_values(|v: Vec<ApiModel>| v@)
    }

    /// Where credentials are kept, when set for this registry.
    pub closed spec fn override_path(self) -> Option<String> {
        self.auth_override
    }

    /// The built-in providers, no credentials, an empty cache.
    pub fn new() -> (r: Self)
        ensures
            r.providers_view() == builtin_providers(),
            r.auth() == Map::<Seq<char>, AuthEntry>::empty(),
            r.cache() == Map::<Seq<char>, Seq<ApiModel>>::empty(),
            r.override_path() is None,
    {
        let mut providers: Vec<ProviderInfo> = Vec::new();
        providers.push(
            provider(
                "deepseek",
                "https://api.deepseek.com",
                "deepseek-chat",
                ProviderCompat::deepseek(),
            ),
        );
        providers.push(
            provider(
                "minimax",
                "https://api.minimax.chat/v1",
                "MiniMax-Text-01",
                ProviderCompat::minimax(),
            ),
        );
        let empty = String::new();
        providers.push(provider("custom", empty.as_str(), empty.as_str(), ProviderCompat::standard()));
        assert(providers@.map_values(|p: ProviderInfo| p@) =~= builtin_providers());
        let r = ProviderRegistry {
            providers,
            auth_store: KeyedStore::new(),
            model_cache: KeyedStore::new(),
            auth_override: None,
        };
        assert(r.cache() =~= Map::<Seq<char>, Seq<ApiModel>>::empty());
        r
    }

    /// The known providers.
    pub fn providers(&self) -> (r: &[ProviderInfo])
        ensures
            r@.map_values(|p: ProviderInfo| p@) == builtin_providers(),
    {
        proof {
            use_type_invariant(self);
        }
        self.providers.as_slice()
    }

    /// The provider named `name`.
    pub fn find_provider(&self, name: &str) -> (r: Option<&ProviderInfo>)
        ensures
            match provider_named(name@) {
                Some(p) => r matches Some(q) && q@ == p,
                None => r is None,
            },
    {
        proof {
            use_type_invariant(self);
        }
        let ghost ps = builtin_providers();
        let mut i: usize = 0;
        while i < self.providers.len()
            invariant
                i <= self.providers.len(),
                self.providers@.map_values(|p: ProviderInfo| p@) == ps,
                ps == builtin_providers(),
                forall|j: int| 0 <= j < i ==> !named_at(ps, name@, j),
            decreases self.providers.len() - i,
        {
            assert(self.providers@.map_values(|p: ProviderInfo| p@)[i as int] == self.providers@[i as int]@);
            if str_eq(self.providers[i].name.as_str(), name) {
                proof {
                    assert(named_at(ps, name@, i as int));
                    let c = choose|c: int| named_at(ps, name@, c) && forall|j: int| 0 <= j < c ==> !named_at(ps, name@, j);
                    if c < i {
                        assert(!named_at(ps, name@, c));
                    } else if c > i {
                        assert(!named_at(ps, name@, i as int));
                    }
                }
                return Some(&self.providers[i]);
            }
            i += 1;
        }
        None
    }

    /// The quirks of the provider named `name`; standard when unknown.
    pub fn compat_for(&self, name: &str) -> (c: ProviderCompat)
        ensures
            c == compat_named(name@),
    {
        match self.find_provider(name) {
            Some(p) => p.compat,
            None => ProviderCompat::standard(),
        }
    }

    /// Keeps this registry's credentials at `path`.
    pub fn set_auth_override(&mut self, path: String)
        ensures
            final(self).providers_view() == old(self).providers_view(),
            final(self).override_path() == Some(path),
            final(self).auth() == old(self).auth(),
            final(self).cache() == old(self).cache(),
    {
        proof {
            use_type_invariant(&*self);
        }
        self.auth_override = Some(path);
    }

    /// Where this registry's credentials are kept, when set.
    pub fn auth_override(&self) -> (r: Option<&String>)
        ensures
            match self.override_path() {
                Some(p) => r == Some(&p),
                None => r is None,
            },
    {
        match &self.auth_override {
            Some(p) => Some(p),
            None => None,
        }
    }

    /// Stores the credentials of a provider (in memory; writing them out is
    /// the caller's).
    pub fn save_auth(&mut self, provider_name: &str, entry: &AuthEntry)
        ensures
            final(self).providers_view() == old(self).providers_view(),
            final(self).auth() == old(self).auth().insert(provider_name@, *entry),
            final(self).cache() == old(self).cache(),
            final(self).override_path() == old(self).override_path(),
    {
        proof {
            use_type_invariant(&*self);
        }
        let copy = AuthEntry {
            api_base: entry.api_base.clone(),
            api_key: entry.api_key.clone(),
            model: entry.model.clone(),
        };
        let mut st: KeyedStore<AuthEntry> = KeyedStore::new();
        std::mem::swap(&mut st, &mut self.auth_store);
        st.insert(provider_name.to_owned(), copy);
        self.auth_store = st;
    }

    /// Forgets the credentials of a provider.
    pub fn remove_auth(&mut self, provider_name: &str)
        ensures
            final(self).providers_view() == old(self).providers_view(),
            final(self).auth() == old(self).auth().remove(provider_name@),
            final(self).cache() == old(self).cache(),
            final(self).override_path() == old(self).override_path(),
    {
        proof {
            use_type_invariant(&*self);
        }
        let mut st: KeyedStore<AuthEntry> = KeyedStore::new();
        std::mem::swap(&mut st, &mut self.auth_store);
        st.remove(provider_name);
        self.auth_store = st;
    }

    /// Replaces all stored credentials by the given ones; of entries with the
    /// same name the last counts.
    pub fn replace_auth(&mut self, entries: Vec<(String, AuthEntry)>)
        ensures
            final(self).providers_view() == old(self).providers_view(),
            final(self).auth() == inserted_in_order(entries@),
            final(self).cache() == old(self).cache(),
            final(self).override_path() == old(self).override_path(),
    {
        proof {
            use_type_invariant(&*self);
        }
        let mut store: KeyedStore<AuthEntry> = KeyedStore::new();
        let mut i: usize = 0;
        let ghost n = entries@.len();
        while i < entries.len()
            invariant
                i <= entries.len(),
                store.map() == inserted_in_order(entries@.take(i as int)),
            decreases entries.len() - i,
        {
            let (k, e) = (&entries[i].0, &entries[i].1);
            let copy = AuthEntry {
                api_base: e.api_base.clone(),
                api_key: e.api_key.clone(),
                model: e.model.clone(),
            };
            store.insert(k.clone(), copy);
            assert(entries@.take(i as int + 1).drop_last() =~= entries@.take(i as int));
            i += 1;
        }
        assert(entries@.take(n as int) =~= entries@);
        self.auth_store = store;
    }

    /// The stored credentials of a provider.
    pub fn auth_for(&self, provider_name: &str) -> (r: Option<&AuthEntry>)
        ensures
            match r {
                Some(e) => self.auth().dom().contains(provider_name@) && *e == self.auth()[provider_name@],
                None => !self.auth().dom().contains(provider_name@),
            },
    {
        self.auth_store.get(provider_name)
    }

    /// The stored credentials, for writing them out.
    pub fn auth_entries(&self) -> (r: &[(String, AuthEntry)])
        ensures
            crate::store::keys_unique(r@),
            crate::store::entries_map(r@) == self.auth(),
    {
        self.auth_store.entries()
    }

    /// Names of the providers with stored credentials, in provider order.
    pub fn logged_in_providers(&self) -> (r: Vec<String>)
        ensures
            r@.map_values(|s: String| s@) == names_with_auth(builtin_providers(), self.auth().dom()),
    {
        proof {
            use_type_invariant(self);
        }
        let ghost ps = builtin_providers();
        let mut r: Vec<String> = Vec::new();
        let mut i: usize = 0;
        while i < self.providers.len()
            invariant
                i <= self.providers.len(),
                self.providers@.map_values(|p: ProviderInfo| p@) == ps,
                r@.map_values(|s: String| s@) == names_with_auth(ps.take(i as int), self.auth().dom()),
            decreases self.providers.len() - i,
        {
            let ghost before = r@;
            assert(ps.take(i as int + 1).drop_last() =~= ps.take(i as int));
            assert(self.providers@.map_values(|p: ProviderInfo| p@)[i as int] == self.providers@[i as int]@);
            if self.auth_store.contains(self.providers[i].name.as_str()) {
                r.push(self.providers[i].name.clone());
                assert(r@.map_values(|s: String| s@) =~= before.map_values(|s: String| s@).push(ps[i as int].name));
            }
            i += 1;
        }
        assert(ps.take(ps.len() as int) =~= ps);
        r
    }

    /// The cached model list of an API base.
    pub fn cached_models(&self, api_base: &str) -> (r: Option<Vec<ApiModel>>)
        ensures
            match r {
                Some(v) => self.cache().dom().contains(api_base@) && v@ == self.cache()[api_base@],
                None => !self.cache().dom().contains(api_base@),
            },
    {
        match self.model_cache.get(api_base) {
            Some(v) => Some(clone_models(v)),
            None => None,
        }
    }

    /// The models to offer once a fetch for `api_base` has come back: a
    /// fetched list, which is then cached, or else the built-in fallback.
    pub fn models_after_fetch(&mut self, api_base: &str, result: FetchModelsResult) -> (r: Vec<ApiModel>)
        ensures
            final(self).providers_view() == old(self).providers_view(),
            match result {
                FetchModelsResult::Success(v) => r == v && final(self).cache() == old(self).cache().insert(
                    api_base@,
                    v@,
                ),
                _ => models_view(r@) == known_models() && final(self).cache() == old(self).cache(),
            },
            final(self).auth() == old(self).auth(),
            final(self).override_path() == old(self).override_path(),
    {
        proof {
            use_type_invariant(&*self);
        }
        match result {
            FetchModelsResult::Success(v) => {
                let kept = clone_models(&v);
                let ghost before = self.model_cache.map();
                let mut st: KeyedStore<Vec<ApiModel>> = KeyedStore::new();
                std::mem::swap(&mut st, &mut self.model_cache);
                st.insert(api_base.to_owned(), kept);
                self.model_cache = st;
                assert(self.model_cache.map().map_values(|w: Vec<ApiModel>| w@) =~= before.map_values(
                    |w: Vec<ApiModel>| w@,
                ).insert(api_base@, v@));
                v
            },
            _ => ProviderRegistry::known_models_static(),
        }
    }

    /// The models offered when the provider's list cannot be had.
    pub fn known_models_static() -> (r: Vec<ApiModel>)
        ensures
            models_view(r@) == known_models(),
    {
        let mut r: Vec<ApiModel> = Vec::new();
        r.push(api_model("deepseek-chat", "deepseek"));
        r.push(api_model("deepseek-reasoner", "deepseek"));
        r.push(api_model("MiniMax-Text-01", "minimax"));
        assert(models_view(r@) =~= known_models());
        r
    }
}

fn api_model(id: &str, owner: &str) -> (m: ApiModel)
    ensures
        m.id@ == id@,
        m.owned_by matches Some(o) && o@ == owner@,
{
    ApiModel { id: id.to_owned(), owned_by: Some(owner.to_owned()) }
}

/// A copy of a model list.
fn clone_models(v: &Vec<ApiModel>) -> (r: Vec<ApiModel>)
    ensures
        r@ == v@,
{
    let mut r: Vec<ApiModel> = Vec::new();
    let mut i: usize = 0;
    while i < v.len()
        invariant
            i <= v.len(),
            r@ == v@.take(i as int),
        decreases v.len() - i,
    {
        let m = &v[i];
        let owned_by = match &m.owned_by {
            Some(o) => Some(o.clone()),
            None => None,
        };
        r.push(ApiModel { id: m.id.clone(), owned_by });
        assert(r@ =~= v@.take(i as int + 1));
        i += 1;
    }
    assert(v@.take(v.len() as int) =~= v@);
    r
}

/// A model list as `(id, owner)` pairs.
pub open spec fn models_view(v: Seq<ApiModel>) -> Seq<(Seq<char>, Option<Seq<char>>)> {
    v.map_values(
        |m: ApiModel|
            (
                m.id@,
                match m.owned_by {
                    Some(o) => Some(o@),
                    None => None,
                },
            ),
    )
}

/// The built-in fallback model list.
pub open spec fn known_models() -> Seq<(Seq<char>, Option<Seq<char>>)> {
    seq![
        ("deepseek-chat"@, Some("deepseek"@)),
        ("deepseek-reasoner"@, Some("deepseek"@)),
        ("MiniMax-Text-01"@, Some("minimax"@)),
    ]
}

/// The model list URL of an API base: trailing slashes dropped, then
/// `/models` after a base ending in `/v1` and `/v1/models` after any other.
pub open spec fn models_url(api_base: Seq<char>) -> Seq<char> {
    let base = trim_slashes(api_base);
    if is_suffix("/v1"@, base) {
        base + "/models"@
    } else {
        base + "/v1/models"@
    }
}

/// `str::trim_end_matches('/')`.
pub open spec fn trim_slashes(s: Seq<char>) -> Seq<char>
    decreases s.len(),
{
    if s.len() > 0 && s.last() == '/' {
        trim_slashes(s.drop_last())
    } else {
        s
    }
}

/// What the status of a model-list response decides: a refused key (401),
/// another status outside 2xx (shown as the status reads), or nothing yet
/// (the body is read next).
pub fn models_status_outcome(status: u16, status_text: &str) -> (r: Option<FetchModelsResult>)
    ensures
        status == 401 ==> (r matches Some(FetchModelsResult::AuthError(m)) && m@
            == "API key rejected (401)"@),
        status != 401 && !(200 <= status <= 299) ==> (r matches Some(
            FetchModelsResult::NetworkError(m),
        ) && m@ == "HTTP "@ + status_text@),
        status != 401 && 200 <= status <= 299 ==> r is None,
{
    if status == 401 {
        return Some(FetchModelsResult::AuthError("API key rejected (401)".to_owned()));
    }
    if !(200 <= status && status <= 299) {
        let mut v: Vec<char> = Vec::new();
        push_str(&mut v, "HTTP ");
        push_str(&mut v, status_text);
        return Some(FetchModelsResult::NetworkError(string_of(v.as_slice())));
    }
    None
}

/// A model-list body that could not be read as one.
pub fn models_body_unreadable(error: &str) -> (r: FetchModelsResult)
    ensures
        r matches FetchModelsResult::NetworkError(m) && m@ == "parse error: "@ + error@,
{
    let mut v: Vec<char> = Vec::new();
    push_str(&mut v, "parse error: ");
    push_str(&mut v, error);
    FetchModelsResult::NetworkError(string_of(v.as_slice()))
}

/// The characters of an API base without its trailing slashes.
pub fn trimmed_base(api_base: &str) -> (r: Vec<char>)
    ensures
        r@ == trim_slashes(api_base@),
{
    let c = chars_of(api_base);
    let mut j: usize = c.len();
    assert(c@.take(c.len() as int) =~= c@);
    while j > 0 && c[j - 1] == '/'
        invariant
            j <= c.len(),
            trim_slashes(c@) == trim_slashes(c@.take(j as int)),
        decreases j,
    {
        assert(c@.take(j as int).drop_last() =~= c@.take(j as int - 1));
        j -= 1;
    }
    let base = crate::text::slice_to_vec(c.as_slice(), 0, j);
    proof {
        assert(base@ =~= c@.take(j as int));
        if j > 0 {
            assert(c@.take(j as int).last() == c@[j as int - 1]);
        }
    }
    base
}

/// Builds the URL of a provider's model list (see [`models_url`]).
pub fn build_models_url(api_base: &str) -> (r: String)
    ensures
        r@ == models_url(api_base@),
{
    let mut base = trimmed_base(api_base);
    let v1 = chars_of("/v1");
    if ends_with(base.as_slice(), v1.as_slice()) {
        push_str(&mut base, "/models");
    } else {
        push_str(&mut base, "/v1/models");
    }
    string_of(base.as_slice())
}


/// An unknown provider gets the standard quirks: stream usage on, nothing
/// else.
pub proof fn law_unknown_provider_is_standard(name: Seq<char>)
    requires
        provider_named(name) is None,
    ensures
        compat_named(name) == (ProviderCompat {
            has_reasoning_content: false,
            tool_calls_as_text: false,
            supports_stream_usage: true,
        }),
{
}

/// Credentials just stored are the ones read back, and storing them leaves
/// every other provider's credentials as they were.
pub proof fn law_saved_auth_is_read_back(auth: Map<Seq<char>, AuthEntry>, name: Seq<char>, entry: AuthEntry, other: Seq<char>)
    ensures
        auth.insert(name, entry).dom().contains(name),
        auth.insert(name, entry)[name] == entry,
        other != name ==> (auth.insert(name, entry).dom().contains(other) == auth.dom().contains(other)),
        other != name && auth.dom().contains(other) ==> auth.insert(name, entry)[other] == auth[other],
{
}

/// Credentials removed are gone, and removing them leaves every other
/// provider's credentials as they were.
pub proof fn law_removed_auth_is_gone(auth: Map<Seq<char>, AuthEntry>, name: Seq<char>, other: Seq<char>)
    ensures
        !auth.remove(name).dom().contains(name),
        other != name ==> (auth.remove(name).dom().contains(other) == auth.dom().contains(other)),
        other != name && auth.dom().contains(other) ==> auth.remove(name)[other] == auth[other],
{
}

/// The model list URL always ends in `/v1/models`, whatever the base looks
/// like.
pub proof fn law_models_url_ends_in_v1_models(api_base: Seq<char>)
    ensures
        is_suffix("/v1/models"@, models_url(api_base)),
{
    reveal_strlit("/v1/models");
    reveal_strlit("/models");
    reveal_strlit("/v1");
    let base = trim_slashes(api_base);
    let u = models_url(api_base);
    if is_suffix("/v1"@, base) {
        assert(u =~= base + "/models"@);
        assert(base.skip(base.len() - 3) == "/v1"@);
        assert(u.skip(u.len() - 10) =~= base.skip(base.len() - 3) + "/models"@);
        assert("/v1"@ + "/models"@ =~= "/v1/models"@);
    } else {
        assert(u =~= base + "/v1/models"@);
        assert(u.skip(u.len() - 10) =~= "/v1/models"@);
    }
}

} // verus!
