//! Provider and model configuration.
//!
//! Two files, both rooted in [`crate::paths::Paths::config_dir`]:
//!
//! - `providers.toml`: provider definitions and their models. API keys may be inline, `"none"`,
//!   or `"$ENV_VAR"` for environment expansion (see [`resolve_provider_api_key`]).
//! - `models.toml`: the global model-alias map (`[aliases]`, one hop). A per-project operator
//!   overrides file lives at `config_dir()/projects/{name}/models.toml`.

use vstd::prelude::*;

use crate::paths::Paths;
use crate::strmap::StrMap;
use crate::text::{str_eq, str_strip_prefix};
use crate::types::{Model, ModelCost, ModelView, ThinkingStyle};

verus! {

/// Model aliases: from an alias to a model.
pub type AliasMap = StrMap<String>;

/// A model of a provider.
#[derive(Debug, PartialEq)]
pub struct ModelConfig {
    pub id: String,
    pub name: Option<String>,
    pub context_window: u64,
    pub max_tokens: u64,
    pub thinking: ThinkingStyle,
    pub cost: ModelCost,
}

/// What a [`ModelConfig`] holds.
#[verifier::ext_equal]
pub struct ModelConfigView {
    pub id: Seq<char>,
    pub name: Option<Seq<char>>,
    pub context_window: u64,
    pub max_tokens: u64,
    pub thinking: ThinkingStyle,
    pub cost: ModelCost,
}

impl View for ModelConfig {
    type V = ModelConfigView;

    open spec fn view(&self) -> ModelConfigView {
        ModelConfigView {
            id: self.id@,
            name: self.name.deep_view(),
            context_window: self.context_window,
            max_tokens: self.max_tokens,
            thinking: self.thinking,
            cost: self.cost,
        }
    }
}

impl DeepView for ModelConfig {
    type V = ModelConfigView;

    open spec fn deep_view(&self) -> ModelConfigView {
        self@
    }
}

impl Clone for ModelConfig {
    fn clone(&self) -> (r: Self)
        ensures
            r@ == self@,
    {
        let r = ModelConfig {
            id: self.id.clone(),
            name: self.name.clone(),
            context_window: self.context_window,
            max_tokens: self.max_tokens,
            thinking: self.thinking,
            cost: self.cost,
        };
        r
    }
}

/// A provider and its models.
#[derive(Debug, PartialEq)]
pub struct ProviderConfig {
    /// API type: `"anthropic"` or `"openai"` (or a custom API name).
    pub api: String,
    pub base_url: String,
    /// Inline API key, `"none"`/empty (no key), or `"$ENV_VAR"` naming the environment variable holding the key.
    pub api_key: Option<String>,
    pub models: Vec<ModelConfig>,
}

/// What a [`ProviderConfig`] holds.
#[verifier::ext_equal]
pub struct ProviderConfigView {
    pub api: Seq<char>,
    pub base_url: Seq<char>,
    pub api_key: Option<Seq<char>>,
    pub models: Seq<ModelConfigView>,
}

impl View for ProviderConfig {
    type V = ProviderConfigView;

    open spec fn view(&self) -> ProviderConfigView {
        ProviderConfigView {
            api: self.api@,
            base_url: self.base_url@,
            api_key: self.api_key.deep_view(),
            models: self.models.deep_view(),
        }
    }
}

impl DeepView for ProviderConfig {
    type V = ProviderConfigView;

    open spec fn deep_view(&self) -> ProviderConfigView {
        self@
    }
}

impl Clone for ProviderConfig {
    fn clone(&self) -> (r: Self)
        ensures
            r@ == self@,
    {
        let r = ProviderConfig {
            api: self.api.clone(),
            base_url: self.base_url.clone(),
            api_key: self.api_key.clone(),
            models: self.models.clone(),
        };
        assert(r.models.deep_view() =~= self.models.deep_view());
        r
    }
}

/// The context window of a model that does not give one.
pub fn default_context_window() -> (r: u64)
    ensures
        r == 128_000,
{
    128_000
}

/// The output limit of a model that does not give one.
pub fn default_max_tokens() -> (r: u64)
    ensures
        r == 16_384,
{
    16_384
}

/// The error for a providers file that does not parse.
pub fn providers_parse_message(path: &str, detail: &str) -> (r: String)
    ensures
        r@ == "providers.toml ("@ + path@ + "): "@ + detail@,
{
    let mut out: String = "providers.toml (".to_owned();
    out.append(path);
    out.append("): ");
    out.append(detail);
    out
}

// ---------------------------------------------------------------------------
// API key resolution
// ---------------------------------------------------------------------------

/// Where the key of a provider comes from.
#[derive(Debug, PartialEq)]
pub enum KeySource {
    /// There is no key.
    Absent,
    /// The key itself.
    Literal(String),
    /// The environment variable that holds it.
    Variable(String),
}

/// The variable that a key names, if it names one.
pub open spec fn key_variable(c: ProviderConfigView) -> Option<Seq<char>> {
    match c.api_key {
        Some(k) => if k != "none"@ && k.len() > 0 && k[0] == '$' {
            Some(k.subrange(1, k.len() as int))
        } else {
            None
        },
        None => None,
    }
}

/// The key of a provider, given what the environment holds under the variable that it names.
pub open spec fn resolved_key(c: ProviderConfigView, value: Option<Seq<char>>) -> Option<Seq<char>> {
    match c.api_key {
        Some(k) => if k == "none"@ || k.len() == 0 {
            None
        } else if k[0] == '$' {
            match value {
                Some(v) => if v.len() > 0 {
                    Some(v)
                } else {
                    None
                },
                None => None,
            }
        } else {
            Some(k)
        },
        None => None,
    }
}

/// Where the key of a provider comes from.
pub fn key_source(provider_config: &ProviderConfig) -> (r: KeySource)
    ensures
        r is Variable <==> key_variable(provider_config@) is Some,
        r matches KeySource::Variable(v) ==> key_variable(provider_config@) == Some(v@),
        r matches KeySource::Literal(k) ==> forall|value: Option<Seq<char>>| #[trigger]
            resolved_key(provider_config@, value) == Some(k@),
        r is Absent ==> forall|value: Option<Seq<char>>| #[trigger]
            resolved_key(provider_config@, value) is None,
{
    let key = match &provider_config.api_key {
        Some(k) => k,
        None => {
            return KeySource::Absent;
        },
    };
    if str_eq(key.as_str(), "none") || key.as_str().is_empty() {
        return KeySource::Absent;
    }
    proof {
        reveal_strlit("$");
    }
    match str_strip_prefix(key.as_str(), "$") {
        Some(var) => {
            assert(key@.subrange(0, 1) =~= "$"@);
            assert(key@.subrange(0, 1)[0] == key@[0]);
            KeySource::Variable(var)
        },
        None => {
            proof {
                if key@[0] == '$' {
                    assert(key@.subrange(0, 1) =~= "$"@);
                }
            }
            KeySource::Literal(key.clone())
        },
    }
}

/// Resolve a provider's API key.
///
/// `None` when the key is absent, empty, or literally `"none"`. A key of the form `"$ENV_VAR"` is
/// expanded to `value`, what the environment holds under that name (unset or empty: `None`);
/// anything else is the literal key.
pub fn resolve_provider_api_key(provider_config: &ProviderConfig, value: Option<String>) -> (r:
    Option<String>)
    ensures
        r.deep_view() == resolved_key(provider_config@, value.deep_view()),
{
    match key_source(provider_config) {
        KeySource::Absent => {
            assert(resolved_key(provider_config@, value.deep_view()) is None);
            None
        },
        KeySource::Literal(k) => {
            assert(resolved_key(provider_config@, value.deep_view()) == Some(k@));
            Some(k)
        },
        KeySource::Variable(_) => match value {
            Some(v) => if v.as_str().is_empty() {
                None
            } else {
                Some(v)
            },
            None => None,
        },
    }
}

// ---------------------------------------------------------------------------
// Model conversion
// ---------------------------------------------------------------------------

/// The api id of a provider's `api` string.
pub open spec fn api_id(api: Seq<char>) -> Seq<char> {
    if api == "anthropic"@ {
        "anthropic-messages"@
    } else if api == "openai"@ {
        "openai-completions"@
    } else {
        api
    }
}

/// Map a provider's `api` string to the api id used by providers.
pub fn api_id_from_api(api: &str) -> (r: String)
    ensures
        r@ == api_id(api@),
{
    if str_eq(api, "anthropic") {
        "anthropic-messages".to_owned()
    } else if str_eq(api, "openai") {
        "openai-completions".to_owned()
    } else {
        api.to_owned()
    }
}

/// Convert a `ModelConfig` (plus its enclosing provider) into a full `Model`. A model without a
/// name goes by its id.
pub fn model_from_config(provider_name: &str, provider: &ProviderConfig, m: &ModelConfig) -> (r:
    Model)
    ensures
        r@ == (ModelView {
            id: m@.id,
            name: match m@.name {
                Some(n) => n,
                None => m@.id,
            },
            api: api_id(provider@.api),
            provider: provider_name@,
            base_url: provider@.base_url,
            thinking: m@.thinking,
            cost: m@.cost,
            context_window: m@.context_window,
            max_tokens: m@.max_tokens,
            headers: seq![],
        }),
{
    let name: String = match &m.name {
        Some(n) => n.clone(),
        None => m.id.clone(),
    };
    let r = Model {
        id: m.id.clone(),
        name,
        api: api_id_from_api(provider.api.as_str()),
        provider: provider_name.to_owned(),
        base_url: provider.base_url.clone(),
        thinking: m.thinking,
        cost: m.cost,
        context_window: m.context_window,
        max_tokens: m.max_tokens,
        headers: Vec::new(),
    };
    assert(r@.headers =~= seq![]);
    r
}

// ---------------------------------------------------------------------------
// Model aliases
// ---------------------------------------------------------------------------

/// Where the global aliases are read from.
pub fn global_aliases_path(paths: &Paths) -> (r: String)
    ensures
        r@ == crate::path::joined(paths@.config_dir, "models.toml"@),
{
    paths.models_path()
}

/// Where the operator aliases of a project are read from.
pub fn operator_aliases_path(paths: &Paths, project_name: &str) -> (r: String)
    ensures
        r@ == crate::path::joined(
            crate::path::joined(
                crate::path::joined(paths@.config_dir, "projects"@),
                project_name@,
            ),
            "models.toml"@,
        ),
{
    crate::path::join(paths.project_config_dir(project_name).as_str(), "models.toml")
}

/// Merge alias maps in priority order: operator entries override global entries of the same name.
pub fn merge_alias_maps(operator: AliasMap, global: AliasMap) -> (r: AliasMap)
    ensures
        r@ == global@.union_prefer_right(operator@),
{
    let mut merged = global;
    merged.extend(operator);
    merged
}

/// A key that is absent, empty or `none` is no key, whatever the environment holds. One that starts with
/// a dollar sign is what the environment holds under the name behind it, unless that is empty. Any
/// other key is taken as it is, whatever the environment holds.
pub proof fn law_key(c: ProviderConfigView, name: Seq<char>, value: Option<Seq<char>>)
    ensures
        c.api_key is None || c.api_key == Some("none"@) || c.api_key == Some(Seq::<char>::empty())
            ==> resolved_key(c, value) is None && key_variable(c) is None,
        c.api_key == Some(seq!['$'] + name) ==> {
            &&& key_variable(c) == Some(name)
            &&& resolved_key(c, value) is Some <==> value is Some && value->0.len() > 0
            &&& resolved_key(c, value) is Some ==> resolved_key(c, value) == value
        },
        c.api_key matches Some(k) ==> k != "none"@ && k.len() > 0 && k[0] != '$' ==> resolved_key(
            c,
            value,
        ) == Some(k) && key_variable(c) is None,
{
    reveal_strlit("none");
    let k = seq!['$'] + name;
    assert(k[0] == '$');
    assert("none"@[0] != '$');
    assert(k.subrange(1, k.len() as int) =~= name);
}

/// The two kinds of API have ids of their own; any other name stands for itself.
pub proof fn law_api_id(api: Seq<char>)
    ensures
        api_id("anthropic"@) == "anthropic-messages"@,
        api_id("openai"@) == "openai-completions"@,
        api != "anthropic"@ && api != "openai"@ ==> api_id(api) == api,
{
    reveal_strlit("anthropic");
    reveal_strlit("openai");
    assert("anthropic"@.len() != "openai"@.len());
}

} // verus!
