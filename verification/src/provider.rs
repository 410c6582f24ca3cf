//! Providers: the seam through which model inference enters the system.

use vstd::prelude::*;

use crate::error::{Error, ErrorView, Result};
use crate::strmap::StrMap;
use crate::types::Model;

verus! {

/// Default channel capacity for provider event streams.
pub const STREAM_CAPACITY: usize = 64;

/// What the registry needs to know of an LLM API provider.
pub trait Provider: Sized {
    /// The identifier that [`Provider::api_id`] returns.
    spec fn id(&self) -> Seq<char>;

    /// What [`Provider::needs_api_key`] returns.
    spec fn keyed(&self) -> bool;

    /// Identifier for this API, e.g. `"anthropic-messages"`.
    fn api_id(&self) -> (r: &str)
        ensures
            r@ == self.id(),
    ;

    /// Whether this provider requires an API key to run a turn.
    fn needs_api_key(&self) -> (r: bool)
        ensures
            r == self.keyed(),
    ;
}

/// A provider that is implemented elsewhere: what the registry needs to know of it, and the handle
/// through which it streams.
pub struct HostedProvider<T> {
    pub api_id: String,
    pub needs_api_key: bool,
    pub handle: T,
}

impl<T> Provider for HostedProvider<T> {
    open spec fn id(&self) -> Seq<char> {
        self.api_id@
    }

    open spec fn keyed(&self) -> bool {
        self.needs_api_key
    }

    fn api_id(&self) -> (r: &str) {
        self.api_id.as_str()
    }

    fn needs_api_key(&self) -> (r: bool) {
        self.needs_api_key
    }
}

/// Registry of providers by api id.
pub struct ProviderRegistry<P: Provider> {
    providers: StrMap<P>,
}

impl<P: Provider> View for ProviderRegistry<P> {
    type V = Map<Seq<char>, P>;

    closed spec fn view(&self) -> Map<Seq<char>, P> {
        self.providers@
    }
}

impl<P: Provider> ProviderRegistry<P> {
    pub fn new() -> (r: Self)
        ensures
            r@ == Map::<Seq<char>, P>::empty(),
    {
        ProviderRegistry { providers: StrMap::new() }
    }

    /// Register a provider under its `api_id()`, replacing any previous provider with the same id.
    pub fn register(&mut self, provider: P)
        ensures
            final(self)@ == old(self)@.insert(provider.id(), provider),
    {
        let api_id = provider.api_id().to_owned();
        self.providers.insert(api_id, provider);
    }

    /// Look up the provider registered for `api`.
    pub fn get(&self, api: &str) -> (r: Option<&P>)
        ensures
            match r {
                Some(p) => self@.contains_key(api@) && *p == self@[api@],
                None => !self@.contains_key(api@),
            },
    {
        self.providers.get(api)
    }

    /// Whether the provider registered for `api` needs an API key; `true` when there is none, so
    /// that the caller fails loudly downstream.
    pub fn needs_api_key(&self, api: &str) -> (r: bool)
        ensures
            r == (!self@.contains_key(api@) || self@[api@].keyed()),
    {
        match self.providers.get(api) {
            Some(p) => p.needs_api_key(),
            None => true,
        }
    }

    /// The provider that streams completions of `model`.
    pub fn provider_for(&self, model: &Model) -> (r: Result<&P>)
        ensures
            match r {
                Ok(p) => self@.contains_key(model@.api) && *p == self@[model@.api],
                Err(e) => !self@.contains_key(model@.api) && e@ == ErrorView::NoProvider(model@.api),
            },
    {
        match self.providers.get(model.api.as_str()) {
            Some(p) => Ok(p),
            None => Err(Error::NoProvider(model.api.clone())),
        }
    }
}

} // verus!
