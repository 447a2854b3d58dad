//! The router: the policy that stands before the load balancer.

use crate::backend::registry::{healthy_backends, BackendRegistry};
use crate::backend::slots::{holds, lemma_position, named_at, value_of, Slots};
use crate::backend::adapter::{text_of, Adapter, AdapterState};
use crate::error::{AppError, ErrorKind, Result};
use crate::gateway::load_balancer::{
    no_candidate_message, selects, LoadBalancer, LoadBalancingStrategy,
};
use crate::text::{contains_str, is_substring};
use vstd::prelude::*;

verus! {

/// The policy of the router.
#[derive(Clone, Debug)]
pub struct RouterConfig {
    /// The backend for requests that name none and match none.
    pub default_backend: Option<String>,
    /// Whether the load balancer decides where nothing else does.
    pub fallback_enabled: bool,
}

impl Default for RouterConfig {
    fn default() -> (config: Self)
        ensures
            config.default_backend is None,
            config.fallback_enabled,
    {
        RouterConfig { default_backend: None, fallback_enabled: true }
    }
}

/// Whether slot `i` holds a backend whose name stands in `model`.
pub open spec fn matches_at(backends: Slots<AdapterState>, model: Seq<char>, i: int) -> bool {
    0 <= i < backends.len() && backends[i] is Some && is_substring(backends[i].unwrap().0, model)
}

/// `i` is the first slot with a backend whose name stands in `model`, or
/// the number of slots if there is none.
pub open spec fn is_first_match(backends: Slots<AdapterState>, model: Seq<char>, i: int) -> bool {
    &&& 0 <= i <= backends.len()
    &&& i < backends.len() ==> matches_at(backends, model, i)
    &&& forall|j: int| 0 <= j < i ==> !#[trigger] matches_at(backends, model, j)
}

/// The first slot with a backend whose name stands in `model`.
pub open spec fn first_match(backends: Slots<AdapterState>, model: Seq<char>) -> int {
    choose|i: int| is_first_match(backends, model, i)
}

/// The first match is the slot that `is_first_match` describes.
pub proof fn lemma_first_match(backends: Slots<AdapterState>, model: Seq<char>, i: int)
    requires
        is_first_match(backends, model, i),
    ensures
        first_match(backends, model) == i,
{
    let g = first_match(backends, model);
    assert(is_first_match(backends, model, g));
    if g < i {
        assert(!matches_at(backends, model, g));
    }
    if i < g {
        assert(!matches_at(backends, model, i));
    }
}

/// What the router decides for a request.
pub enum Route {
    /// The backend of this name takes the request.
    Direct(Seq<char>),
    /// The load balancer picks among the healthy backends.
    Balanced,
    /// No backend takes the request.
    Refused,
}

/// The decision of the router. In order: the backend that the caller
/// names, where it is registered; the first backend whose name stands in
/// the model string; the default backend, where it is registered; the load
/// balancer, where falling back is enabled; else a refusal.
pub open spec fn route_of(
    default_backend: Option<Seq<char>>,
    fallback_enabled: bool,
    backends: Slots<AdapterState>,
    backend_name: Option<Seq<char>>,
    model: Option<Seq<char>>,
) -> Route {
    if backend_name is Some && holds(backends, backend_name.unwrap()) {
        Route::Direct(backend_name.unwrap())
    } else if model is Some && first_match(backends, model.unwrap()) < backends.len() {
        Route::Direct(backends[first_match(backends, model.unwrap())].unwrap().0)
    } else if default_backend is Some && holds(backends, default_backend.unwrap()) {
        Route::Direct(default_backend.unwrap())
    } else if fallback_enabled {
        Route::Balanced
    } else {
        Route::Refused
    }
}

/// The view of an optional string slice.
pub open spec fn slice_text(s: Option<&str>) -> Option<Seq<char>> {
    match s {
        Some(s) => Some(s@),
        None => None,
    }
}

/// Applies the routing policy.
pub struct Router {
    config: RouterConfig,
}

impl Router {
    /// The default backend of the policy.
    pub closed spec fn default_backend(&self) -> Option<Seq<char>> {
        text_of(self.config.default_backend)
    }

    /// Whether the policy falls back to the load balancer.
    pub closed spec fn fallback_enabled(&self) -> bool {
        self.config.fallback_enabled
    }

    /// A router without a default backend that falls back to the load balancer.
    pub fn new() -> (router: Self)
        ensures
            router.default_backend() is None,
            router.fallback_enabled(),
    {
        Router { config: RouterConfig::default() }
    }

    /// A router with the given policy.
    pub fn with_config(config: RouterConfig) -> (router: Self)
        ensures
            router.default_backend() == text_of(config.default_backend),
            router.fallback_enabled() == config.fallback_enabled,
    {
        Router { config }
    }

    /// The first slot with a backend whose name stands in `model`, or the
    /// number of slots.
    fn find_match<'a>(registry: &'a BackendRegistry, model: &str) -> (found: Option<&'a Adapter>)
        requires
            registry.wf(),
        ensures
            found is Some <==> first_match(registry@, model@) < registry@.len(),
            found matches Some(adapter) ==> adapter@.name == registry@[first_match(
                registry@,
                model@,
            )].unwrap().0 && holds(registry@, adapter@.name) && adapter@ == value_of(
                registry@,
                adapter@.name,
            ),
    {
        let all = registry.slots();
        let mut i: usize = 0;
        while i < all.len()
            invariant
                i <= all.len(),
                registry.wf(),
                all@.len() == registry@.len(),
                forall|j: int|
                    0 <= j < all@.len() ==> ((#[trigger] all@[j]) is Some <==> registry@[j] is Some),
                forall|j: int|
                    0 <= j < all@.len() && (#[trigger] all@[j]) is Some ==> all@[j].unwrap()@
                        == registry@[j].unwrap().1 && all@[j].unwrap()@.name == registry@[j].unwrap().0,
                forall|j: int| 0 <= j < i ==> !#[trigger] matches_at(registry@, model@, j),
            decreases all.len() - i,
        {
            match all[i] {
                Some(adapter) => {
                    if contains_str(model, adapter.name()) {
                        proof {
                            lemma_first_match(registry@, model@, i as int);
                            registry.lemma_wf();
                            assert(named_at(registry@, adapter@.name, i as int));
                            lemma_position(registry@, adapter@.name, i as int);
                        }
                        return Some(adapter);
                    }
                },
                None => {},
            }
            i = i + 1;
        }
        proof {
            lemma_first_match(registry@, model@, i as int);
        }
        None
    }

    /// Routes a request to a backend.
    pub fn route<'a>(
        &self,
        registry: &'a BackendRegistry,
        balancer: &mut LoadBalancer,
        backend_name: Option<&str>,
        model: Option<&str>,
    ) -> (r: Result<&'a Adapter>)
        requires
            registry.wf(),
            old(balancer).wf(),
        ensures
            final(balancer).wf(),
            route_of(
                self.default_backend(),
                self.fallback_enabled(),
                registry@,
                slice_text(backend_name),
                slice_text(model),
            ) matches Route::Direct(name) ==> final(balancer)@ == old(balancer)@ && r is Ok
                && holds(registry@, name) && r->Ok_0@ == value_of(registry@, name)
                && r->Ok_0@.name == name,
            route_of(
                self.default_backend(),
                self.fallback_enabled(),
                registry@,
                slice_text(backend_name),
                slice_text(model),
            ) is Balanced ==> exists|draw: nat|
                selects(old(balancer)@, healthy_backends(registry@), draw, r, final(balancer)@),
            route_of(
                self.default_backend(),
                self.fallback_enabled(),
                registry@,
                slice_text(backend_name),
                slice_text(model),
            ) is Balanced && old(balancer)@.strategy != LoadBalancingStrategy::Random ==> selects(
                old(balancer)@,
                healthy_backends(registry@),
                0,
                r,
                final(balancer)@,
            ),
            route_of(
                self.default_backend(),
                self.fallback_enabled(),
                registry@,
                slice_text(backend_name),
                slice_text(model),
            ) is Refused ==> final(balancer)@ == old(balancer)@ && r is Err && r->Err_0.has(
                ErrorKind::NoHealthyBackends,
                no_candidate_message(),
            ),
    {
        if let Some(name) = backend_name {
            if let Some(adapter) = registry.get(name) {
                return Ok(adapter);
            }
        }
        if let Some(model_name) = model {
            if let Some(adapter) = Self::find_match(registry, model_name) {
                return Ok(adapter);
            }
        }
        if let Some(default_name) = &self.config.default_backend {
            if let Some(adapter) = registry.get(default_name.as_str()) {
                return Ok(adapter);
            }
        }
        if self.config.fallback_enabled {
            return balancer.select_backend(registry, None);
        }
        Err(AppError::NoHealthyBackends("No healthy backends available".to_string()))
    }
}

impl Default for Router {
    fn default() -> (router: Self)
        ensures
            router.default_backend() is None,
            router.fallback_enabled(),
    {
        Self::new()
    }
}

} // verus!
