//! Gateway core for a fleet of generative-AI inference backends.
//!
//! The crate holds the backend registries, the load balancer, the router,
//! the health bookkeeping and the request admission logic of the gateway.
//! Network and file access live outside: the functions here take what was
//! read or received as plain values and say what to do next.

pub mod api;
pub mod backend;
pub mod bootstrap;
pub mod chance;
pub mod clock;
pub mod config;
pub mod error;
pub mod gateway;
pub mod queue;
pub mod response;
pub mod text;

pub use error::{AppError, Result};

use backend::registry::BackendRegistry;
use backend::text_registry::TextBackendRegistry;
use config::settings::Settings;
use gateway::health_check::HealthCheckManager;
use gateway::load_balancer::LoadBalancer;
use queue::request_queue::RequestQueue;
use vstd::prelude::*;

verus! {

/// Application state shared across all handlers.
pub struct AppState {
    pub settings: Settings,
    pub backend_registry: BackendRegistry,
    pub text_registry: TextBackendRegistry,
    pub load_balancer: LoadBalancer,
    pub health_manager: HealthCheckManager,
    pub request_queue: RequestQueue,
}

impl AppState {
    /// Every part of the state is well-formed.
    pub open spec fn wf(&self) -> bool {
        &&& self.backend_registry.wf()
        &&& self.text_registry.wf()
        &&& self.load_balancer.wf()
        &&& self.health_manager.wf()
    }

    /// The state of a gateway that has registered no backend yet.
    pub fn new(settings: Settings) -> (state: Self)
        ensures
            state.wf(),
            state.settings == settings,
            state.backend_registry@.len() == 0,
            state.text_registry@.backends.len() == 0,
            state.health_manager@.len() == 0,
    {
        AppState {
            settings,
            backend_registry: BackendRegistry::new(),
            text_registry: TextBackendRegistry::new(),
            load_balancer: LoadBalancer::new(),
            health_manager: HealthCheckManager::new(),
            request_queue: RequestQueue::new(),
        }
    }
}

} // verus!
