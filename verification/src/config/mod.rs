//! Configuration of the gateway.

pub mod settings;

pub use settings::{
    AuthConfig, BackendAuth, BackendConfig, BackendGroups, BackendHealthCheck,
    BackendLoadBalancer, BackendType, BackendsConfig, BackendsDefaults, ConnectionDefaults,
    FileFormat, LoggingConfig, ProtocolType, RateLimitConfig, RoutingConfig, ServerConfig,
    Settings, StorageConfig,
};
