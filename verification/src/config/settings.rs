//! The settings record of the gateway, its defaults and its validation.

use crate::error::{AppError, ErrorKind, Result};
use crate::text::{
    chars_of, concat3, contains_string, starts_with_chars, str_eq, string_of_suffix, views,
};
use std::collections::HashMap;
use vstd::prelude::*;

verus! {

/// Root configuration structure.
#[derive(Clone, Debug)]
pub struct Settings {
    pub server: ServerConfig,
    pub auth: AuthConfig,
    pub rate_limit: RateLimitConfig,
    pub storage: StorageConfig,
    pub logging: LoggingConfig,
    pub backends: Vec<BackendConfig>,
}

/// Server configuration.
#[derive(Clone, Debug)]
pub struct ServerConfig {
    pub host: String,
    pub port: u16,
}

pub fn default_host() -> (r: String)
    ensures
        r@ == "0.0.0.0"@,
{
    "0.0.0.0".to_string()
}

pub fn default_port() -> (r: u16)
    ensures
        r == 8080,
{
    8080
}

/// Authentication configuration.
#[derive(Clone, Debug)]
pub struct AuthConfig {
    pub enabled: bool,
    pub api_keys: Vec<String>,
    pub bypass_paths: Vec<String>,
}

/// The key that an `Authorization` header presents: what follows `Bearer `.
pub open spec fn presented_key(authorization: Seq<char>) -> Option<Seq<char>> {
    if "Bearer "@.is_prefix_of(authorization) {
        Some(authorization.skip("Bearer "@.len() as int))
    } else {
        None
    }
}

impl AuthConfig {
    /// Whether a request may pass: where authentication is enabled, its
    /// `Authorization` header presents one of the API keys as a bearer token.
    pub open spec fn accepts_spec(&self, authorization: Option<Seq<char>>) -> bool {
        !self.enabled || (authorization is Some && presented_key(authorization.unwrap()) is Some
            && views(self.api_keys@).contains(presented_key(authorization.unwrap()).unwrap()))
    }

    /// Whether a request with this `Authorization` header, if it has one, may pass.
    pub fn accepts(&self, authorization: Option<&str>) -> (pass: bool)
        ensures
            pass == self.accepts_spec(
                match authorization {
                    Some(a) => Some(a@),
                    None => None,
                },
            ),
    {
        if !self.enabled {
            return true;
        }
        match authorization {
            Some(header) => {
                let chars = chars_of(header);
                proof {
                    reveal_strlit("Bearer ");
                }
                let lead = chars_of("Bearer ");
                if starts_with_chars(&chars, &lead) {
                    let key = string_of_suffix(&chars, lead.len());
                    contains_string(&self.api_keys, key.as_str())
                } else {
                    false
                }
            },
            None => false,
        }
    }
}

pub fn default_true() -> (r: bool)
    ensures
        r,
{
    true
}

/// Rate limiting configuration.
#[derive(Clone, Debug)]
pub struct RateLimitConfig {
    pub enabled: bool,
    pub requests_per_second: u32,
    pub burst_size: u32,
}

pub fn default_rps() -> (r: u32)
    ensures
        r == 100,
{
    100
}

pub fn default_burst() -> (r: u32)
    ensures
        r == 200,
{
    200
}

/// Storage configuration.
#[derive(Clone, Debug)]
pub struct StorageConfig {
    pub base_path: String,
    pub url_prefix: String,
}

pub fn default_storage_path() -> (r: String)
    ensures
        r@ == "./generated"@,
{
    "./generated".to_string()
}

pub fn default_url_prefix() -> (r: String)
    ensures
        r@ == "http://localhost:8080/files"@,
{
    "http://localhost:8080/files".to_string()
}

/// Logging configuration.
#[derive(Clone, Debug)]
pub struct LoggingConfig {
    pub level: String,
    pub format: String,
}

pub fn default_log_level() -> (r: String)
    ensures
        r@ == "info"@,
{
    "info".to_string()
}

pub fn default_log_format() -> (r: String)
    ensures
        r@ == "json"@,
{
    "json".to_string()
}

/// What a backend generates.
#[derive(Clone, Copy, Debug, PartialEq, Eq, Structural)]
pub enum BackendType {
    Image,
    Text,
    /// For backends that support both.
    Multi,
}

impl Default for BackendType {
    fn default() -> (r: Self)
        ensures
            r == BackendType::Image,
    {
        BackendType::Image
    }
}

/// The wire protocol a backend speaks.
#[derive(Clone, Copy, Debug, PartialEq, Eq, Structural)]
pub enum ProtocolType {
    Http,
    Grpc,
    OpenAI,
    Anthropic,
    /// Text Generation Inference.
    Tgi,
}

impl Default for ProtocolType {
    fn default() -> (r: Self)
        ensures
            r == ProtocolType::Http,
    {
        ProtocolType::Http
    }
}

/// The tag under which a protocol is written in configuration and status.
pub open spec fn protocol_tag(protocol: ProtocolType) -> Seq<char> {
    match protocol {
        ProtocolType::Http => "http"@,
        ProtocolType::Grpc => "grpc"@,
        ProtocolType::OpenAI => "openai"@,
        ProtocolType::Anthropic => "anthropic"@,
        ProtocolType::Tgi => "tgi"@,
    }
}

impl ProtocolType {
    /// The tag of this protocol.
    pub fn as_str(&self) -> (r: &'static str)
        ensures
            r@ == protocol_tag(*self),
    {
        match self {
            ProtocolType::Http => "http",
            ProtocolType::Grpc => "grpc",
            ProtocolType::OpenAI => "openai",
            ProtocolType::Anthropic => "anthropic",
            ProtocolType::Tgi => "tgi",
        }
    }

    /// The tag of this protocol, as an owned string.
    pub fn to_string(&self) -> (r: String)
        ensures
            r@ == protocol_tag(*self),
    {
        self.as_str().to_string()
    }
}

/// How the gateway authenticates to a backend.
#[derive(Clone, Debug)]
pub struct BackendAuth {
    pub auth_type: String,
    pub token_env: Option<String>,
    pub header_name: Option<String>,
    pub api_key: Option<String>,
}

impl Default for BackendAuth {
    fn default() -> (r: Self)
        ensures
            r.auth_type@.len() == 0,
            r.token_env is None,
            r.header_name is None,
            r.api_key is None,
    {
        BackendAuth { auth_type: String::new(), token_env: None, header_name: None, api_key: None }
    }
}

pub fn default_auth_type() -> (r: String)
    ensures
        r@ == "none"@,
{
    "none".to_string()
}

/// Health check configuration of a backend.
#[derive(Clone, Debug)]
pub struct BackendHealthCheck {
    pub path: String,
    pub interval_secs: u64,
    pub timeout_secs: u64,
}

impl Default for BackendHealthCheck {
    fn default() -> (r: Self)
        ensures
            r.path@.len() == 0,
            r.interval_secs == 0,
            r.timeout_secs == 0,
    {
        BackendHealthCheck { path: String::new(), interval_secs: 0, timeout_secs: 0 }
    }
}

pub fn default_health_timeout() -> (r: u64)
    ensures
        r == 5,
{
    5
}

/// Load balancer configuration of a backend.
#[derive(Clone, Debug)]
pub struct BackendLoadBalancer {
    pub strategy: String,
    pub weight: u32,
}

impl Default for BackendLoadBalancer {
    fn default() -> (r: Self)
        ensures
            r.strategy@.len() == 0,
            r.weight == 0,
    {
        BackendLoadBalancer { strategy: String::new(), weight: 0 }
    }
}

pub fn default_lb_strategy() -> (r: String)
    ensures
        r@ == "round_robin"@,
{
    "round_robin".to_string()
}

/// Backend configuration.
#[derive(Clone, Debug)]
pub struct BackendConfig {
    pub name: String,
    pub backend_type: BackendType,
    pub protocol: ProtocolType,
    pub endpoints: Vec<String>,
    pub enabled: bool,
    pub auth: BackendAuth,
    pub health_check: BackendHealthCheck,
    pub load_balancer: BackendLoadBalancer,
    pub models: Vec<String>,
    pub capabilities: Vec<String>,
    /// Flat form of `health_check.path`, kept for older configuration files.
    pub health_check_path: String,
    /// Flat form of `health_check.interval_secs`.
    pub health_check_interval_secs: u64,
    pub timeout_ms: u64,
    /// Flat form of `load_balancer.weight`.
    pub weight: u32,
}

pub fn default_health_check_path() -> (r: String)
    ensures
        r@ == "/health"@,
{
    "/health".to_string()
}

pub fn default_health_check_interval() -> (r: u64)
    ensures
        r == 30,
{
    30
}

pub fn default_timeout() -> (r: u64)
    ensures
        r == 60000,
{
    60000
}

pub fn default_weight() -> (r: u32)
    ensures
        r == 1,
{
    1
}

/// The backends file: defaults, backends by group, and routing.
#[derive(Clone, Debug)]
pub struct BackendsConfig {
    pub version: String,
    pub defaults: BackendsDefaults,
    pub backends: BackendGroups,
    pub routing: RoutingConfig,
}

#[derive(Clone, Debug)]
pub struct BackendsDefaults {
    pub health_check: BackendHealthCheck,
    pub connection: ConnectionDefaults,
}

#[derive(Clone, Debug)]
pub struct ConnectionDefaults {
    pub timeout_ms: u64,
    pub retry_count: u32,
}

impl Default for ConnectionDefaults {
    fn default() -> (r: Self)
        ensures
            r.timeout_ms == 0,
            r.retry_count == 0,
    {
        ConnectionDefaults { timeout_ms: 0, retry_count: 0 }
    }
}

pub fn default_retry_count() -> (r: u32)
    ensures
        r == 3,
{
    3
}

#[derive(Clone, Debug)]
pub struct BackendGroups {
    pub image: Vec<BackendConfig>,
    pub text: Vec<BackendConfig>,
    pub grpc: Vec<BackendConfig>,
}

impl Default for BackendGroups {
    fn default() -> (r: Self)
        ensures
            r.image@.len() == 0,
            r.text@.len() == 0,
            r.grpc@.len() == 0,
    {
        BackendGroups { image: Vec::new(), text: Vec::new(), grpc: Vec::new() }
    }
}

#[derive(Clone, Debug)]
pub struct RoutingConfig {
    pub default_strategy: String,
    pub model_mappings: HashMap<String, String>,
    pub fallbacks: HashMap<String, Vec<String>>,
}

impl Default for RoutingConfig {
    fn default() -> (r: Self)
        ensures
            r.default_strategy@.len() == 0,
            r.model_mappings@.len() == 0,
            r.fallbacks@.len() == 0,
    {
        RoutingConfig {
            default_strategy: String::new(),
            model_mappings: HashMap::new(),
            fallbacks: HashMap::new(),
        }
    }
}

impl Default for BackendsDefaults {
    fn default() -> (r: Self)
        ensures
            r.health_check.path@.len() == 0,
            r.health_check.interval_secs == 0,
            r.health_check.timeout_secs == 0,
            r.connection.timeout_ms == 0,
            r.connection.retry_count == 0,
    {
        BackendsDefaults {
            health_check: BackendHealthCheck::default(),
            connection: ConnectionDefaults::default(),
        }
    }
}

impl Default for BackendsConfig {
    fn default() -> (r: Self)
        ensures
            r.version@.len() == 0,
            r.backends.image@.len() == 0,
            r.backends.text@.len() == 0,
            r.backends.grpc@.len() == 0,
    {
        BackendsConfig {
            version: String::new(),
            defaults: BackendsDefaults::default(),
            backends: BackendGroups::default(),
            routing: RoutingConfig::default(),
        }
    }
}

/// The format of a configuration file.
#[derive(Clone, Copy, Debug, PartialEq, Eq, Structural)]
pub enum FileFormat {
    Yaml,
    Toml,
}

/// The format a configuration file is read in, given the extension of its
/// path if it has one: YAML for `yaml` and `yml`, TOML for every other path.
pub open spec fn format_of(extension: Option<Seq<char>>) -> FileFormat {
    match extension {
        Some(ext) => if ext == "yaml"@ || ext == "yml"@ {
            FileFormat::Yaml
        } else {
            FileFormat::Toml
        },
        None => FileFormat::Toml,
    }
}

/// `backend` with its type set to `backend_type`.
pub open spec fn with_type(backend: BackendConfig, backend_type: BackendType) -> BackendConfig {
    BackendConfig { backend_type, ..backend }
}

/// The groups of a backends file as one list: the image group with the type
/// set to image, then the text group with the type set to text, then the
/// gRPC group as it stands.
pub open spec fn flattened(groups: BackendGroups) -> Seq<BackendConfig> {
    groups.image@.map_values(|b: BackendConfig| with_type(b, BackendType::Image))
        + groups.text@.map_values(|b: BackendConfig| with_type(b, BackendType::Text))
        + groups.grpc@
}

/// The message for a backend without endpoints.
pub open spec fn no_endpoint_message(name: Seq<char>) -> Seq<char> {
    "Backend '"@ + name + "' must have at least one endpoint"@
}

/// What is wrong with the first backend of `backends` that is not valid, if
/// there is one: an empty name, or no endpoint.
pub open spec fn first_backend_fault(backends: Seq<BackendConfig>) -> Option<Seq<char>>
    decreases backends.len(),
{
    if backends.len() == 0 {
        None
    } else if backends[0].name@.len() == 0 {
        Some("Backend name cannot be empty"@)
    } else if backends[0].endpoints@.len() == 0 {
        Some(no_endpoint_message(backends[0].name@))
    } else {
        first_backend_fault(backends.skip(1))
    }
}

/// Whether a backend is enabled and of the given type.
pub open spec fn enabled_of_type(backend: BackendConfig, backend_type: BackendType) -> bool {
    backend.backend_type == backend_type && backend.enabled
}

/// The backends behind a list of references.
pub open spec fn referents(refs: Seq<&BackendConfig>) -> Seq<BackendConfig> {
    refs.map_values(|b: &BackendConfig| *b)
}

impl Settings {
    /// What is wrong with these settings, if anything: a server port of 0,
    /// or else the fault of the first backend that has one.
    pub open spec fn fault(&self) -> Option<Seq<char>> {
        if self.server.port == 0 {
            Some("Server port cannot be 0"@)
        } else {
            first_backend_fault(self.backends@)
        }
    }

    /// The format in which the file at a path with this extension is read.
    pub fn file_format(extension: Option<&str>) -> (format: FileFormat)
        ensures
            format == format_of(
                match extension {
                    Some(ext) => Some(ext@),
                    None => None,
                },
            ),
    {
        match extension {
            Some(ext) => {
                if str_eq(ext, "yaml") || str_eq(ext, "yml") {
                    FileFormat::Yaml
                } else {
                    FileFormat::Toml
                }
            },
            None => FileFormat::Toml,
        }
    }

    /// Flatten backend groups into a single list.
    pub fn flatten_backends(config: BackendsConfig) -> (backends: Vec<BackendConfig>)
        ensures
            backends@ == flattened(config.backends),
    {
        let BackendsConfig { version: _, defaults: _, backends: groups, routing: _ } = config;
        let BackendGroups { image, text, grpc } = groups;
        let ghost first = image@.map_values(|b: BackendConfig| with_type(b, BackendType::Image));
        let ghost second = text@.map_values(|b: BackendConfig| with_type(b, BackendType::Text));
        let ghost third = grpc@;
        let mut backends: Vec<BackendConfig> = Vec::new();
        for backend in it: image
            invariant
                it.seq().len() == first.len(),
                forall|j: int| 0 <= j < first.len() ==> first[j] == with_type(it.seq()[j], BackendType::Image),
                backends@ == first.take(it.index()),
        {
            let mut backend = backend;
            backend.backend_type = BackendType::Image;
            backends.push(backend);
            assert(backends@ =~= first.take(it.index() + 1));
        }
        assert(backends@ =~= first);
        for backend in it: text
            invariant
                it.seq().len() == second.len(),
                forall|j: int| 0 <= j < second.len() ==> second[j] == with_type(it.seq()[j], BackendType::Text),
                backends@ == first + second.take(it.index()),
        {
            let mut backend = backend;
            backend.backend_type = BackendType::Text;
            backends.push(backend);
            assert(backends@ =~= first + second.take(it.index() + 1));
        }
        assert(backends@ =~= first + second);
        for backend in it: grpc
            invariant
                it.seq() == third,
                backends@ == first + second + third.take(it.index()),
        {
            backends.push(backend);
            assert(backends@ =~= first + second + third.take(it.index() + 1));
        }
        assert(backends@ =~= first + second + third);
        backends
    }

    /// Takes the backends of a backends file, in place of those that the
    /// settings held.
    pub fn apply_backends(&mut self, config: BackendsConfig)
        ensures
            final(self).backends@ == flattened(config.backends),
            final(self).server == old(self).server,
            final(self).auth == old(self).auth,
            final(self).rate_limit == old(self).rate_limit,
            final(self).storage == old(self).storage,
            final(self).logging == old(self).logging,
    {
        self.backends = Self::flatten_backends(config);
    }

    /// Validate the configuration.
    pub fn validate(&self) -> (r: Result<()>)
        ensures
            r is Ok <==> self.fault() is None,
            r matches Err(e) ==> e.has(ErrorKind::Config, self.fault().unwrap()),
    {
        if self.server.port == 0 {
            return Err(AppError::Config("Server port cannot be 0".to_string()));
        }
        let mut i: usize = 0;
        assert(self.backends@.skip(0) == self.backends@);
        while i < self.backends.len()
            invariant
                i <= self.backends.len(),
                self.server.port != 0,
                first_backend_fault(self.backends@) == first_backend_fault(
                    self.backends@.skip(i as int),
                ),
            decreases self.backends.len() - i,
        {
            let backend = &self.backends[i];
            assert(self.backends@.skip(i as int)[0] == self.backends@[i as int]);
            if backend.name.as_str().unicode_len() == 0 {
                return Err(AppError::Config("Backend name cannot be empty".to_string()));
            }
            if backend.endpoints.len() == 0 {
                let message = concat3(
                    "Backend '",
                    backend.name.as_str(),
                    "' must have at least one endpoint",
                );
                return Err(AppError::Config(message));
            }
            assert(self.backends@.skip(i as int).skip(1) == self.backends@.skip(i + 1));
            i = i + 1;
        }
        Ok(())
    }

    /// Get backends by type: the enabled backends of that type, in order.
    pub fn get_backends_by_type(&self, backend_type: BackendType) -> (found: Vec<&BackendConfig>)
        ensures
            referents(found@) == self.backends@.filter(
                |b: BackendConfig| enabled_of_type(b, backend_type),
            ),
    {
        let ghost wanted = |b: BackendConfig| enabled_of_type(b, backend_type);
        let mut found: Vec<&BackendConfig> = Vec::new();
        let mut i: usize = 0;
        proof {
            reveal(Seq::filter);
            assert(self.backends@.take(0).filter(wanted) =~= Seq::empty());
            assert(referents(found@) =~= Seq::empty());
        }
        while i < self.backends.len()
            invariant
                i <= self.backends.len(),
                wanted == |b: BackendConfig| enabled_of_type(b, backend_type),
                referents(found@) == self.backends@.take(i as int).filter(wanted),
            decreases self.backends.len() - i,
        {
            let backend = &self.backends[i];
            let ghost before = found@;
            proof {
                reveal(Seq::filter);
                assert(self.backends@.take(i + 1).drop_last() == self.backends@.take(i as int));
                assert(self.backends@.take(i + 1).last() == *backend);
            }
            if backend.backend_type == backend_type && backend.enabled {
                found.push(backend);
                assert(referents(found@) =~= referents(before).push(*backend));
            }
            i = i + 1;
        }
        assert(self.backends@.take(self.backends@.len() as int) == self.backends@);
        found
    }

    /// Get enabled backends, in order.
    pub fn get_enabled_backends(&self) -> (found: Vec<&BackendConfig>)
        ensures
            referents(found@) == self.backends@.filter(|b: BackendConfig| b.enabled),
    {
        let ghost wanted = |b: BackendConfig| b.enabled;
        let mut found: Vec<&BackendConfig> = Vec::new();
        let mut i: usize = 0;
        proof {
            reveal(Seq::filter);
            assert(self.backends@.take(0).filter(wanted) =~= Seq::empty());
            assert(referents(found@) =~= Seq::empty());
        }
        while i < self.backends.len()
            invariant
                i <= self.backends.len(),
                wanted == |b: BackendConfig| b.enabled,
                referents(found@) == self.backends@.take(i as int).filter(wanted),
            decreases self.backends.len() - i,
        {
            let backend = &self.backends[i];
            let ghost before = found@;
            proof {
                reveal(Seq::filter);
                assert(self.backends@.take(i + 1).drop_last() == self.backends@.take(i as int));
                assert(self.backends@.take(i + 1).last() == *backend);
            }
            if backend.enabled {
                found.push(backend);
                assert(referents(found@) =~= referents(before).push(*backend));
            }
            i = i + 1;
        }
        assert(self.backends@.take(self.backends@.len() as int) == self.backends@);
        found
    }
}

impl Default for Settings {
    fn default() -> (r: Self)
        ensures
            r.server.host@ == "0.0.0.0"@,
            r.server.port == 8080,
            r.auth.enabled,
            r.auth.api_keys@.len() == 0,
            views(r.auth.bypass_paths@) == seq!["/health"@],
            r.rate_limit.enabled,
            r.rate_limit.requests_per_second == 100,
            r.rate_limit.burst_size == 200,
            r.storage.base_path@ == "./generated"@,
            r.storage.url_prefix@ == "http://localhost:8080/files"@,
            r.logging.level@ == "info"@,
            r.logging.format@ == "json"@,
            r.backends@.len() == 0,
            r.fault() is None,
    {
        let mut bypass_paths: Vec<String> = Vec::new();
        bypass_paths.push("/health".to_string());
        assert(views(bypass_paths@) =~= seq!["/health"@]);
        Settings {
            server: ServerConfig { host: default_host(), port: default_port() },
            auth: AuthConfig { enabled: true, api_keys: Vec::new(), bypass_paths },
            rate_limit: RateLimitConfig {
                enabled: true,
                requests_per_second: default_rps(),
                burst_size: default_burst(),
            },
            storage: StorageConfig {
                base_path: default_storage_path(),
                url_prefix: default_url_prefix(),
            },
            logging: LoggingConfig { level: default_log_level(), format: default_log_format() },
            backends: Vec::new(),
        }
    }
}

impl Default for BackendConfig {
    fn default() -> (r: Self)
        ensures
            r.name@.len() == 0,
            r.backend_type == BackendType::Image,
            r.protocol == ProtocolType::Http,
            r.endpoints@.len() == 0,
            r.enabled,
            r.auth.auth_type@.len() == 0,
            r.auth.token_env is None,
            r.auth.header_name is None,
            r.auth.api_key is None,
            r.health_check.path@.len() == 0,
            r.health_check.interval_secs == 0,
            r.health_check.timeout_secs == 0,
            r.load_balancer.strategy@.len() == 0,
            r.load_balancer.weight == 0,
            r.models@.len() == 0,
            r.capabilities@.len() == 0,
            r.health_check_path@ == "/health"@,
            r.health_check_interval_secs == 30,
            r.timeout_ms == 60000,
            r.weight == 1,
    {
        BackendConfig {
            name: String::new(),
            backend_type: BackendType::default(),
            protocol: ProtocolType::default(),
            endpoints: Vec::new(),
            enabled: true,
            auth: BackendAuth::default(),
            health_check: BackendHealthCheck::default(),
            load_balancer: BackendLoadBalancer::default(),
            models: Vec::new(),
            capabilities: Vec::new(),
            health_check_path: default_health_check_path(),
            health_check_interval_secs: default_health_check_interval(),
            timeout_ms: default_timeout(),
            weight: default_weight(),
        }
    }
}

} // verus!
