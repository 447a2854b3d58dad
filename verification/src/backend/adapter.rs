//! The adapter: the runtime object that stands for one configured backend.
//!
//! An adapter keeps the fixed part of a backend's configuration, the list of
//! its endpoints with their health, and a cursor that walks the healthy
//! endpoints in turn. It decides which endpoint a call goes to and what the
//! outcome of a call means for that endpoint; sending the call is left to
//! the caller.

use crate::backend::endpoint::{EndpointState, Health, TextEndpoint};
use crate::backend::headers::{
    header_name_normal, header_name_of, header_value_accepted, header_value_ok,
};
use crate::config::settings::{protocol_tag, BackendConfig, BackendType, ProtocolType};
use crate::error::{AppError, ErrorKind, Result};
use crate::text::{
    clone_strings, concat, concat3, contains_string, str_eq, trim_end_matches, trim_trailing,
    views,
};
use vstd::prelude::*;

verus! {

/// An adapter as contracts see it.
pub struct AdapterState {
    pub name: Seq<char>,
    pub protocol: ProtocolType,
    pub endpoints: Seq<EndpointState>,
    pub cursor: nat,
    pub health_check_path: Seq<char>,
    pub models: Seq<Seq<char>>,
    pub capabilities: Seq<Seq<char>>,
    pub enabled: bool,
    pub weight: u32,
    pub timeout_ms: u64,
    /// The seconds a health probe may take.
    pub probe_timeout_secs: u64,
    pub auth_token: Option<Seq<char>>,
    pub auth_header_name: Option<Seq<char>>,
}

/// The view of an optional string.
pub open spec fn text_of(s: Option<String>) -> Option<Seq<char>> {
    match s {
        Some(s) => Some(s@),
        None => None,
    }
}

/// The endpoints of a new adapter: each URL healthy, with no failure counted.
pub open spec fn fresh_endpoints(urls: Seq<Seq<char>>) -> Seq<EndpointState> {
    Seq::new(
        urls.len(),
        |i: int|
            EndpointState {
                url: urls[i],
                health: Health { healthy: true, consecutive_failures: 0 },
            },
    )
}

/// The adapter that a configuration describes. `env_token` is the value of
/// the environment variable that `auth.token_env` names, if that variable
/// is set. The token is that value where `auth.token_env` is given, else
/// `auth.api_key`. A text backend takes its health path from `health_check`,
/// every other backend from the flat field.
pub open spec fn adapter_of(config: BackendConfig, env_token: Option<Seq<char>>) -> AdapterState {
    AdapterState {
        name: config.name@,
        protocol: config.protocol,
        endpoints: fresh_endpoints(views(config.endpoints@)),
        cursor: 0,
        health_check_path: if config.backend_type == BackendType::Text {
            config.health_check.path@
        } else {
            config.health_check_path@
        },
        models: views(config.models@),
        capabilities: views(config.capabilities@),
        enabled: config.enabled,
        weight: config.weight,
        timeout_ms: config.timeout_ms,
        probe_timeout_secs: config.health_check.timeout_secs,
        auth_token: if config.auth.token_env is Some {
            env_token
        } else {
            text_of(config.auth.api_key)
        },
        auth_header_name: text_of(config.auth.header_name),
    }
}

/// The URLs of the endpoints, in order.
pub open spec fn urls_of(endpoints: Seq<EndpointState>) -> Seq<Seq<char>> {
    Seq::new(endpoints.len(), |i: int| endpoints[i].url)
}

/// Some endpoint is healthy.
pub open spec fn any_healthy(endpoints: Seq<EndpointState>) -> bool {
    exists|i: int| 0 <= i < endpoints.len() && (#[trigger] endpoints[i]).health.healthy
}

/// The URLs of the healthy endpoints, in order.
pub open spec fn healthy_urls(endpoints: Seq<EndpointState>) -> Seq<Seq<char>>
    decreases endpoints.len(),
{
    if endpoints.len() == 0 {
        Seq::empty()
    } else if endpoints.last().health.healthy {
        healthy_urls(endpoints.drop_last()).push(endpoints.last().url)
    } else {
        healthy_urls(endpoints.drop_last())
    }
}

/// A healthy endpoint exists exactly where the list of healthy URLs is not empty.
pub proof fn lemma_healthy_urls(endpoints: Seq<EndpointState>)
    ensures
        any_healthy(endpoints) <==> healthy_urls(endpoints).len() > 0,
        healthy_urls(endpoints).len() <= endpoints.len(),
    decreases endpoints.len(),
{
    if endpoints.len() > 0 {
        lemma_healthy_urls(endpoints.drop_last());
        if any_healthy(endpoints) {
            let i = choose|i: int| 0 <= i < endpoints.len() && (#[trigger] endpoints[i]).health.healthy;
            if i < endpoints.len() - 1 {
                assert(endpoints.drop_last()[i].health.healthy);
            }
        }
        if any_healthy(endpoints.drop_last()) {
            let i = choose|i: int|
                0 <= i < endpoints.drop_last().len() && (#[trigger] endpoints.drop_last()[i]).health.healthy;
            assert(endpoints[i].health.healthy);
        }
        if endpoints.last().health.healthy {
            assert(endpoints[endpoints.len() - 1].health.healthy);
        }
    }
}

/// The cursor after one more selection among `healthy` endpoints.
pub open spec fn next_cursor(cursor: nat, healthy: nat) -> nat
    recommends
        healthy > 0,
{
    (cursor + 1) % healthy
}

/// The endpoint that the next call goes to: none where no endpoint is
/// healthy, else the healthy endpoint under the advanced cursor.
pub open spec fn selected(state: AdapterState) -> Option<Seq<char>> {
    let healthy = healthy_urls(state.endpoints);
    if healthy.len() == 0 {
        None
    } else {
        Some(healthy[next_cursor(state.cursor, healthy.len()) as int])
    }
}

/// The adapter after a selection: the cursor has advanced where an endpoint
/// was healthy.
pub open spec fn after_selection(state: AdapterState) -> AdapterState {
    let healthy = healthy_urls(state.endpoints);
    if healthy.len() == 0 {
        state
    } else {
        AdapterState { cursor: next_cursor(state.cursor, healthy.len()), ..state }
    }
}

/// What an upstream interaction means for the health of its endpoint.
#[derive(Clone, Copy, Debug, PartialEq, Eq, Structural)]
pub enum HealthEffect {
    MarkHealthy,
    MarkUnhealthy,
    Unchanged,
}

/// `i` is the first endpoint with that URL, or the number of endpoints if none has it.
pub open spec fn is_first_with_url(endpoints: Seq<EndpointState>, url: Seq<char>, i: int) -> bool {
    &&& 0 <= i <= endpoints.len()
    &&& i < endpoints.len() ==> endpoints[i].url == url
    &&& forall|j: int| 0 <= j < i ==> (#[trigger] endpoints[j]).url != url
}

/// The first endpoint with that URL, or the number of endpoints if none has it.
pub open spec fn first_with_url(endpoints: Seq<EndpointState>, url: Seq<char>) -> int {
    choose|i: int| is_first_with_url(endpoints, url, i)
}

/// The first endpoint with a URL is the one that `is_first_with_url` describes.
pub proof fn lemma_first_with_url(endpoints: Seq<EndpointState>, url: Seq<char>, i: int)
    requires
        is_first_with_url(endpoints, url, i),
    ensures
        first_with_url(endpoints, url) == i,
{
    let g = first_with_url(endpoints, url);
    assert(is_first_with_url(endpoints, url, g));
    if g < i {
        assert(endpoints[g].url != url);
    }
    if i < g {
        assert(endpoints[i].url != url);
    }
}

/// Every list of endpoints and URL have such a first endpoint.
pub proof fn lemma_first_with_url_exists(endpoints: Seq<EndpointState>, url: Seq<char>)
    ensures
        is_first_with_url(endpoints, url, first_with_url(endpoints, url)),
    decreases endpoints.len(),
{
    if endpoints.len() == 0 {
        assert(is_first_with_url(endpoints, url, 0));
    } else {
        let shorter = endpoints.drop_last();
        lemma_first_with_url_exists(shorter, url);
        let i = first_with_url(shorter, url);
        assert forall|j: int| 0 <= j < i implies (#[trigger] endpoints[j]).url != url by {
            assert(shorter[j].url != url);
        }
        if i < shorter.len() {
            assert(shorter[i].url == url);
            assert(is_first_with_url(endpoints, url, i));
        } else if endpoints.last().url == url {
            assert(is_first_with_url(endpoints, url, endpoints.len() - 1));
        } else {
            assert(is_first_with_url(endpoints, url, endpoints.len() as int));
        }
    }
}

/// The health after an effect.
pub open spec fn health_after(health: Health, effect: HealthEffect) -> Health {
    match effect {
        HealthEffect::MarkHealthy => health.after_success(),
        HealthEffect::MarkUnhealthy => health.after_failure(),
        HealthEffect::Unchanged => health,
    }
}

/// The endpoints after an effect on the first one with that URL; unchanged
/// where no endpoint has that URL.
pub open spec fn marked(endpoints: Seq<EndpointState>, url: Seq<char>, effect: HealthEffect) -> Seq<
    EndpointState,
> {
    let i = first_with_url(endpoints, url);
    if i < endpoints.len() {
        endpoints.update(
            i,
            EndpointState { url: endpoints[i].url, health: health_after(endpoints[i].health, effect) },
        )
    } else {
        endpoints
    }
}

/// The adapter after an effect on the endpoint with that URL.
pub open spec fn with_marked(
    state: AdapterState,
    url: Seq<char>,
    effect: HealthEffect,
) -> AdapterState {
    AdapterState { endpoints: marked(state.endpoints, url, effect), ..state }
}

/// The header that says the body is JSON.
pub open spec fn json_header() -> (Seq<char>, Seq<char>) {
    ("content-type"@, "application/json"@)
}

/// The headers of an upstream call. The body is always JSON. A token goes
/// under the configured header name as it stands, or else as a bearer
/// token under `authorization`; a token or a name that the client refuses
/// is left out, and so is a token whose header would be `content-type`.
pub open spec fn auth_headers(token: Option<Seq<char>>, header_name: Option<Seq<char>>) -> Seq<
    (Seq<char>, Seq<char>),
> {
    match token {
        None => seq![json_header()],
        Some(t) => match header_name {
            Some(h) => if header_value_ok(t) && header_name_of(h) is Some {
                custom_headers(header_name_of(h).unwrap(), t)
            } else {
                seq![json_header()]
            },
            None => if header_value_ok("Bearer "@ + t) {
                seq![json_header(), ("authorization"@, "Bearer "@ + t)]
            } else {
                seq![json_header()]
            },
        },
    }
}

/// The headers where a token goes under a header name of its own, given in
/// its normal form.
pub open spec fn custom_headers(name: Seq<char>, token: Seq<char>) -> Seq<(Seq<char>, Seq<char>)> {
    if name == "content-type"@ {
        seq![json_header()]
    } else {
        seq![json_header(), (name, token)]
    }
}

/// Headers as contracts see them.
pub open spec fn header_views(headers: Seq<(String, String)>) -> Seq<(Seq<char>, Seq<char>)> {
    Seq::new(headers.len(), |i: int| (headers[i].0@, headers[i].1@))
}

/// What an adapter is asked to do upstream.
#[derive(Clone, Copy, Debug, PartialEq, Eq, Structural)]
pub enum Operation {
    ChatCompletion,
    TextCompletion,
    ImageGeneration,
    ListModels,
}

/// The path of an operation below an endpoint.
pub open spec fn operation_path(operation: Operation) -> Seq<char> {
    match operation {
        Operation::ChatCompletion => "/chat/completions"@,
        Operation::TextCompletion => "/completions"@,
        Operation::ImageGeneration => "/images/generations"@,
        Operation::ListModels => "/models"@,
    }
}

/// The URL of `path` below `endpoint`: the endpoint without the slashes at
/// its end, then the path.
pub open spec fn url_below(endpoint: Seq<char>, path: Seq<char>) -> Seq<char> {
    trim_trailing(endpoint, '/') + path
}

/// One call to send upstream.
#[derive(Clone, Debug)]
pub struct UpstreamRequest {
    /// The endpoint that was selected, as configured.
    pub endpoint: String,
    /// The URL to call.
    pub url: String,
    /// The headers to send, as names and values.
    pub headers: Vec<(String, String)>,
    /// The time the call may take, in milliseconds.
    pub timeout_ms: u64,
}

impl UpstreamRequest {
    /// This is the call that goes to `endpoint` of the adapter `state`, at
    /// `path` below it.
    pub open spec fn calls(
        &self,
        state: AdapterState,
        endpoint: Seq<char>,
        path: Seq<char>,
    ) -> bool {
        &&& self.endpoint@ == endpoint
        &&& self.url@ == url_below(endpoint, path)
        &&& header_views(self.headers@) == auth_headers(state.auth_token, state.auth_header_name)
        &&& self.timeout_ms == state.timeout_ms
    }
}

/// What came back from an upstream call.
pub enum UpstreamReply<T> {
    /// The upstream was not reached: the transport's message.
    Unreachable(String),
    /// The upstream answered.
    Answered {
        /// The HTTP status.
        status: u16,
        /// The status as the client writes it, code and reason.
        status_line: String,
        /// The parsed body, or why the body does not parse. Read for a 2xx status only.
        parsed: std::result::Result<T, String>,
        /// The body as text. Read for other statuses only.
        body: String,
    },
}

/// A status that reports success.
pub open spec fn is_success(status: u16) -> bool {
    200 <= status < 300
}

/// What a reply to a request means for the endpoint it came from: a
/// transport failure or a status from 500 on counts as a failure, a 2xx
/// answer with a body that parses as a success, and anything else leaves
/// the health as it is.
pub open spec fn reply_effect<T>(reply: UpstreamReply<T>) -> HealthEffect {
    match reply {
        UpstreamReply::Unreachable(_) => HealthEffect::MarkUnhealthy,
        UpstreamReply::Answered { status, status_line, parsed, body } => if is_success(status) {
            if parsed is Ok {
                HealthEffect::MarkHealthy
            } else {
                HealthEffect::Unchanged
            }
        } else if status >= 500 {
            HealthEffect::MarkUnhealthy
        } else {
            HealthEffect::Unchanged
        },
    }
}

/// The message for a body that does not parse.
pub open spec fn parse_failure_message(cause: Seq<char>) -> Seq<char> {
    "Failed to parse response: "@ + cause
}

/// The message for an answer that is no success.
pub open spec fn rejection_message(status_line: Seq<char>, body: Seq<char>) -> Seq<char> {
    "Backend returned "@ + status_line + ": "@ + body
}

/// The error that a reply to a request stands for, if it stands for one.
pub open spec fn reply_error<T>(reply: UpstreamReply<T>) -> Option<(ErrorKind, Seq<char>)> {
    match reply {
        UpstreamReply::Unreachable(message) => Some((ErrorKind::HttpClient, message@)),
        UpstreamReply::Answered { status, status_line, parsed, body } => if is_success(status) {
            match parsed {
                Ok(_) => None,
                Err(cause) => Some((ErrorKind::BackendError, parse_failure_message(cause@))),
            }
        } else {
            Some((ErrorKind::BackendError, rejection_message(status_line@, body@)))
        },
    }
}

/// What came back from a health probe of one endpoint.
#[derive(Clone, Copy, Debug, PartialEq, Eq, Structural)]
pub enum ProbeReply {
    /// The endpoint was not reached in time.
    Unreachable,
    /// The endpoint answered with this HTTP status.
    Status(u16),
}

/// A probe passes on a 2xx answer and on 401: the upstream is there, and
/// authentication is another matter.
pub open spec fn probe_passed(reply: ProbeReply) -> bool {
    match reply {
        ProbeReply::Unreachable => false,
        ProbeReply::Status(status) => is_success(status) || status == 401,
    }
}

/// What a probe means for its endpoint: a pass counts as a success, another
/// 4xx answer leaves the health as it is, anything else counts as a failure.
pub open spec fn probe_effect(reply: ProbeReply) -> HealthEffect {
    match reply {
        ProbeReply::Unreachable => HealthEffect::MarkUnhealthy,
        ProbeReply::Status(status) => if is_success(status) || status == 401 {
            HealthEffect::MarkHealthy
        } else if 400 <= status < 500 {
            HealthEffect::Unchanged
        } else {
            HealthEffect::MarkUnhealthy
        },
    }
}

/// The endpoints after a round of probes, each applied in turn to the first
/// endpoint with its URL.
pub open spec fn probed(endpoints: Seq<EndpointState>, replies: Seq<(String, ProbeReply)>) -> Seq<
    EndpointState,
>
    decreases replies.len(),
{
    if replies.len() == 0 {
        endpoints
    } else {
        marked(
            probed(endpoints, replies.drop_last()),
            replies.last().0@,
            probe_effect(replies.last().1),
        )
    }
}

/// Some probe of the round passed.
pub open spec fn any_passed(replies: Seq<(String, ProbeReply)>) -> bool {
    exists|i: int| 0 <= i < replies.len() && probe_passed((#[trigger] replies[i]).1)
}

/// Every unhealthy endpoint has failed at least as often in a row as the
/// threshold says.
pub open spec fn all_consistent(endpoints: Seq<EndpointState>) -> bool {
    forall|i: int| 0 <= i < endpoints.len() ==> (#[trigger] endpoints[i]).health.consistent()
}

/// The endpoints of a new adapter are consistent.
pub proof fn lemma_fresh_consistent(urls: Seq<Seq<char>>)
    ensures
        all_consistent(fresh_endpoints(urls)),
{
}

/// An effect on an endpoint keeps the endpoints consistent.
pub proof fn lemma_marked_consistent(
    endpoints: Seq<EndpointState>,
    url: Seq<char>,
    effect: HealthEffect,
)
    requires
        all_consistent(endpoints),
    ensures
        all_consistent(marked(endpoints, url, effect)),
{
    let i = first_with_url(endpoints, url);
    lemma_first_with_url_exists(endpoints, url);
    if 0 <= i < endpoints.len() {
        assert(endpoints[i].health.consistent());
        assert forall|j: int| 0 <= j < endpoints.len() implies (#[trigger] marked(
            endpoints,
            url,
            effect,
        )[j]).health.consistent() by {
            if j != i {
                assert(endpoints[j].health.consistent());
            }
        }
    }
}

/// A round of probes keeps the endpoints consistent.
pub proof fn lemma_probed_consistent(
    endpoints: Seq<EndpointState>,
    replies: Seq<(String, ProbeReply)>,
)
    requires
        all_consistent(endpoints),
    ensures
        all_consistent(probed(endpoints, replies)),
    decreases replies.len(),
{
    if replies.len() > 0 {
        lemma_probed_consistent(endpoints, replies.drop_last());
        lemma_marked_consistent(
            probed(endpoints, replies.drop_last()),
            replies.last().0@,
            probe_effect(replies.last().1),
        );
    }
}

/// What an image backend is asked to generate.
#[derive(Clone, Debug)]
pub struct GenerateRequest {
    pub prompt: String,
    pub negative_prompt: Option<String>,
    pub n: u32,
    pub width: u32,
    pub height: u32,
    pub model: Option<String>,
    pub seed: Option<i64>,
    /// Guidance scale, as the bits of its single-precision value.
    pub guidance_scale: Option<u32>,
    pub num_inference_steps: Option<u32>,
    pub response_format: String,
}

/// One image that a backend generated.
#[derive(Clone, Debug)]
pub struct GeneratedImage {
    pub b64_json: Option<String>,
    pub url: Option<String>,
    pub revised_prompt: Option<String>,
}

/// What an image backend generated.
#[derive(Clone, Debug)]
pub struct GenerateResponse {
    pub images: Vec<GeneratedImage>,
}

/// What a backend reports of itself.
#[derive(Clone, Debug)]
pub struct BackendStatus {
    pub name: String,
    pub protocol: String,
    pub endpoints: Vec<String>,
    pub healthy: bool,
    pub models: Vec<String>,
    pub capabilities: Vec<String>,
    pub weight: u32,
    pub enabled: bool,
}

impl BackendStatus {
    /// This status reports the adapter `state` under the protocol tag `protocol`.
    pub open spec fn reports(&self, state: AdapterState, protocol: Seq<char>) -> bool {
        &&& self.name@ == state.name
        &&& self.protocol@ == protocol
        &&& views(self.endpoints@) == urls_of(state.endpoints)
        &&& self.healthy == any_healthy(state.endpoints)
        &&& views(self.models@) == state.models
        &&& views(self.capabilities@) == state.capabilities
        &&& self.weight == state.weight
        &&& self.enabled == state.enabled
    }
}

/// The runtime object of one configured backend.
pub struct Adapter {
    name: String,
    protocol: ProtocolType,
    endpoints: Vec<TextEndpoint>,
    health_check_path: String,
    models: Vec<String>,
    capabilities: Vec<String>,
    enabled: bool,
    weight: u32,
    timeout_ms: u64,
    probe_timeout_secs: u64,
    current_endpoint_index: usize,
    auth_token: Option<String>,
    auth_header_name: Option<String>,
}

/// The endpoints of an adapter as contracts see them.
pub open spec fn endpoint_views(endpoints: Seq<TextEndpoint>) -> Seq<EndpointState> {
    Seq::new(endpoints.len(), |i: int| endpoints[i]@)
}

impl View for Adapter {
    type V = AdapterState;

    closed spec fn view(&self) -> AdapterState {
        AdapterState {
            name: self.name@,
            protocol: self.protocol,
            endpoints: endpoint_views(self.endpoints@),
            cursor: self.current_endpoint_index as nat,
            health_check_path: self.health_check_path@,
            models: views(self.models@),
            capabilities: views(self.capabilities@),
            enabled: self.enabled,
            weight: self.weight,
            timeout_ms: self.timeout_ms,
            probe_timeout_secs: self.probe_timeout_secs,
            auth_token: text_of(self.auth_token),
            auth_header_name: text_of(self.auth_header_name),
        }
    }
}

/// A copy of an optional string.
pub fn clone_text(s: &Option<String>) -> (r: Option<String>)
    ensures
        text_of(r) == text_of(*s),
{
    match s {
        Some(s) => Some(s.clone()),
        None => None,
    }
}

impl Adapter {
    /// The adapter that `config` describes, with every endpoint healthy.
    pub fn new(config: &BackendConfig, env_token: Option<String>) -> (adapter: Self)
        ensures
            adapter@ == adapter_of(*config, text_of(env_token)),
            all_consistent(adapter@.endpoints),
    {
        let mut endpoints: Vec<TextEndpoint> = Vec::new();
        let mut i: usize = 0;
        while i < config.endpoints.len()
            invariant
                i <= config.endpoints.len(),
                endpoints@.len() == i,
                forall|j: int|
                    0 <= j < i ==> (#[trigger] endpoints@[j])@ == (EndpointState {
                        url: config.endpoints@[j]@,
                        health: Health { healthy: true, consecutive_failures: 0 },
                    }),
            decreases config.endpoints.len() - i,
        {
            endpoints.push(TextEndpoint::new(config.endpoints[i].clone()));
            i = i + 1;
        }
        let auth_token = if config.auth.token_env.is_some() {
            env_token
        } else {
            clone_text(&config.auth.api_key)
        };
        let health_check_path = if config.backend_type == BackendType::Text {
            config.health_check.path.clone()
        } else {
            config.health_check_path.clone()
        };
        let adapter = Adapter {
            name: config.name.clone(),
            protocol: config.protocol,
            endpoints,
            health_check_path,
            models: clone_strings(&config.models),
            capabilities: clone_strings(&config.capabilities),
            enabled: config.enabled,
            weight: config.weight,
            timeout_ms: config.timeout_ms,
            probe_timeout_secs: config.health_check.timeout_secs,
            current_endpoint_index: 0,
            auth_token,
            auth_header_name: clone_text(&config.auth.header_name),
        };
        assert(adapter@.endpoints =~= fresh_endpoints(views(config.endpoints@)));
        adapter
    }

    /// The backend name.
    pub fn name(&self) -> (name: &str)
        ensures
            name@ == self@.name,
    {
        self.name.as_str()
    }

    /// The protocol tag.
    pub fn protocol(&self) -> (tag: &'static str)
        ensures
            tag@ == protocol_tag(self@.protocol),
    {
        self.protocol.as_str()
    }

    /// The protocol.
    pub fn protocol_type(&self) -> (protocol: ProtocolType)
        ensures
            protocol == self@.protocol,
    {
        self.protocol
    }

    /// The declared models.
    pub fn models(&self) -> (models: Vec<String>)
        ensures
            views(models@) == self@.models,
    {
        clone_strings(&self.models)
    }

    /// The declared capabilities.
    pub fn capabilities(&self) -> (capabilities: Vec<String>)
        ensures
            views(capabilities@) == self@.capabilities,
    {
        clone_strings(&self.capabilities)
    }

    /// Whether the backend is enabled.
    pub fn is_enabled(&self) -> (enabled: bool)
        ensures
            enabled == self@.enabled,
    {
        self.enabled
    }

    /// The weight of the backend.
    pub fn weight(&self) -> (weight: u32)
        ensures
            weight == self@.weight,
    {
        self.weight
    }

    /// The time an upstream call may take, in milliseconds.
    pub fn timeout_ms(&self) -> (timeout: u64)
        ensures
            timeout == self@.timeout_ms,
    {
        self.timeout_ms
    }

    /// The time a health probe may take, in seconds.
    pub fn probe_timeout_secs(&self) -> (timeout: u64)
        ensures
            timeout == self@.probe_timeout_secs,
    {
        self.probe_timeout_secs
    }

    /// The URLs of the endpoints, in order.
    pub fn endpoints(&self) -> (urls: Vec<String>)
        ensures
            views(urls@) == urls_of(self@.endpoints),
    {
        let mut urls: Vec<String> = Vec::new();
        let mut i: usize = 0;
        while i < self.endpoints.len()
            invariant
                i <= self.endpoints.len(),
                urls@.len() == i,
                forall|j: int| 0 <= j < i ==> (#[trigger] urls@[j])@ == self.endpoints@[j].url@,
            decreases self.endpoints.len() - i,
        {
            urls.push(self.endpoints[i].url.clone());
            i = i + 1;
        }
        assert(views(urls@) =~= urls_of(self@.endpoints));
        urls
    }

    /// Whether some endpoint is healthy.
    pub fn is_healthy(&self) -> (healthy: bool)
        ensures
            healthy == any_healthy(self@.endpoints),
    {
        let mut i: usize = 0;
        while i < self.endpoints.len()
            invariant
                i <= self.endpoints.len(),
                forall|j: int| 0 <= j < i ==> !(#[trigger] self@.endpoints[j]).health.healthy,
            decreases self.endpoints.len() - i,
        {
            if self.endpoints[i].healthy {
                assert(self@.endpoints[i as int].health.healthy);
                return true;
            }
            i = i + 1;
        }
        false
    }

    /// Whether a model of that name is declared.
    pub fn serves(&self, model: &str) -> (declared: bool)
        ensures
            declared == self@.models.contains(model@),
    {
        contains_string(&self.models, model)
    }

    /// Get the next healthy endpoint: the cursor moves on by one among the
    /// healthy endpoints, and the endpoint under it is handed out.
    pub fn get_next_endpoint(&mut self) -> (endpoint: Option<String>)
        ensures
            text_of(endpoint) == selected(old(self)@),
            final(self)@ == after_selection(old(self)@),
    {
        let ghost all = self@.endpoints;
        let mut healthy: Vec<usize> = Vec::new();
        let mut i: usize = 0;
        assert(all.take(0) =~= Seq::empty());
        while i < self.endpoints.len()
            invariant
                i <= self.endpoints.len(),
                all == self@.endpoints,
                self@ == old(self)@,
                healthy@.len() == healthy_urls(all.take(i as int)).len(),
                forall|k: int|
                    0 <= k < healthy@.len() ==> (#[trigger] healthy@[k]) < i && all[healthy@[k] as int].url
                        == healthy_urls(all.take(i as int))[k],
            decreases self.endpoints.len() - i,
        {
            proof {
                assert(all.take(i + 1).drop_last() =~= all.take(i as int));
                assert(all.take(i + 1).last() == all[i as int]);
                assert(all[i as int] == self.endpoints@[i as int]@);
            }
            if self.endpoints[i].healthy {
                healthy.push(i);
            }
            i = i + 1;
        }
        assert(all.take(all.len() as int) =~= all);
        if healthy.len() == 0 {
            return None;
        }
        let n = healthy.len();
        let next = (self.current_endpoint_index % n + 1) % n;
        proof {
            let c = self.current_endpoint_index as int;
            vstd::arithmetic::div_mod::lemma_add_mod_noop(c, 1, n as int);
            vstd::arithmetic::div_mod::lemma_mod_twice(c, n as int);
            if n > 1 {
                vstd::arithmetic::div_mod::lemma_small_mod(1, n as nat);
            }
            assert(next == next_cursor(c as nat, n as nat));
        }
        self.current_endpoint_index = next;
        let chosen = healthy[next];
        let endpoint = self.endpoints[chosen].url.clone();
        assert(all[chosen as int] == self.endpoints@[chosen as int]@);
        Some(endpoint)
    }

    /// The number of the first endpoint with that URL, or the number of
    /// endpoints if none has it.
    fn find_endpoint(&self, url: &str) -> (i: usize)
        ensures
            is_first_with_url(self@.endpoints, url@, i as int),
            i as int == first_with_url(self@.endpoints, url@),
    {
        let mut i: usize = 0;
        while i < self.endpoints.len()
            invariant
                i <= self.endpoints.len(),
                forall|j: int| 0 <= j < i ==> (#[trigger] self@.endpoints[j]).url != url@,
            decreases self.endpoints.len() - i,
        {
            assert(self@.endpoints[i as int] == self.endpoints@[i as int]@);
            if str_eq(self.endpoints[i].url.as_str(), url) {
                proof {
                    lemma_first_with_url(self@.endpoints, url@, i as int);
                }
                return i;
            }
            i = i + 1;
        }
        proof {
            lemma_first_with_url(self@.endpoints, url@, i as int);
        }
        i
    }

    /// Applies an effect to the first endpoint with that URL.
    pub fn mark_endpoint(&mut self, url: &str, effect: HealthEffect)
        ensures
            final(self)@ == with_marked(old(self)@, url@, effect),
    {
        let i = self.find_endpoint(url);
        if i < self.endpoints.len() {
            let ghost before = self@.endpoints;
            assert(before[i as int] == self.endpoints@[i as int]@);
            match effect {
                HealthEffect::MarkHealthy => {
                    let endpoint = &mut self.endpoints[i];
                    endpoint.mark_healthy();
                },
                HealthEffect::MarkUnhealthy => {
                    let endpoint = &mut self.endpoints[i];
                    endpoint.mark_unhealthy();
                },
                HealthEffect::Unchanged => {},
            }
            assert(self@.endpoints =~= marked(before, url@, effect));
        }
    }

    /// Records a success of the endpoint with that URL.
    pub fn mark_endpoint_healthy(&mut self, url: &str)
        ensures
            final(self)@ == with_marked(old(self)@, url@, HealthEffect::MarkHealthy),
    {
        self.mark_endpoint(url, HealthEffect::MarkHealthy)
    }

    /// Records a failure of the endpoint with that URL.
    pub fn mark_endpoint_unhealthy(&mut self, url: &str)
        ensures
            final(self)@ == with_marked(old(self)@, url@, HealthEffect::MarkUnhealthy),
    {
        self.mark_endpoint(url, HealthEffect::MarkUnhealthy)
    }

    /// The headers where a token goes under a header name of its own, given
    /// in its normal form.
    pub fn headers_with(name: String, token: String) -> (headers: Vec<(String, String)>)
        ensures
            header_views(headers@) == custom_headers(name@, token@),
    {
        let mut headers: Vec<(String, String)> = Vec::new();
        headers.push(("content-type".to_string(), "application/json".to_string()));
        if !str_eq(name.as_str(), "content-type") {
            headers.push((name, token));
        }
        assert(header_views(headers@) =~= custom_headers(name@, token@));
        headers
    }

    /// Get headers with authentication.
    pub fn get_headers(&self) -> (headers: Vec<(String, String)>)
        ensures
            header_views(headers@) == auth_headers(self@.auth_token, self@.auth_header_name),
    {
        let mut headers: Vec<(String, String)> = Vec::new();
        headers.push(("content-type".to_string(), "application/json".to_string()));
        assert(header_views(headers@) =~= seq![json_header()]);
        match &self.auth_token {
            Some(token) => {
                match &self.auth_header_name {
                    Some(header_name) => {
                        // Custom header (e.g., x-api-key)
                        if header_value_accepted(token.as_str()) {
                            match header_name_normal(header_name.as_str()) {
                                Some(name) => {
                                    return Self::headers_with(name, token.clone());
                                },
                                None => {},
                            }
                        }
                    },
                    None => {
                        // Default: Bearer token
                        let bearer = concat("Bearer ", token.as_str());
                        if header_value_accepted(bearer.as_str()) {
                            headers.push(("authorization".to_string(), bearer));
                            assert(header_views(headers@) =~= seq![
                                json_header(),
                                ("authorization"@, "Bearer "@ + token@),
                            ]);
                        }
                    },
                }
            },
            None => {},
        }
        headers
    }

    /// The path of an operation below an endpoint.
    pub fn path_of(operation: Operation) -> (path: &'static str)
        ensures
            path@ == operation_path(operation),
    {
        match operation {
            Operation::ChatCompletion => "/chat/completions",
            Operation::TextCompletion => "/completions",
            Operation::ImageGeneration => "/images/generations",
            Operation::ListModels => "/models",
        }
    }

    /// Starts an operation: selects the next healthy endpoint and says what
    /// to send to it. Fails where no endpoint is healthy.
    pub fn begin(&mut self, operation: Operation) -> (r: Result<UpstreamRequest>)
        ensures
            final(self)@ == after_selection(old(self)@),
            r is Ok <==> selected(old(self)@) is Some,
            r is Ok <==> any_healthy(old(self)@.endpoints),
            r matches Ok(request) ==> request.calls(
                old(self)@,
                selected(old(self)@).unwrap(),
                operation_path(operation),
            ),
            r matches Err(e) ==> e.has(ErrorKind::NoHealthyBackends, old(self)@.name),
    {
        proof {
            lemma_healthy_urls(self@.endpoints);
        }
        match self.get_next_endpoint() {
            Some(endpoint) => {
                let base = trim_end_matches(endpoint.as_str(), '/');
                let url = concat(base.as_str(), Self::path_of(operation));
                let headers = self.get_headers();
                Ok(UpstreamRequest { endpoint, url, headers, timeout_ms: self.timeout_ms })
            },
            None => Err(AppError::NoHealthyBackends(self.name.clone())),
        }
    }

    /// What a reply stands for, apart from what it means for an endpoint:
    /// the parsed body, or the error.
    pub fn outcome<T>(reply: UpstreamReply<T>) -> (r: Result<T>)
        ensures
            r is Err <==> reply_error(reply) is Some,
            r matches Err(e) ==> e.has(reply_error(reply).unwrap().0, reply_error(reply).unwrap().1),
            r matches Ok(value) ==> reply matches UpstreamReply::Answered { parsed: Ok(p), .. }
                && value == p,
    {
        match reply {
            UpstreamReply::Unreachable(message) => Err(AppError::HttpClient(message)),
            UpstreamReply::Answered { status, status_line, parsed, body } => {
                if 200 <= status && status < 300 {
                    match parsed {
                        Ok(value) => Ok(value),
                        Err(cause) => Err(
                            AppError::BackendError(
                                concat("Failed to parse response: ", cause.as_str()),
                            ),
                        ),
                    }
                } else {
                    let head = concat3("Backend returned ", status_line.as_str(), ": ");
                    Err(AppError::BackendError(concat(head.as_str(), body.as_str())))
                }
            },
        }
    }

    /// What a reply to a request means for the endpoint it came from.
    pub fn effect_of<T>(reply: &UpstreamReply<T>) -> (effect: HealthEffect)
        ensures
            effect == reply_effect(*reply),
    {
        match reply {
            UpstreamReply::Unreachable(_) => HealthEffect::MarkUnhealthy,
            UpstreamReply::Answered { status, status_line: _, parsed, body: _ } => {
                if 200 <= *status && *status < 300 {
                    if parsed.is_ok() {
                        HealthEffect::MarkHealthy
                    } else {
                        HealthEffect::Unchanged
                    }
                } else if *status >= 500 {
                    HealthEffect::MarkUnhealthy
                } else {
                    HealthEffect::Unchanged
                }
            },
        }
    }

    /// Ends an operation: records what the reply means for the endpoint it
    /// came from, and hands back the parsed body or the error.
    pub fn complete<T>(&mut self, endpoint: &str, reply: UpstreamReply<T>) -> (r: Result<T>)
        ensures
            final(self)@ == with_marked(old(self)@, endpoint@, reply_effect(reply)),
            r is Err <==> reply_error(reply) is Some,
            r matches Err(e) ==> e.has(reply_error(reply).unwrap().0, reply_error(reply).unwrap().1),
            r matches Ok(value) ==> reply matches UpstreamReply::Answered { parsed: Ok(p), .. }
                && value == p,
    {
        let effect = Self::effect_of(&reply);
        self.mark_endpoint(endpoint, effect);
        Self::outcome(reply)
    }

    /// What to send to probe each endpoint, in order.
    pub fn probe_requests(&self) -> (requests: Vec<UpstreamRequest>)
        ensures
            requests@.len() == self@.endpoints.len(),
            forall|i: int|
                0 <= i < requests@.len() ==> (#[trigger] requests@[i]).calls(
                    self@,
                    self@.endpoints[i].url,
                    self@.health_check_path,
                ),
    {
        let mut requests: Vec<UpstreamRequest> = Vec::new();
        let mut i: usize = 0;
        while i < self.endpoints.len()
            invariant
                i <= self.endpoints.len(),
                requests@.len() == i,
                forall|j: int|
                    0 <= j < i ==> (#[trigger] requests@[j]).calls(
                        self@,
                        self@.endpoints[j].url,
                        self@.health_check_path,
                    ),
            decreases self.endpoints.len() - i,
        {
            assert(self@.endpoints[i as int] == self.endpoints@[i as int]@);
            let endpoint = self.endpoints[i].url.clone();
            let base = trim_end_matches(endpoint.as_str(), '/');
            let url = concat(base.as_str(), self.health_check_path.as_str());
            let headers = self.get_headers();
            requests.push(UpstreamRequest { endpoint, url, headers, timeout_ms: self.timeout_ms });
            i = i + 1;
        }
        requests
    }

    /// Whether a probe passed.
    pub fn passed(reply: ProbeReply) -> (pass: bool)
        ensures
            pass == probe_passed(reply),
    {
        match reply {
            ProbeReply::Unreachable => false,
            ProbeReply::Status(status) => (200 <= status && status < 300) || status == 401,
        }
    }

    /// Records the probe of one endpoint and says whether it passed.
    pub fn record_probe(&mut self, endpoint: &str, reply: ProbeReply) -> (pass: bool)
        ensures
            final(self)@ == with_marked(old(self)@, endpoint@, probe_effect(reply)),
            pass == probe_passed(reply),
    {
        let effect = match reply {
            ProbeReply::Unreachable => HealthEffect::MarkUnhealthy,
            ProbeReply::Status(status) => {
                if (200 <= status && status < 300) || status == 401 {
                    HealthEffect::MarkHealthy
                } else if 400 <= status && status < 500 {
                    HealthEffect::Unchanged
                } else {
                    HealthEffect::MarkUnhealthy
                }
            },
        };
        self.mark_endpoint(endpoint, effect);
        Self::passed(reply)
    }

    /// Records a round of probes, one reply for each endpoint that was
    /// probed, and says whether any of them passed.
    pub fn health_check(&mut self, replies: &Vec<(String, ProbeReply)>) -> (any: bool)
        ensures
            final(self)@ == (AdapterState {
                endpoints: probed(old(self)@.endpoints, replies@),
                ..old(self)@
            }),
            any == any_passed(replies@),
    {
        let mut any = false;
        let mut i: usize = 0;
        assert(replies@.take(0) =~= Seq::empty());
        while i < replies.len()
            invariant
                i <= replies.len(),
                self@ == (AdapterState {
                    endpoints: probed(old(self)@.endpoints, replies@.take(i as int)),
                    ..old(self)@
                }),
                any == any_passed(replies@.take(i as int)),
            decreases replies.len() - i,
        {
            proof {
                assert(replies@.take(i + 1).drop_last() =~= replies@.take(i as int));
                assert(replies@.take(i + 1).last() == replies@[i as int]);
            }
            let ghost before = any;
            let pass = self.record_probe(replies[i].0.as_str(), replies[i].1);
            if pass {
                any = true;
            }
            proof {
                let now = replies@.take(i + 1);
                let earlier = replies@.take(i as int);
                if pass {
                    assert(probe_passed(now[i as int].1));
                } else if before {
                    let k = choose|k: int| 0 <= k < earlier.len() && probe_passed((#[trigger] earlier[k]).1);
                    assert(probe_passed(now[k].1));
                } else {
                    if any_passed(now) {
                        let k = choose|k: int| 0 <= k < now.len() && probe_passed((#[trigger] now[k]).1);
                        if k < i {
                            assert(probe_passed(earlier[k].1));
                        }
                    }
                }
            }
            i = i + 1;
        }
        assert(replies@.take(replies@.len() as int) =~= replies@);
        any
    }

    /// What the backend reports of itself: healthy where some endpoint is.
    pub fn status(&self) -> (status: BackendStatus)
        ensures
            status.reports(self@, protocol_tag(self@.protocol)),
    {
        BackendStatus {
            name: self.name.clone(),
            protocol: self.protocol.to_string(),
            endpoints: self.endpoints(),
            healthy: self.is_healthy(),
            models: clone_strings(&self.models),
            capabilities: clone_strings(&self.capabilities),
            weight: self.weight,
            enabled: self.enabled,
        }
    }
}

} // verus!
