//! Text generation backends for LLM models.
//!
//! Supports OpenAI API compatible endpoints (OpenAI, Ollama, vLLM and the
//! like) and Anthropic.

pub use crate::backend::endpoint::TextEndpoint;
use crate::backend::registry::{lookup_token, token_of};
use crate::backend::adapter::{
    adapter_of, after_selection, any_healthy, any_passed, operation_path, probed, reply_effect,
    reply_error, selected, urls_of, with_marked, Adapter, AdapterState, BackendStatus, Operation,
    ProbeReply, UpstreamReply, UpstreamRequest,
};
use crate::config::settings::{protocol_tag, BackendConfig, ProtocolType};
use crate::error::{AppError, ErrorKind, Result};
use crate::text::views;
use vstd::prelude::*;

verus! {

/// Chat message for completion requests.
#[derive(Debug, Clone)]
pub struct ChatMessage {
    pub role: String,
    pub content: String,
    pub name: Option<String>,
}

/// Chat completion request (OpenAI compatible). The sampling parameters are
/// carried as the bits of their single-precision values.
#[derive(Debug, Clone)]
pub struct ChatCompletionRequest {
    pub model: String,
    pub messages: Vec<ChatMessage>,
    pub temperature: Option<u32>,
    pub top_p: Option<u32>,
    pub max_tokens: Option<u32>,
    pub stream: Option<bool>,
    pub stop: Option<Vec<String>>,
    pub presence_penalty: Option<u32>,
    pub frequency_penalty: Option<u32>,
    pub user: Option<String>,
}

/// Text completion request (OpenAI compatible). The sampling parameters are
/// carried as the bits of their single-precision values.
#[derive(Debug, Clone)]
pub struct TextCompletionRequest {
    pub model: String,
    pub prompt: String,
    pub max_tokens: Option<u32>,
    pub temperature: Option<u32>,
    pub top_p: Option<u32>,
    pub stop: Option<Vec<String>>,
    pub stream: Option<bool>,
}

/// Chat completion response.
#[derive(Debug, Clone)]
pub struct ChatCompletionResponse {
    pub id: String,
    pub object: String,
    pub created: i64,
    pub model: String,
    pub choices: Vec<ChatChoice>,
    pub usage: Option<Usage>,
}

/// Chat choice.
#[derive(Debug, Clone)]
pub struct ChatChoice {
    pub index: u32,
    pub message: ChatMessage,
    pub finish_reason: Option<String>,
}

/// Text completion response.
#[derive(Debug, Clone)]
pub struct TextCompletionResponse {
    pub id: String,
    pub object: String,
    pub created: i64,
    pub model: String,
    pub choices: Vec<TextChoice>,
    pub usage: Option<Usage>,
}

/// Text choice.
#[derive(Debug, Clone)]
pub struct TextChoice {
    pub index: u32,
    pub text: String,
    pub finish_reason: Option<String>,
}

/// Token usage information.
#[derive(Debug, Clone)]
pub struct Usage {
    pub prompt_tokens: u32,
    pub completion_tokens: u32,
    pub total_tokens: u32,
}

/// Model information.
#[derive(Debug, Clone)]
pub struct ModelInfo {
    pub id: String,
    pub object: String,
    pub created: Option<i64>,
    pub owned_by: Option<String>,
}

/// Models list response.
#[derive(Debug, Clone)]
pub struct ModelsResponse {
    pub object: String,
    pub data: Vec<ModelInfo>,
}

impl ModelInfo {
    /// This entry names the model `id` as owned by `owner`, with no creation time.
    pub open spec fn declares(&self, id: Seq<char>, owner: Seq<char>) -> bool {
        &&& self.id@ == id
        &&& self.object@ == "model"@
        &&& self.created is None
        &&& self.owned_by is Some
        &&& self.owned_by.unwrap()@ == owner
    }
}

impl ModelsResponse {
    /// This response lists exactly `models`, in order, each owned by `owner`.
    pub open spec fn lists(&self, models: Seq<Seq<char>>, owner: Seq<char>) -> bool {
        &&& self.object@ == "list"@
        &&& self.data@.len() == models.len()
        &&& forall|i: int|
            0 <= i < models.len() ==> (#[trigger] self.data@[i]).declares(models[i], owner)
    }

    /// The response that lists `models` as owned by `owner`.
    pub fn synthesized(models: &Vec<String>, owner: &str) -> (response: Self)
        ensures
            response.lists(views(models@), owner@),
    {
        let mut data: Vec<ModelInfo> = Vec::new();
        let mut i: usize = 0;
        while i < models.len()
            invariant
                i <= models.len(),
                data@.len() == i,
                forall|j: int| 0 <= j < i ==> (#[trigger] data@[j]).declares(models@[j]@, owner@),
            decreases models.len() - i,
        {
            data.push(
                ModelInfo {
                    id: models[i].clone(),
                    object: "model".to_string(),
                    created: None,
                    owned_by: Some(owner.to_string()),
                },
            );
            i = i + 1;
        }
        ModelsResponse { object: "list".to_string(), data }
    }
}

/// Text backend status.
#[derive(Debug, Clone)]
pub struct TextBackendStatus {
    pub name: String,
    pub protocol: String,
    pub endpoints: Vec<String>,
    pub healthy: bool,
    pub models: Vec<String>,
    pub capabilities: Vec<String>,
    pub enabled: bool,
}

impl TextBackendStatus {
    /// This status reports the adapter `state` under the protocol tag `protocol`.
    pub open spec fn reports(&self, state: AdapterState, protocol: Seq<char>) -> bool {
        &&& self.name@ == state.name
        &&& self.protocol@ == protocol
        &&& views(self.endpoints@) == urls_of(state.endpoints)
        &&& self.healthy == any_healthy(state.endpoints)
        &&& views(self.models@) == state.models
        &&& views(self.capabilities@) == state.capabilities
        &&& self.enabled == state.enabled
    }
}

/// OpenAI API compatible text backend.
pub struct OpenAICompatibleBackend {
    adapter: Adapter,
}

impl View for OpenAICompatibleBackend {
    type V = AdapterState;

    closed spec fn view(&self) -> AdapterState {
        self.adapter@
    }
}

impl OpenAICompatibleBackend {
    /// Create a new OpenAI compatible backend.
    pub fn new(config: &BackendConfig, env: &Vec<(String, String)>) -> (r: Result<Self>)
        ensures
            r is Ok,
            r->Ok_0@ == adapter_of(*config, token_of(*config, env@)),
    {
        Ok(OpenAICompatibleBackend { adapter: Adapter::new(config, lookup_token(config, env)) })
    }

    /// The adapter of this backend.
    pub fn adapter(&self) -> (adapter: &Adapter)
        ensures
            adapter@ == self@,
    {
        &self.adapter
    }
}

/// Anthropic-specific backend.
pub struct AnthropicBackend {
    inner: OpenAICompatibleBackend,
}

impl View for AnthropicBackend {
    type V = AdapterState;

    closed spec fn view(&self) -> AdapterState {
        self.inner@
    }
}

impl AnthropicBackend {
    /// Create a new Anthropic backend.
    pub fn new(config: &BackendConfig, env: &Vec<(String, String)>) -> (r: Result<Self>)
        ensures
            r is Ok,
            r->Ok_0@ == adapter_of(*config, token_of(*config, env@)),
    {
        match OpenAICompatibleBackend::new(config, env) {
            Ok(inner) => Ok(AnthropicBackend { inner }),
            Err(e) => Err(e),
        }
    }

    /// The adapter of this backend.
    pub fn adapter(&self) -> (adapter: &Adapter)
        ensures
            adapter@ == self@,
    {
        self.inner.adapter()
    }
}

/// A text backend as contracts see it.
pub struct TextBackendState {
    /// Whether the backend speaks to Anthropic.
    pub anthropic: bool,
    pub adapter: AdapterState,
}

/// The protocol tag a text backend reports.
pub open spec fn text_protocol_tag(state: TextBackendState) -> Seq<char> {
    if state.anthropic {
        "anthropic"@
    } else {
        protocol_tag(state.adapter.protocol)
    }
}

/// The message for a text backend over gRPC.
pub open spec fn grpc_text_message() -> Seq<char> {
    "gRPC text backends not yet supported"@
}

/// The text backend that a configuration describes, or the error for a
/// protocol that no text backend speaks.
pub open spec fn text_backend_of(
    config: BackendConfig,
    env: Seq<(String, String)>,
) -> std::result::Result<TextBackendState, (ErrorKind, Seq<char>)> {
    if config.protocol == ProtocolType::Grpc {
        Err((ErrorKind::Internal, grpc_text_message()))
    } else {
        Ok(
            TextBackendState {
                anthropic: config.protocol == ProtocolType::Anthropic,
                adapter: adapter_of(config, token_of(config, env)),
            },
        )
    }
}

/// What to do to list the models of a backend.
pub enum ModelsPlan {
    /// The list is known without asking upstream.
    Known(ModelsResponse),
    /// The list is to be asked for upstream.
    Ask(UpstreamRequest),
}

/// A text generation backend.
pub enum TextBackend {
    OpenAI(OpenAICompatibleBackend),
    Anthropic(AnthropicBackend),
}

impl View for TextBackend {
    type V = TextBackendState;

    closed spec fn view(&self) -> TextBackendState {
        match self {
            TextBackend::OpenAI(backend) => TextBackendState { anthropic: false, adapter: backend@ },
            TextBackend::Anthropic(backend) => TextBackendState {
                anthropic: true,
                adapter: backend@,
            },
        }
    }
}

impl TextBackend {
    /// The adapter of this backend.
    pub fn adapter(&self) -> (adapter: &Adapter)
        ensures
            adapter@ == self@.adapter,
    {
        match self {
            TextBackend::OpenAI(backend) => backend.adapter(),
            TextBackend::Anthropic(backend) => backend.adapter(),
        }
    }

    /// The adapter of this backend, to be changed in place.
    fn adapter_mut(&mut self) -> (adapter: &mut Adapter)
        ensures
            adapter@ == old(self)@.adapter,
            final(self)@ == (TextBackendState { adapter: final(adapter)@, ..old(self)@ }),
    {
        match self {
            TextBackend::OpenAI(backend) => &mut backend.adapter,
            TextBackend::Anthropic(backend) => &mut backend.inner.adapter,
        }
    }

    /// Get the backend name.
    pub fn name(&self) -> (name: &str)
        ensures
            name@ == self@.adapter.name,
    {
        self.adapter().name()
    }

    /// Get the backend protocol.
    pub fn protocol(&self) -> (tag: &'static str)
        ensures
            tag@ == text_protocol_tag(self@),
    {
        match self {
            TextBackend::OpenAI(backend) => backend.adapter().protocol(),
            TextBackend::Anthropic(_) => "anthropic",
        }
    }

    /// Get available models.
    pub fn models(&self) -> (models: Vec<String>)
        ensures
            views(models@) == self@.adapter.models,
    {
        self.adapter().models()
    }

    /// Get supported capabilities.
    pub fn capabilities(&self) -> (capabilities: Vec<String>)
        ensures
            views(capabilities@) == self@.adapter.capabilities,
    {
        self.adapter().capabilities()
    }

    /// Check if enabled.
    pub fn is_enabled(&self) -> (enabled: bool)
        ensures
            enabled == self@.adapter.enabled,
    {
        self.adapter().is_enabled()
    }

    /// Whether a model of that name is declared.
    pub fn serves(&self, model: &str) -> (declared: bool)
        ensures
            declared == self@.adapter.models.contains(model@),
    {
        self.adapter().serves(model)
    }

    /// Get status: healthy where some endpoint is.
    pub fn status(&self) -> (status: TextBackendStatus)
        ensures
            status.reports(self@.adapter, text_protocol_tag(self@)),
    {
        let BackendStatus {
            name,
            protocol: _,
            endpoints,
            healthy,
            models,
            capabilities,
            weight: _,
            enabled,
        } = self.adapter().status();
        TextBackendStatus {
            name,
            protocol: self.protocol().to_string(),
            endpoints,
            healthy,
            models,
            capabilities,
            enabled,
        }
    }

    /// Starts an operation: selects the next healthy endpoint and says what
    /// to send to it.
    pub fn begin(&mut self, operation: Operation) -> (r: Result<UpstreamRequest>)
        ensures
            final(self)@ == (TextBackendState {
                adapter: after_selection(old(self)@.adapter),
                ..old(self)@
            }),
            r is Ok <==> selected(old(self)@.adapter) is Some,
            r matches Ok(request) ==> request.calls(
                old(self)@.adapter,
                selected(old(self)@.adapter).unwrap(),
                operation_path(operation),
            ),
            r matches Err(e) ==> e.has(ErrorKind::NoHealthyBackends, old(self)@.adapter.name),
    {
        let adapter = self.adapter_mut();
        adapter.begin(operation)
    }

    /// Starts a chat completion: selects the next healthy endpoint and says
    /// what to send to it.
    pub fn chat_completion(&mut self) -> (r: Result<UpstreamRequest>)
        ensures
            final(self)@ == (TextBackendState {
                adapter: after_selection(old(self)@.adapter),
                ..old(self)@
            }),
            r is Ok <==> selected(old(self)@.adapter) is Some,
            r matches Ok(request) ==> request.calls(
                old(self)@.adapter,
                selected(old(self)@.adapter).unwrap(),
                operation_path(Operation::ChatCompletion),
            ),
            r matches Err(e) ==> e.has(ErrorKind::NoHealthyBackends, old(self)@.adapter.name),
    {
        let adapter = self.adapter_mut();
        adapter.begin(Operation::ChatCompletion)
    }

    /// Starts a text completion: selects the next healthy endpoint and says
    /// what to send to it.
    pub fn text_completion(&mut self) -> (r: Result<UpstreamRequest>)
        ensures
            final(self)@ == (TextBackendState {
                adapter: after_selection(old(self)@.adapter),
                ..old(self)@
            }),
            r is Ok <==> selected(old(self)@.adapter) is Some,
            r matches Ok(request) ==> request.calls(
                old(self)@.adapter,
                selected(old(self)@.adapter).unwrap(),
                operation_path(Operation::TextCompletion),
            ),
            r matches Err(e) ==> e.has(ErrorKind::NoHealthyBackends, old(self)@.adapter.name),
    {
        let adapter = self.adapter_mut();
        adapter.begin(Operation::TextCompletion)
    }

    /// Ends a completion: records what the reply means for the endpoint it
    /// came from, and hands back the parsed body or the error.
    pub fn complete<T>(&mut self, endpoint: &str, reply: UpstreamReply<T>) -> (r: Result<T>)
        ensures
            final(self)@ == (TextBackendState {
                adapter: with_marked(old(self)@.adapter, endpoint@, reply_effect(reply)),
                ..old(self)@
            }),
            r is Err <==> reply_error(reply) is Some,
            r matches Err(e) ==> e.has(reply_error(reply).unwrap().0, reply_error(reply).unwrap().1),
            r matches Ok(value) ==> reply matches UpstreamReply::Answered { parsed: Ok(p), .. }
                && value == p,
    {
        let adapter = self.adapter_mut();
        adapter.complete(endpoint, reply)
    }

    /// Starts listing the models. An Anthropic backend has no models
    /// endpoint: its declared models are the list. Any other backend is
    /// asked at its next healthy endpoint.
    pub fn list_models(&mut self) -> (r: Result<ModelsPlan>)
        ensures
            old(self)@.anthropic ==> final(self)@ == old(self)@ && r is Ok && r->Ok_0 is Known
                && r->Ok_0->Known_0.lists(old(self)@.adapter.models, "anthropic"@),
            !old(self)@.anthropic ==> final(self)@ == (TextBackendState {
                adapter: after_selection(old(self)@.adapter),
                ..old(self)@
            }) && (r is Ok <==> selected(old(self)@.adapter) is Some),
            !old(self)@.anthropic && r is Ok ==> r->Ok_0 is Ask && r->Ok_0->Ask_0.calls(
                old(self)@.adapter,
                selected(old(self)@.adapter).unwrap(),
                operation_path(Operation::ListModels),
            ),
            !old(self)@.anthropic && r is Err ==> r->Err_0.has(
                ErrorKind::NoHealthyBackends,
                old(self)@.adapter.name,
            ),
    {
        match self {
            TextBackend::Anthropic(backend) => {
                let models = backend.adapter().models();
                Ok(ModelsPlan::Known(ModelsResponse::synthesized(&models, "anthropic")))
            },
            TextBackend::OpenAI(_) => {
                let adapter = self.adapter_mut();
                match adapter.begin(Operation::ListModels) {
                    Ok(request) => Ok(ModelsPlan::Ask(request)),
                    Err(e) => Err(e),
                }
            },
        }
    }

    /// Ends listing the models: records what the reply means for the
    /// endpoint it came from. A list that was received and parses is handed
    /// back; where the upstream was not reached the error is; in every
    /// other case the declared models are the list.
    pub fn complete_list_models(
        &mut self,
        endpoint: &str,
        reply: UpstreamReply<ModelsResponse>,
    ) -> (r: Result<ModelsResponse>)
        ensures
            final(self)@ == (TextBackendState {
                adapter: with_marked(old(self)@.adapter, endpoint@, reply_effect(reply)),
                ..old(self)@
            }),
            r is Err <==> reply is Unreachable,
            r matches Err(e) ==> e.has(ErrorKind::HttpClient, reply->Unreachable_0@),
            r matches Ok(response) ==> if reply_error(reply) is None {
                reply matches UpstreamReply::Answered { parsed: Ok(p), .. } && response == p
            } else {
                response.lists(old(self)@.adapter.models, old(self)@.adapter.name)
            },
    {
        let adapter = self.adapter_mut();
        match adapter.complete(endpoint, reply) {
            Ok(response) => Ok(response),
            Err(e) => {
                match e {
                    AppError::HttpClient(message) => Err(AppError::HttpClient(message)),
                    _ => {
                        let models = adapter.models();
                        Ok(ModelsResponse::synthesized(&models, adapter.name()))
                    },
                }
            },
        }
    }

    /// What to send to probe each endpoint, in order.
    pub fn probe_requests(&self) -> (requests: Vec<UpstreamRequest>)
        ensures
            requests@.len() == self@.adapter.endpoints.len(),
            forall|i: int|
                0 <= i < requests@.len() ==> (#[trigger] requests@[i]).calls(
                    self@.adapter,
                    self@.adapter.endpoints[i].url,
                    self@.adapter.health_check_path,
                ),
    {
        self.adapter().probe_requests()
    }

    /// Health check: records a round of probes, one reply for each endpoint
    /// that was probed, and says whether any of them passed.
    pub fn health_check(&mut self, replies: &Vec<(String, ProbeReply)>) -> (any: bool)
        ensures
            final(self)@ == (TextBackendState {
                adapter: AdapterState {
                    endpoints: probed(old(self)@.adapter.endpoints, replies@),
                    ..old(self)@.adapter
                },
                ..old(self)@
            }),
            any == any_passed(replies@),
    {
        let adapter = self.adapter_mut();
        adapter.health_check(replies)
    }
}

/// Create appropriate text backend based on configuration.
pub fn create_text_backend(config: &BackendConfig, env: &Vec<(String, String)>) -> (r: Result<
    TextBackend,
>)
    ensures
        r is Ok <==> text_backend_of(*config, env@) is Ok,
        r matches Ok(backend) ==> backend@ == text_backend_of(*config, env@)->Ok_0,
        r matches Err(e) ==> e.has(ErrorKind::Internal, grpc_text_message()),
{
    match config.protocol {
        ProtocolType::Anthropic => {
            match AnthropicBackend::new(config, env) {
                Ok(backend) => Ok(TextBackend::Anthropic(backend)),
                Err(e) => Err(e),
            }
        },
        ProtocolType::OpenAI | ProtocolType::Http | ProtocolType::Tgi => {
            match OpenAICompatibleBackend::new(config, env) {
                Ok(backend) => Ok(TextBackend::OpenAI(backend)),
                Err(e) => Err(e),
            }
        },
        ProtocolType::Grpc => Err(
            AppError::Internal("gRPC text backends not yet supported".to_string()),
        ),
    }
}

} // verus!
