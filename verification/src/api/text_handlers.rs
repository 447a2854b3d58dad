//! What the handlers of the text routes decide (OpenAI compatible).

use crate::backend::registry::BackendRegistry;
use crate::backend::slots::{live_values, value_of};
use crate::backend::text_backend::{
    text_protocol_tag, ChatCompletionRequest, ChatMessage, ModelInfo, ModelsResponse,
    TextBackendState, TextCompletionRequest,
};
use crate::backend::text_registry::{
    backend_for_model, no_backend_message, with_adapter_state, with_backend, TextBackendRegistry,
    TextRegistryState,
};
use crate::backend::adapter::{
    after_selection, any_healthy, operation_path, selected, text_of, urls_of, AdapterState,
    Operation,
};
use crate::clock::unix_timestamp;
use crate::error::{ErrorKind, Result};
use crate::queue::request_queue::Dispatch;
use crate::text::{concat, views};
use vstd::prelude::*;

verus! {

/// API chat completion request. The sampling parameters are carried as the
/// bits of their single-precision values.
#[derive(Debug, Clone)]
pub struct ApiChatCompletionRequest {
    pub model: String,
    pub messages: Vec<ChatMessage>,
    pub temperature: Option<u32>,
    pub top_p: Option<u32>,
    pub max_tokens: Option<u32>,
    pub stream: Option<bool>,
    pub stop: Option<Vec<String>>,
    pub presence_penalty: Option<u32>,
    pub frequency_penalty: Option<u32>,
    pub user: Option<String>,
    /// Optional: specify backend to use.
    pub backend: Option<String>,
}

/// API text completion request. The sampling parameters are carried as the
/// bits of their single-precision values.
#[derive(Debug, Clone)]
pub struct ApiTextCompletionRequest {
    pub model: String,
    pub prompt: String,
    pub max_tokens: Option<u32>,
    pub temperature: Option<u32>,
    pub top_p: Option<u32>,
    pub stop: Option<Vec<String>>,
    pub stream: Option<bool>,
    /// Optional: specify backend to use.
    pub backend: Option<String>,
}

/// The request to hand to a backend for an API chat request: the request
/// as it came, without the backend hint.
pub fn chat_request(request: ApiChatCompletionRequest) -> (backend_request: ChatCompletionRequest)
    ensures
        backend_request.model == request.model,
        backend_request.messages == request.messages,
        backend_request.temperature == request.temperature,
        backend_request.top_p == request.top_p,
        backend_request.max_tokens == request.max_tokens,
        backend_request.stream == request.stream,
        backend_request.stop == request.stop,
        backend_request.presence_penalty == request.presence_penalty,
        backend_request.frequency_penalty == request.frequency_penalty,
        backend_request.user == request.user,
{
    ChatCompletionRequest {
        model: request.model,
        messages: request.messages,
        temperature: request.temperature,
        top_p: request.top_p,
        max_tokens: request.max_tokens,
        stream: request.stream,
        stop: request.stop,
        presence_penalty: request.presence_penalty,
        frequency_penalty: request.frequency_penalty,
        user: request.user,
    }
}

/// The request to hand to a backend for an API text request: the request
/// as it came, without the backend hint.
pub fn text_request(request: ApiTextCompletionRequest) -> (backend_request: TextCompletionRequest)
    ensures
        backend_request.model == request.model,
        backend_request.prompt == request.prompt,
        backend_request.max_tokens == request.max_tokens,
        backend_request.temperature == request.temperature,
        backend_request.top_p == request.top_p,
        backend_request.stop == request.stop,
        backend_request.stream == request.stream,
{
    TextCompletionRequest {
        model: request.model,
        prompt: request.prompt,
        max_tokens: request.max_tokens,
        temperature: request.temperature,
        top_p: request.top_p,
        stop: request.stop,
        stream: request.stream,
    }
}

/// A completion was admitted as the registry decides: the backend that
/// serves the model takes it at its next healthy endpoint; where no
/// backend serves the model, or the backend has no healthy endpoint, the
/// request is refused.
pub open spec fn admitted(
    before: TextRegistryState,
    model: Seq<char>,
    preferred: Option<Seq<char>>,
    operation: Operation,
    after: TextRegistryState,
    r: Result<Dispatch>,
) -> bool {
    match backend_for_model(before, model, preferred) {
        None => after == before && r is Err && r->Err_0.has(
            ErrorKind::NoHealthyBackends,
            no_backend_message(model),
        ),
        Some(name) => {
            let backend = value_of(before.backends, name);
            &&& after == with_backend(
                before,
                name,
                with_adapter_state(backend, after_selection(backend.adapter)),
            )
            &&& r is Ok <==> selected(backend.adapter) is Some
            &&& r is Ok ==> r->Ok_0.backend@ == name && r->Ok_0.request.calls(
                backend.adapter,
                selected(backend.adapter).unwrap(),
                operation_path(operation),
            )
            &&& r is Err ==> r->Err_0.has(ErrorKind::NoHealthyBackends, name)
        },
    }
}

/// Admits a completion of the given kind for a model.
fn begin_completion(
    registry: &mut TextBackendRegistry,
    model: &str,
    preferred: Option<&str>,
    operation: Operation,
) -> (r: Result<Dispatch>)
    requires
        old(registry).wf(),
    ensures
        final(registry).wf(),
        admitted(
            old(registry)@,
            model@,
            match preferred {
                Some(p) => Some(p@),
                None => None,
            },
            operation,
            final(registry)@,
            r,
        ),
{
    let name = match registry.get_backend_for_model(model, preferred) {
        Ok(backend) => backend.name().to_string(),
        Err(e) => {
            return Err(e);
        },
    };
    match registry.begin(name.as_str(), operation) {
        Ok(request) => Ok(Dispatch { backend: name, request }),
        Err(e) => Err(e),
    }
}

/// Chat completion handler (OpenAI `/v1/chat/completions` compatible): the
/// backend that serves the model of the request, the hinted backend
/// first, takes the request at its next healthy endpoint.
pub fn chat_completion(
    registry: &mut TextBackendRegistry,
    request: &ApiChatCompletionRequest,
) -> (r: Result<Dispatch>)
    requires
        old(registry).wf(),
    ensures
        final(registry).wf(),
        admitted(
            old(registry)@,
            request.model@,
            text_of(request.backend),
            Operation::ChatCompletion,
            final(registry)@,
            r,
        ),
{
    match &request.backend {
        Some(backend) => begin_completion(
            registry,
            request.model.as_str(),
            Some(backend.as_str()),
            Operation::ChatCompletion,
        ),
        None => begin_completion(registry, request.model.as_str(), None, Operation::ChatCompletion),
    }
}

/// Text completion handler (OpenAI `/v1/completions` compatible): the
/// backend that serves the model of the request, the hinted backend
/// first, takes the request at its next healthy endpoint.
pub fn text_completion(
    registry: &mut TextBackendRegistry,
    request: &ApiTextCompletionRequest,
) -> (r: Result<Dispatch>)
    requires
        old(registry).wf(),
    ensures
        final(registry).wf(),
        admitted(
            old(registry)@,
            request.model@,
            text_of(request.backend),
            Operation::TextCompletion,
            final(registry)@,
            r,
        ),
{
    match &request.backend {
        Some(backend) => begin_completion(
            registry,
            request.model.as_str(),
            Some(backend.as_str()),
            Operation::TextCompletion,
        ),
        None => begin_completion(registry, request.model.as_str(), None, Operation::TextCompletion),
    }
}

/// The models of the text backends, each with the name of its backend, in
/// slot order and in the order in which each backend declares them.
pub open spec fn text_models(backends: Seq<TextBackendState>) -> Seq<(Seq<char>, Seq<char>)>
    decreases backends.len(),
{
    if backends.len() == 0 {
        Seq::empty()
    } else {
        text_models(backends.drop_last()) + Seq::new(
            backends.last().adapter.models.len(),
            |i: int| (backends.last().adapter.models[i], backends.last().adapter.name),
        )
    }
}

/// The models that stand for the image backends: `image/` and the name of
/// the backend, which also owns the model.
pub open spec fn image_models(backends: Seq<AdapterState>) -> Seq<(Seq<char>, Seq<char>)> {
    Seq::new(backends.len(), |i: int| ("image/"@ + backends[i].name, backends[i].name))
}

/// What a list of models says: for each entry its identifier and its owner.
pub open spec fn model_entries(data: Seq<ModelInfo>) -> Seq<(Seq<char>, Seq<char>)> {
    Seq::new(
        data.len(),
        |i: int|
            (
                data[i].id@,
                match data[i].owned_by {
                    Some(owner) => owner@,
                    None => Seq::empty(),
                },
            ),
    )
}

/// List models handler (OpenAI `/v1/models` compatible): the models of
/// the text backends, then one model for each image backend, each stamped
/// with the time at which the list is made.
pub fn list_models(
    text: &TextBackendRegistry,
    image: &BackendRegistry,
) -> (response: ModelsResponse)
    ensures
        response.object@ == "list"@,
        model_entries(response.data@) == text_models(live_values(text@.backends)) + image_models(
            live_values(image@),
        ),
        forall|i: int|
            0 <= i < response.data@.len() ==> (#[trigger] response.data@[i]).object@ == "model"@
                && response.data@[i].created is Some && response.data@[i].owned_by is Some,
{
    let mut all_models: Vec<ModelInfo> = Vec::new();
    let backends = text.list_backends();
    let ghost states = live_values(text@.backends);
    let mut i: usize = 0;
    assert(states.take(0) =~= Seq::empty());
    assert(model_entries(all_models@) =~= text_models(states.take(0)));
    while i < backends.len()
        invariant
            i <= backends.len(),
            states == live_values(text@.backends),
            backends@.len() == states.len(),
            forall|k: int|
                0 <= k < backends@.len() ==> (#[trigger] backends@[k]).reports(
                    states[k].adapter,
                    text_protocol_tag(states[k]),
                ),
            model_entries(all_models@) == text_models(states.take(i as int)),
            forall|j: int|
                0 <= j < all_models@.len() ==> (#[trigger] all_models@[j]).object@ == "model"@
                    && all_models@[j].created is Some && all_models@[j].owned_by is Some,
        decreases backends.len() - i,
    {
        let status = &backends[i];
        let ghost before = all_models@;
        let ghost declared = states[i as int].adapter.models;
        let ghost owner = states[i as int].adapter.name;
        proof {
            assert(states.take(i + 1).drop_last() =~= states.take(i as int));
            assert(states.take(i + 1).last() == states[i as int]);
        }
        let mut j: usize = 0;
        while j < status.models.len()
            invariant
                j <= status.models.len(),
                views(status.models@) == declared,
                status.name@ == owner,
                all_models@.len() == before.len() + j,
                model_entries(all_models@) == model_entries(before) + Seq::new(
                    j as nat,
                    |k: int| (declared[k], owner),
                ),
                forall|k: int|
                    0 <= k < all_models@.len() ==> (#[trigger] all_models@[k]).object@ == "model"@
                        && all_models@[k].created is Some && all_models@[k].owned_by is Some,
            decreases status.models.len() - j,
        {
            let ghost earlier = all_models@;
            all_models.push(
                ModelInfo {
                    id: status.models[j].clone(),
                    object: "model".to_string(),
                    created: Some(unix_timestamp()),
                    owned_by: Some(status.name.clone()),
                },
            );
            proof {
                assert(declared[j as int] == status.models@[j as int]@);
                assert(model_entries(all_models@) =~= model_entries(earlier).push(
                    (declared[j as int], owner),
                ));
                assert(model_entries(all_models@) =~= model_entries(before) + Seq::new(
                    (j + 1) as nat,
                    |k: int| (declared[k], owner),
                ));
            }
            j = j + 1;
        }
        i = i + 1;
    }
    assert(states.take(states.len() as int) =~= states);
    let image_backends = image.list_backends();
    let ghost adapters = live_values(image@);
    let ghost texts = all_models@;
    let mut i: usize = 0;
    while i < image_backends.len()
        invariant
            i <= image_backends.len(),
            adapters == live_values(image@),
            image_backends@.len() == adapters.len(),
            forall|k: int|
                0 <= k < image_backends@.len() ==> (#[trigger] image_backends@[k]).name@
                    == adapters[k].name,
            all_models@.len() == texts.len() + i,
            model_entries(all_models@) == model_entries(texts) + image_models(adapters).take(
                i as int,
            ),
            forall|k: int|
                0 <= k < all_models@.len() ==> (#[trigger] all_models@[k]).object@ == "model"@
                    && all_models@[k].created is Some && all_models@[k].owned_by is Some,
        decreases image_backends.len() - i,
    {
        let ghost earlier = all_models@;
        let status = &image_backends[i];
        all_models.push(
            ModelInfo {
                id: concat("image/", status.name.as_str()),
                object: "model".to_string(),
                created: Some(unix_timestamp()),
                owned_by: Some(status.name.clone()),
            },
        );
        proof {
            assert(model_entries(all_models@) =~= model_entries(earlier).push(
                image_models(adapters)[i as int],
            ));
            assert(model_entries(all_models@) =~= model_entries(texts) + image_models(
                adapters,
            ).take(i + 1));
        }
        i = i + 1;
    }
    assert(image_models(adapters).take(adapters.len() as int) =~= image_models(adapters));
    ModelsResponse { object: "list".to_string(), data: all_models }
}

/// Text backend info for listing.
#[derive(Debug, Clone)]
pub struct TextBackendInfo {
    pub name: String,
    pub protocol: String,
    pub endpoints: Vec<String>,
    pub healthy: bool,
    pub models: Vec<String>,
    pub capabilities: Vec<String>,
    pub enabled: bool,
}

#[derive(Debug, Clone)]
pub struct TextBackendListResponse {
    pub backends: Vec<TextBackendInfo>,
}

/// Text backend information says what the backend `state` is.
pub open spec fn describes(info: TextBackendInfo, state: TextBackendState) -> bool {
    &&& info.name@ == state.adapter.name
    &&& info.protocol@ == text_protocol_tag(state)
    &&& views(info.endpoints@) == urls_of(state.adapter.endpoints)
    &&& info.healthy == any_healthy(state.adapter.endpoints)
    &&& views(info.models@) == state.adapter.models
    &&& views(info.capabilities@) == state.adapter.capabilities
    &&& info.enabled == state.adapter.enabled
}

/// List text backends, in slot order.
pub fn list_text_backends(registry: &TextBackendRegistry) -> (response: TextBackendListResponse)
    ensures
        response.backends@.len() == live_values(registry@.backends).len(),
        forall|k: int|
            0 <= k < response.backends@.len() ==> describes(
                #[trigger] response.backends@[k],
                live_values(registry@.backends)[k],
            ),
{
    let statuses = registry.list_backends();
    let ghost listed = statuses@;
    let ghost states = live_values(registry@.backends);
    let mut backends: Vec<TextBackendInfo> = Vec::new();
    for status in it: statuses
        invariant
            it.seq() == listed,
            listed.len() == states.len(),
            forall|k: int|
                0 <= k < listed.len() ==> (#[trigger] listed[k]).reports(
                    states[k].adapter,
                    text_protocol_tag(states[k]),
                ),
            backends@.len() == it.index(),
            forall|k: int| 0 <= k < it.index() ==> describes(#[trigger] backends@[k], states[k]),
    {
        backends.push(
            TextBackendInfo {
                name: status.name,
                protocol: status.protocol,
                endpoints: status.endpoints,
                healthy: status.healthy,
                models: status.models,
                capabilities: status.capabilities,
                enabled: status.enabled,
            },
        );
    }
    TextBackendListResponse { backends }
}

} // verus!
