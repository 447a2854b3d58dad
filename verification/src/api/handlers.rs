//! What the handlers of the image and management routes decide.

use crate::api::models::{
    size_of, AddBackendRequest, BackendHealthSummary, BackendInfo, BackendListResponse,
    GenerateImageRequest, GenerateImageResponse, HealthResponse, ImageData, SuccessResponse,
};
use crate::backend::registry::{
    added, already_exists_message, image_protocol, unsupported_protocol_message, BackendRegistry,
};
use crate::backend::slots::{holds, live_values, put, without};
use crate::backend::adapter::{
    adapter_of, any_healthy, clone_text, fresh_endpoints, text_of, urls_of, AdapterState,
    GeneratedImage, GenerateRequest, GenerateResponse,
};
use crate::clock::unix_timestamp;
use crate::config::settings::{
    protocol_tag, BackendAuth, BackendConfig, BackendHealthCheck, BackendLoadBalancer, BackendType,
    ProtocolType,
};
use crate::error::{ErrorKind, Result};
use crate::gateway::health_check::{healthy_count, HealthCheckManager};
use crate::text::{concat3, lowercase_of, str_eq, to_lowercase, views};
use vstd::prelude::*;

verus! {

/// The version that the health route reports.
pub const VERSION: &'static str = "0.3.2";

/// The protocol of a name in lower case; HTTP for a name that is none.
pub open spec fn protocol_named(name: Seq<char>) -> ProtocolType {
    if name == "http"@ {
        ProtocolType::Http
    } else if name == "grpc"@ {
        ProtocolType::Grpc
    } else if name == "openai"@ {
        ProtocolType::OpenAI
    } else if name == "anthropic"@ {
        ProtocolType::Anthropic
    } else if name == "tgi"@ {
        ProtocolType::Tgi
    } else {
        ProtocolType::Http
    }
}

/// The backend type of a name in lower case; image for a name that is none.
pub open spec fn backend_type_named(name: Seq<char>) -> BackendType {
    if name == "text"@ {
        BackendType::Text
    } else if name == "image"@ {
        BackendType::Image
    } else if name == "multi"@ {
        BackendType::Multi
    } else {
        BackendType::Image
    }
}

/// The protocol of a name in lower case.
pub fn parse_protocol(name: &str) -> (protocol: ProtocolType)
    ensures
        protocol == protocol_named(name@),
{
    if str_eq(name, "http") {
        ProtocolType::Http
    } else if str_eq(name, "grpc") {
        ProtocolType::Grpc
    } else if str_eq(name, "openai") {
        ProtocolType::OpenAI
    } else if str_eq(name, "anthropic") {
        ProtocolType::Anthropic
    } else if str_eq(name, "tgi") {
        ProtocolType::Tgi
    } else {
        ProtocolType::Http
    }
}

/// The backend type of a name in lower case.
pub fn parse_backend_type(name: &str) -> (backend_type: BackendType)
    ensures
        backend_type == backend_type_named(name@),
{
    if str_eq(name, "text") {
        BackendType::Text
    } else if str_eq(name, "image") {
        BackendType::Image
    } else if str_eq(name, "multi") {
        BackendType::Multi
    } else {
        BackendType::Image
    }
}

/// What the backend is asked for an API request: the request as it came,
/// with the size as width and height. The number of images is handed on
/// as it is, whatever it is.
pub open spec fn asks(backend_request: GenerateRequest, request: GenerateImageRequest) -> bool {
    &&& backend_request.prompt@ == request.prompt@
    &&& text_of(backend_request.negative_prompt) == text_of(request.negative_prompt)
    &&& backend_request.n == request.n
    &&& (backend_request.width, backend_request.height) == size_of(request.size@)
    &&& text_of(backend_request.model) == text_of(request.model)
    &&& backend_request.seed == request.seed
    &&& backend_request.guidance_scale == request.guidance_scale
    &&& backend_request.num_inference_steps == request.num_inference_steps
    &&& backend_request.response_format@ == request.response_format@
}

/// The request to hand to a backend for an API request.
pub fn backend_request(request: &GenerateImageRequest) -> (backend_request: GenerateRequest)
    ensures
        asks(backend_request, *request),
{
    let (width, height) = request.parse_size();
    GenerateRequest {
        prompt: request.prompt.clone(),
        negative_prompt: clone_text(&request.negative_prompt),
        n: request.n,
        width,
        height,
        model: clone_text(&request.model),
        seed: request.seed,
        guidance_scale: request.guidance_scale,
        num_inference_steps: request.num_inference_steps,
        response_format: request.response_format.clone(),
    }
}

/// An API image shows a generated image.
pub open spec fn shows(data: ImageData, image: GeneratedImage) -> bool {
    &&& text_of(data.b64_json) == text_of(image.b64_json)
    &&& text_of(data.url) == text_of(image.url)
    &&& text_of(data.revised_prompt) == text_of(image.revised_prompt)
}

/// The API response for what a backend generated, stamped with the time
/// at which it is made.
pub fn generate_image(response: GenerateResponse) -> (api_response: GenerateImageResponse)
    ensures
        api_response.data@.len() == response.images@.len(),
        forall|i: int|
            0 <= i < response.images@.len() ==> shows(
                #[trigger] api_response.data@[i],
                response.images@[i],
            ),
{
    let ghost images = response.images@;
    let mut data: Vec<ImageData> = Vec::new();
    for image in it: response.images
        invariant
            it.seq() == images,
            data@.len() == it.index(),
            forall|i: int| 0 <= i < it.index() ==> shows(#[trigger] data@[i], images[i]),
    {
        data.push(
            ImageData {
                b64_json: image.b64_json,
                url: image.url,
                revised_prompt: image.revised_prompt,
            },
        );
    }
    GenerateImageResponse { created: unix_timestamp(), data }
}

/// Backend information says what the adapter `state` is.
pub open spec fn describes(info: BackendInfo, state: AdapterState) -> bool {
    &&& info.name@ == state.name
    &&& info.protocol@ == protocol_tag(state.protocol)
    &&& views(info.endpoints@) == urls_of(state.endpoints)
    &&& info.healthy == any_healthy(state.endpoints)
    &&& info.weight == state.weight
    &&& info.enabled == state.enabled
}

/// List all registered backends, in slot order.
pub fn list_backends(registry: &BackendRegistry) -> (response: BackendListResponse)
    ensures
        response.backends@.len() == live_values(registry@).len(),
        forall|k: int|
            0 <= k < response.backends@.len() ==> describes(
                #[trigger] response.backends@[k],
                live_values(registry@)[k],
            ),
{
    let statuses = registry.list_backends();
    let ghost listed = statuses@;
    let mut backends: Vec<BackendInfo> = Vec::new();
    for status in it: statuses
        invariant
            it.seq() == listed,
            listed.len() == live_values(registry@).len(),
            forall|k: int|
                0 <= k < listed.len() ==> (#[trigger] listed[k]).reports(
                    live_values(registry@)[k],
                    protocol_tag(live_values(registry@)[k].protocol),
                ),
            backends@.len() == it.index(),
            forall|k: int|
                0 <= k < it.index() ==> describes(#[trigger] backends@[k], live_values(registry@)[k]),
    {
        backends.push(
            BackendInfo {
                name: status.name,
                protocol: status.protocol,
                endpoints: status.endpoints,
                healthy: status.healthy,
                weight: status.weight,
                enabled: status.enabled,
            },
        );
    }
    BackendListResponse { backends }
}

/// The adapter that an add-backend request asks for: enabled, without
/// token, models or capabilities, and with every endpoint healthy.
pub open spec fn requested_adapter(request: AddBackendRequest) -> AdapterState {
    AdapterState {
        name: request.name@,
        protocol: protocol_named(lowercase_of(request.protocol@)),
        endpoints: fresh_endpoints(views(request.endpoints@)),
        cursor: 0,
        health_check_path: request.health_check_path@,
        models: Seq::empty(),
        capabilities: Seq::empty(),
        enabled: true,
        weight: request.weight,
        timeout_ms: request.timeout_ms,
        probe_timeout_secs: 0,
        auth_token: None,
        auth_header_name: None,
    }
}

/// The message for a backend that was added.
pub open spec fn added_message(name: Seq<char>) -> Seq<char> {
    "Backend '"@ + name + "' added successfully"@
}

/// The message for a backend that was removed.
pub open spec fn removed_message(name: Seq<char>) -> Seq<char> {
    "Backend '"@ + name + "' removed successfully"@
}

/// The configuration that an add-backend request asks for.
pub fn requested_config(request: AddBackendRequest) -> (config: BackendConfig)
    ensures
        config.name@ == request.name@,
        config.protocol == protocol_named(lowercase_of(request.protocol@)),
        config.backend_type == backend_type_named(lowercase_of(request.backend_type@)),
        views(config.endpoints@) == views(request.endpoints@),
        config.enabled,
        config.auth.token_env is None,
        config.auth.header_name is None,
        config.auth.api_key is None,
        config.health_check.path@ == request.health_check_path@,
        config.health_check.interval_secs == request.health_check_interval_secs,
        config.health_check.timeout_secs == 0,
        config.load_balancer.weight == request.weight,
        config.models@.len() == 0,
        config.capabilities@.len() == 0,
        config.health_check_path@ == request.health_check_path@,
        config.health_check_interval_secs == request.health_check_interval_secs,
        config.timeout_ms == request.timeout_ms,
        config.weight == request.weight,
        adapter_of(config, None) == requested_adapter(request),
{
    let lower_protocol = to_lowercase(request.protocol.as_str());
    let protocol = parse_protocol(lower_protocol.as_str());
    let lower_type = to_lowercase(request.backend_type.as_str());
    let backend_type = parse_backend_type(lower_type.as_str());
    let config = BackendConfig {
        name: request.name,
        backend_type,
        protocol,
        endpoints: request.endpoints,
        enabled: true,
        auth: BackendAuth::default(),
        health_check: BackendHealthCheck {
            path: request.health_check_path.clone(),
            interval_secs: request.health_check_interval_secs,
            timeout_secs: 0,
        },
        load_balancer: BackendLoadBalancer { strategy: String::new(), weight: request.weight },
        models: Vec::new(),
        capabilities: Vec::new(),
        health_check_path: request.health_check_path,
        health_check_interval_secs: request.health_check_interval_secs,
        timeout_ms: request.timeout_ms,
        weight: request.weight,
    };
    proof {
        assert(views(config.models@) =~= Seq::<Seq<char>>::empty());
        assert(views(config.capabilities@) =~= Seq::<Seq<char>>::empty());
    }
    config
}

/// Add a new backend dynamically. The backend goes to the image registry:
/// a taken name is an invalid request, a protocol that no image backend
/// speaks a configuration error; else the backend is registered and the
/// response says so.
pub fn add_backend(registry: &mut BackendRegistry, request: AddBackendRequest) -> (r: Result<
    SuccessResponse,
>)
    requires
        old(registry).wf(),
    ensures
        final(registry).wf(),
        holds(old(registry)@, request.name@) ==> final(registry)@ == old(registry)@ && r is Err
            && r->Err_0.has(ErrorKind::InvalidRequest, already_exists_message(request.name@)),
        !holds(old(registry)@, request.name@) && !image_protocol(
            protocol_named(lowercase_of(request.protocol@)),
        ) ==> final(registry)@ == old(registry)@ && r is Err && r->Err_0.has(
            ErrorKind::Config,
            unsupported_protocol_message(protocol_named(lowercase_of(request.protocol@))),
        ),
        !holds(old(registry)@, request.name@) && image_protocol(
            protocol_named(lowercase_of(request.protocol@)),
        ) ==> final(registry)@ == put(old(registry)@, request.name@, requested_adapter(request))
            && r is Ok && r->Ok_0.success && r->Ok_0.message@ == added_message(request.name@),
{
    let name = request.name.clone();
    let config = requested_config(request);
    let env: Vec<(String, String)> = Vec::new();
    match registry.add_backend(config, &env) {
        Ok(()) => Ok(
            SuccessResponse {
                success: true,
                message: concat3("Backend '", name.as_str(), "' added successfully"),
            },
        ),
        Err(e) => Err(e),
    }
}

/// Remove a backend.
pub fn remove_backend(registry: &mut BackendRegistry, name: &str) -> (r: Result<SuccessResponse>)
    requires
        old(registry).wf(),
    ensures
        final(registry).wf(),
        r is Ok <==> holds(old(registry)@, name@),
        r is Ok ==> final(registry)@ == without(old(registry)@, name@) && r->Ok_0.success
            && r->Ok_0.message@ == removed_message(name@),
        r matches Err(e) ==> final(registry)@ == old(registry)@ && e.has(
            ErrorKind::BackendNotFound,
            name@,
        ),
{
    match registry.remove_backend(name) {
        Ok(()) => Ok(
            SuccessResponse {
                success: true,
                message: concat3("Backend '", name, "' removed successfully"),
            },
        ),
        Err(e) => Err(e),
    }
}

/// The status that the health route reports: healthy where at least one
/// backend counts as healthy, else degraded.
pub open spec fn status_word(healthy: nat) -> Seq<char> {
    if healthy > 0 {
        "healthy"@
    } else {
        "degraded"@
    }
}

/// Health check endpoint.
pub fn health_check(manager: &HealthCheckManager, registry: &BackendRegistry) -> (response:
    HealthResponse)
    requires
        manager.wf(),
    ensures
        response.status@ == status_word(healthy_count(manager@, live_values(registry@))),
        response.version@ == VERSION@,
        response.backends.total == live_values(registry@).len(),
        response.backends.healthy == healthy_count(manager@, live_values(registry@)),
        response.backends.total == response.backends.healthy + response.backends.unhealthy,
{
    let (total, healthy, unhealthy) = manager.get_health_summary(registry);
    let status = if healthy > 0 {
        "healthy".to_string()
    } else {
        "degraded".to_string()
    };
    HealthResponse {
        status,
        version: VERSION.to_string(),
        backends: BackendHealthSummary { total, healthy, unhealthy },
    }
}

/// The text of the metrics route.
pub open spec fn metrics_text() -> Seq<char> {
    "# HELP img_serving_requests_total Total number of image generation requests\n# TYPE img_serving_requests_total counter\nimg_serving_requests_total 0\n"@
}

/// Metrics endpoint, in the Prometheus text format.
pub fn metrics() -> (text: String)
    ensures
        text@ == metrics_text(),
{
    "# HELP img_serving_requests_total Total number of image generation requests\n# TYPE img_serving_requests_total counter\nimg_serving_requests_total 0\n".to_string()
}

} // verus!
