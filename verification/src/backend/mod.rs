//! Backends: adapters, the slots that hold them, and the two registries.

pub mod adapter;
pub mod endpoint;
pub mod headers;
pub mod index;
pub mod registry;
pub mod slots;
pub mod text_backend;
pub mod text_registry;

pub use text_backend::{
    create_text_backend, ChatChoice, ChatCompletionRequest, ChatCompletionResponse, ChatMessage,
    ModelInfo, ModelsResponse, TextBackend, TextBackendStatus, TextChoice,
    TextCompletionRequest, TextCompletionResponse, Usage,
};
pub use text_registry::TextBackendRegistry;
