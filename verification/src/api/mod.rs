//! The API of the gateway: its request and response shapes, and what each
//! handler decides.

pub mod models;
pub mod handlers;
pub mod text_handlers;
