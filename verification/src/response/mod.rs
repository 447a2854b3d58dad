//! What the gateway makes of generated artifacts.

pub mod url;
