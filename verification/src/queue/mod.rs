//! Admission of requests.

pub mod request_queue;
