//! Selection of a backend for a request, and the bookkeeping of health.

pub mod load_balancer;
pub mod router;
pub mod health_check;
