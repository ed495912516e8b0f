//! The `network` plugin: outbound HTTP for other plugins.

pub mod request;
pub mod ssrf;
pub mod cookies;
pub mod multipart;
pub mod cache;
pub mod inflight;
pub mod handler;
