//! The `search` plugin: web search through one of several providers.

pub mod request;
pub mod provider;
