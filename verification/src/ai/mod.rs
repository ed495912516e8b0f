//! The `ai` plugin: chat completion through one of several providers, the
//! models and agents it knows, and the tokens they used.

pub mod table;
pub mod usage;
pub mod db;
pub mod config;
pub mod request;
pub mod provider;
pub mod handler;
