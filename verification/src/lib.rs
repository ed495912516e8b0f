//! Verified logic of the vynkor plugin family: request validation, state
//! machines and data structures of the `ai`, `calendar`, `clipboard`,
//! `database`, `filesystem`, `media`, `network`, `notes`, `notify`,
//! `scheduler`, `search`, `secrets`, `sound`, `stt`, `sync` and
//! `sync-client` plugins.

pub mod action;
pub mod ai;
pub mod calendar;
pub mod caller;
pub mod clipboard;
pub mod database;
pub mod fields;
pub mod filesystem;
pub mod json;
pub mod listing;
pub mod media;
pub mod network;
pub mod notes;
pub mod notify;
pub mod number;
pub mod rpc;
pub mod scheduler;
pub mod search;
pub mod secrets;
pub mod serving;
pub mod settings;
pub mod sorting;
pub mod sound;
pub mod strmap;
pub mod sync;
pub mod sync_client;
pub mod text;
pub mod trusted;
