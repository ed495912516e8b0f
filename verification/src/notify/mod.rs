//! The `notify` plugin: desktop, terminal and spoken notifications, and the
//! inbox that keeps them.

pub mod inbox;
pub mod providers;
pub mod handler;
