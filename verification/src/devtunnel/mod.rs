//! Developer tunnels: hosting one, and connecting through one.

pub mod broker;
pub mod client;
pub mod host;
pub mod ipc;
pub mod json;
pub mod logs;
pub mod network;
pub mod process;
pub mod retry;
