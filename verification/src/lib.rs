//! The decisions of an SSH server that can publish itself through a developer tunnel: its
//! settings, who it lets in, what its sessions run, which files its clients reach, and how
//! it keeps its tunnel going.
//!
//! Everything here computes. Reading files, listening, running processes and waiting are
//! left to the program around the library, which hands in what it found and does what it is
//! told.

pub mod auth;
pub mod cli;
pub mod config;
pub mod devtunnel;
pub mod error;
pub mod forward;
pub mod handler;
pub mod hostkey;
pub mod load;
pub mod net;
pub mod number;
pub mod order;
pub mod paths;
pub mod saved;
pub mod server;
pub mod service;
pub mod session;
pub mod sftp;
pub mod sshd_config;
pub mod text;
pub mod util;
pub mod windows_service;

pub use auth::{AuthMethod, AuthRequest, AuthResult, PublicKey};
pub use config::{
    default_accept_env, default_bind, parse_tunnel_timeout, valid_tunnel_id, validate_tunnel_id,
    Config, DevTunnelConfig, DEFAULT_LOGIN_GRACE_SECS, DEFAULT_MAX_STARTUPS, DEFAULT_PORT,
};
pub use error::Error;
pub use forward::{ForwardDecision, ForwardRequest, Forwarder};
pub use hostkey::default_host_key_path;
pub use server::{Server, ServerBuilder};
pub use session::{CommandResolver, PtyRequest, SessionCommand, SessionRequest};
pub use util::split_command_line;
