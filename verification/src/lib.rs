//! A stateless gateway between plain requests and remote mailboxes.
//!
//! The library holds everything that the gateway decides and computes: its configuration,
//! the two axes of access, the derivation of a provider's targets, the address policy on
//! them, searching and fetching mail, sending it, the store of idle connections, and the
//! tool protocol. It neither connects to anything nor reads a clock or the environment:
//! what is needed from outside is asked for, and handed back as plain values.

pub mod answers;
pub mod auth;
pub mod autoconfig;
pub mod config;
pub mod endpoint;
pub mod error;
pub mod headers;
pub mod imap;
pub mod json;
pub mod ladder;
pub mod mcp;
pub mod net;
pub mod openapi;
pub mod pool;
pub mod routes;
pub mod send;
pub mod session;
pub mod smtp;
pub mod text;

pub use config::Config;
pub use endpoint::EndpointGuard;
pub use error::GatewayError;
pub use pool::{ImapPool, PoolConfig};
