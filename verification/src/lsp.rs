//! Language servers: what each is configured for, what it is doing, and what
//! becomes of it when it exits.

pub mod config;
pub mod json;
pub mod progress;
pub mod answers;
pub mod servers;
pub mod docs;
pub mod requests;
pub mod session;

pub use config::ServerConfig;
