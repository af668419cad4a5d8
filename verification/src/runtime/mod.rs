//! The runtime's logic: configuration, the synchronous engine core the
//! worker drives, and the decisions of the HTTP boundary. The async
//! plumbing (sockets, channels, timers) is the application's part.

pub mod config;
pub mod http;
pub mod worker;

pub use config::{ConfigError, HttpConfig, RuntimeConfig};
pub use worker::{now_unix_ms, EngineCore};
