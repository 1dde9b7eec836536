//! The server's own types: its error wrapper and the bodies of its HTTP API.

pub mod error;
pub mod http;
pub mod autopilot;
pub mod identity;
