//! A minimal HTTP/1.1 protocol layer: request and response parsing,
//! response formatting and the per-connection decision logic.
pub mod text;
pub mod parser;
pub mod server;
