//! A verified core for a chat-completion forwarding shim.
//!
//! The library owns the per-request logic: building the outbound request
//! body (the inbound messages plus fixed generation parameters), checking
//! that an upstream reply body is well-formed JSON, deciding the HTTP
//! reply that is owed for each upstream outcome, and deciding how the
//! listener routes a request. The laws that bind these parts together
//! — escaping loses nothing, every built body is well-formed JSON, and
//! the built body determines the messages — are proved as well. The
//! surrounding process (socket handling, the HTTP client) lives outside
//! the library and hands it plain values.

pub mod chat;
pub mod encode;
pub mod forward;
pub mod json;
pub mod route;
pub mod wellformed;
