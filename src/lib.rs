//! An HTTP ingestion gateway's request logic: schema and processor resolution, body framing
//! and size limits, outbound metadata headers, delivery accounting and response assembly.

/// Configuration types and their defaults.
pub mod config;
/// Configuration and request errors.
pub mod error;
/// Trimming and line splitting of message bytes.
pub mod framing;
/// The request headers as processors see them.
pub mod headers;
/// HTTP method names: checking, normalising, ordering.
pub mod methods;
/// The per-request pipeline: content type, metadata, body limits, delivery accounting, answer.
pub mod pipeline;
/// Request processors and the precedence of their bindings.
pub mod processors;
/// The producer pool's configuration.
pub mod producers;
/// The schema table built at startup, and what a request becomes.
pub mod schema;
