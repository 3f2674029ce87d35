//! Hindsight: distributed-tracing ingest, assembly, retention and query engine,
//! with the W3C trace-context primitives that clients and server share.

pub mod ids;
pub mod context;
pub mod span;
pub mod trace;
pub mod events;
pub mod listing;
pub mod store;
pub mod client;
pub mod routing;
pub mod navigation;
