//! A verified single-table data-access layer for a home-telemetry backend.
//!
//! Typed domain records are mapped onto a partition-key/sort-key item model;
//! partition-scoped range queries are exposed through bidirectional,
//! cursor-based pagination; writes go through chunked batches and
//! existence-conditioned updates; live updates fan out through a best-effort
//! broadcast log.

pub mod api;
pub mod auth;
pub mod batch;
pub mod condition;
pub mod engine;
pub mod errors;
pub mod ids;
pub mod item;
pub mod keys;
pub mod nums;
pub mod pubsub;
pub mod records;
pub mod store;
pub mod times;
