//! A configurable HTTP request sink: configuration parsing, the log filter,
//! response assembly and request counters, with their contracts.
pub mod text;
pub mod config;
pub mod metrics;
pub mod handler;
