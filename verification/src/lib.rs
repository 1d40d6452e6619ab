//! A span lifecycle event recorder.
//!
//! The crate models a tracing pipeline explicitly: a registry of spans
//! (`registry`), per-thread stacks of entered spans and reference-counted
//! span handles (`pipeline`), an append-only log of lifecycle events
//! (`events`), and a stateless recorder that renders each event as one
//! diagnostic line (`recorder`, `render`). The `laws` module proves the
//! ordering guarantees of the event log; `demo` drives the pipeline through
//! a two-worker scenario that enters a shared root span from both workers.

pub mod events;
pub mod registry;
pub mod render;
pub mod recorder;
pub mod pipeline;
pub mod laws;
pub mod demo;
