//! State-synchronization engine for a PipeWire volume-mixer daemon: a
//! generation-tracked cache of mixing buses and application streams, the
//! event-bridge logic that folds backend events into that cache, the
//! routing reconciler, the binary shared-memory snapshot codec, and the
//! publisher's adaptive-interval/staleness state machine.
pub mod app_name_detector;
pub mod bridge;
pub mod bytescan;
pub mod cache;
pub mod codec;
pub mod concurrent_map;
pub mod config;
pub mod introspect;
pub mod ipc;
pub mod publisher;
pub mod routing;
