//! Per-core CPU usage telemetry: bounded per-core histories, the snapshot
//! published on every sampling tick, and the decisions of a connection that
//! streams those snapshots to a peer.

pub mod history;
pub mod sampler;
pub mod connection;
